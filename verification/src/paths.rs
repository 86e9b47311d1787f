//! Where the output of a source file goes, and which entries of a container
//! are worth converting.

use crate::config::ArchiveType;
use crate::config::FormatFileExt;
use crate::path::file_name;
use crate::path::file_name_of;
use crate::path::parent_name;
use crate::path::parent_name_of;
use crate::path::has_root;
use crate::path::is_absolute;
use crate::path::is_parent_dir;
use crate::path::join;
use crate::path::join_of;
use crate::path::joined;
use crate::path::leads_with_current_dir;
use crate::path::lead;
use crate::path::name_spans;
use crate::path::names;
use crate::path::parent_dir;
use crate::path::parts;
use crate::path::spans_mark;
use crate::path::stays_below;
use crate::path::with_extension;
use crate::path::with_extension_of;
use crate::safety::lemma_archive_extension;
use crate::safety::lemma_output_stays_within;
use crate::safety::stays_within;
use crate::text::chars_of;
use vstd::prelude::*;
use vstd::string::StrSliceExecFns;
use vstd::string::StringExecFns;

verus! {

/// The parts of `s` that are kept when it is put under another directory:
/// of a path that starts at the root, its names; of any other, its parts
/// without the steps up to the parent.
pub open spec fn kept_parts(s: Seq<char>) -> Seq<Seq<char>> {
    if has_root(s) {
        names(s)
    } else {
        parts(s).filter(stays_below())
    }
}

/// `s` made fit to be put under another directory: its kept parts, with a
/// separator between each two.
pub open spec fn sanitized_of(s: Seq<char>) -> Seq<char> {
    joined(kept_parts(s))
}

/// The name that the output of an absolute `source` is called by, before its
/// extension is set: the file name of `source`, or else that of its parent.
pub open spec fn output_name_of(source: Seq<char>) -> Option<Seq<char>> {
    match file_name_of(source) {
        Some(name) => Some(name),
        None => parent_name_of(source),
    }
}

/// Where under the output directory the output of `source` goes: for a
/// `source` that starts at the root, its output name with `ext` as the
/// extension; for any other, `source` made fit, with `ext` as the extension.
pub open spec fn output_subpath_of(source: Seq<char>, ext: Seq<char>) -> Option<Seq<char>> {
    if has_root(source) {
        match output_name_of(source) {
            Some(name) => Some(with_extension_of(name, ext)),
            None => None,
        }
    } else {
        Some(with_extension_of(sanitized_of(source), ext))
    }
}

/// The path of the output of `source`, under `outdir`.
pub open spec fn output_path_of(source: Seq<char>, outdir: Seq<char>, ext: Seq<char>) -> Option<
    Seq<char>,
> {
    match output_subpath_of(source, ext) {
        Some(subpath) => Some(join_of(outdir, subpath)),
        None => None,
    }
}

/// Filtering one part more: it is kept unless it steps up.
proof fn lemma_filter_grow(before: Seq<Seq<char>>, part: Seq<char>)
    ensures
        before.push(part).filter(stays_below()) == if part != parent_dir() {
            before.filter(stays_below()).push(part)
        } else {
            before.filter(stays_below())
        },
{
    Seq::lemma_filter_push(before, part, stays_below());
}

/// A single part that does not step up passes the filter.
proof fn lemma_filter_one(part: Seq<char>)
    requires
        part != parent_dir(),
    ensures
        seq![part].filter(stays_below()) == seq![part],
{
    assert(Seq::<Seq<char>>::empty().filter(stays_below()) =~= Seq::<Seq<char>>::empty());
    assert(seq![part] =~= Seq::<Seq<char>>::empty().push(part));
    lemma_filter_grow(Seq::empty(), part);
}

/// Prepares `path` to be put under another directory: a path that starts at
/// the root loses its root, any other its steps up to the parent.
pub fn sanitize_path(path: &str) -> (clean: String)
    ensures
        clean@ == sanitized_of(path@),
{
    let chars = chars_of(path);
    let spans = name_spans(&chars);
    let ghost s = path@;
    let rooted = chars.len() > 0 && chars[0] == crate::path::SEPARATOR;
    let mut clean = String::new();
    let ghost mut kept: Seq<Seq<char>> = Seq::empty();
    let mut none_yet = true;
    if !rooted && leads_with_current_dir(&chars) {
        clean.append(".");
        none_yet = false;
        proof {
            reveal_strlit(".");
            kept = seq![crate::path::current_dir()];
            assert("."@ =~= crate::path::current_dir());
            assert(clean@ =~= crate::path::current_dir());
            assert(lead(s) =~= seq![crate::path::current_dir()]);
            lemma_filter_one(crate::path::current_dir());
        }
    } else {
        proof {
            if !rooted {
                assert(lead(s) =~= Seq::<Seq<char>>::empty());
            }
            assert(Seq::<Seq<char>>::empty().filter(stays_below()) =~= Seq::<Seq<char>>::empty());
        }
    }
    proof {
        assert(s.take(s.len() as int) =~= s);
        assert(names(s).take(0) =~= Seq::<Seq<char>>::empty());
        assert(lead(s) + Seq::<Seq<char>>::empty() =~= lead(s));
    }
    let mut k: usize = 0;
    while k < spans.len()
        invariant
            s == path@,
            s == chars@,
            rooted == has_root(s),
            spans_mark(spans@, s, s.len() as int),
            s.take(s.len() as int) == s,
            0 <= k <= spans@.len(),
            none_yet == (kept.len() == 0),
            clean@ == joined(kept),
            kept == if rooted {
                names(s).take(k as int)
            } else {
                (lead(s) + names(s).take(k as int)).filter(stays_below())
            },
        decreases spans.len() - k,
    {
        let span = spans[k];
        let ghost part = s.subrange(span.start as int, span.end as int);
        let keep = rooted || !is_parent_dir(&chars, span);
        proof {
            assert(names(s).take(k + 1) =~= names(s).take(k as int).push(part));
            assert(lead(s) + names(s).take(k + 1) =~= (lead(s) + names(s).take(k as int)).push(
                part,
            ));
            lemma_filter_grow(lead(s) + names(s).take(k as int), part);
        }
        if keep {
            if !none_yet {
                clean.append("/");
            }
            clean.append(path.substring_char(span.start, span.end));
            proof {
                reveal_strlit("/");
                assert("/"@ =~= seq![crate::path::SEPARATOR]);
                let grown = kept.push(part);
                assert(grown.drop_last() =~= kept);
                if kept.len() == 0 {
                    assert(clean@ =~= part);
                }
                kept = grown;
            }
            none_yet = false;
        }
        k += 1;
    }
    proof {
        assert(names(s).take(spans@.len() as int) =~= names(s));
    }
    clean
}

/// Whether `source` has an output path: every path that does not start at
/// the root has one, and of those that do, the ones with an output name.
pub fn has_output_path(source: &str) -> (yes: bool)
    ensures
        yes == (!has_root(source@) || output_name_of(source@) is Some),
{
    !is_absolute(source) || file_name(source).is_some() || parent_name(source).is_some()
}

/// The path of the converted archive for `source`, under `outdir`, with the
/// extension of `archive`. A `source` that starts at the root gives its file
/// name alone (that of its parent where it has none); any other keeps its
/// directories, without the steps up to the parent.
///
/// A `source` that starts at the root and has neither a file name nor a
/// parent with a file name, such as `/`, `/..` or `/a/../..`, names nothing to
/// call the output by, and is left out; `has_output_path` tells.
pub fn output_archive_path(source: &str, outdir: &str, archive: ArchiveType) -> (output: String)
    requires
        !has_root(source@) || output_name_of(source@) is Some,
    ensures
        Some(output@) == output_path_of(source@, outdir@, archive.ext_of()),
        stays_within(output@, outdir@),
{
    proof {
        lemma_archive_extension(archive);
        lemma_output_stays_within(source@, outdir@, archive.ext_of());
    }
    let subpath = if is_absolute(source) {
        let name = match file_name(source) {
            Some(found) => found,
            None => match parent_name(source) {
                Some(found) => found,
                None => source,
            },
        };
        with_extension(name, archive.ext())
    } else {
        let clean = sanitize_path(source);
        with_extension(clean.as_str(), archive.ext())
    };
    join(outdir, subpath.as_str())
}

} // verus!
