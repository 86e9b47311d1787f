//! Why the output of a source file never leaves the output directory.

use crate::config::ArchiveType;
use crate::config::FormatFileExt;
use crate::path::current_dir;
use crate::path::file_name_of;
use crate::path::has_root;
use crate::path::join_of;
use crate::path::laws::are_relative_parts;
use crate::path::laws::is_name;
use crate::path::laws::is_one_piece;
use crate::path::laws::lemma_parts_of_joined;
use crate::path::laws::lemma_last_name;
use crate::path::laws::lemma_names_are_names;
use crate::path::laws::lemma_names_of_joined;
use crate::path::laws::lemma_names_of_name;
use crate::path::laws::lemma_parts_of_join;
use crate::path::laws::lemma_with_extension_names;
use crate::path::lead;
use crate::path::names;
use crate::path::parent_dir;
use crate::path::parts;
use crate::path::stays_below;
use crate::path::SEPARATOR;
use crate::paths::kept_parts;
use crate::paths::output_name_of;
use crate::paths::output_path_of;
use crate::paths::output_subpath_of;
use crate::paths::sanitized_of;
use vstd::prelude::*;

verus! {

/// Whether `path` stays within the directory `dir` as far as its parts
/// tell: it starts with the parts of `dir`, and never steps up after them.
pub open spec fn stays_within(path: Seq<char>, dir: Seq<char>) -> bool {
    &&& parts(dir).len() <= parts(path).len()
    &&& parts(path).take(parts(dir).len() as int) == parts(dir)
    &&& forall|i: int| parts(dir).len() <= i < parts(path).len() ==> parts(path)[i] != parent_dir()
}

/// A path that does not start at the root, made fit to be put under another
/// directory, does not start at the root and has no name that steps up.
pub proof fn lemma_sanitized_is_safe(source: Seq<char>)
    requires
        !has_root(source),
    ensures
        !has_root(sanitized_of(source)),
        forall|j: int|
            0 <= j < names(sanitized_of(source)).len() ==> (#[trigger] names(
                sanitized_of(source),
            )[j]) != parent_dir(),
{
    let all = parts(source);
    let kept = kept_parts(source);
    assert forall|i: int| 0 <= i < kept.len() implies is_one_piece(#[trigger] kept[i]) && kept[i].len()
        > 0 && kept[i] != parent_dir() by {
        all.lemma_filter_pred(stays_below(), i);
        assert(kept.contains(kept[i]));
        all.lemma_filter_contains_rev(stays_below(), kept[i]);
        let k = choose|k: int| 0 <= k < all.len() && all[k] == kept[i];
        if k < lead(source).len() {
            assert(all[k] == current_dir());
        } else {
            lemma_names_are_names(source, k - lead(source).len());
        }
    }
    lemma_names_of_joined(kept);
    let clean = sanitized_of(source);
    assert forall|j: int| 0 <= j < names(clean).len() implies (#[trigger] names(clean)[j])
        != parent_dir() by {
        assert(kept.contains(names(clean)[j]));
    }
}

/// The parts that are kept of a path without root can be the parts of a
/// path again, and none of them steps up.
proof fn lemma_kept_parts(source: Seq<char>)
    requires
        !has_root(source),
    ensures
        are_relative_parts(kept_parts(source)),
        kept_parts(source).filter(stays_below()) == kept_parts(source),
{
    let front = lead(source);
    let kept = kept_parts(source);
    let below = names(source).filter(stays_below());
    Seq::filter_distributes_over_add(front, names(source), stays_below());
    if front.len() > 0 {
        assert(front =~= Seq::<Seq<char>>::empty().push(current_dir()));
        assert(current_dir().len() != parent_dir().len());
        Seq::lemma_filter_push(Seq::<Seq<char>>::empty(), current_dir(), stays_below());
    }
    assert(Seq::<Seq<char>>::empty().filter(stays_below()) =~= Seq::<Seq<char>>::empty());
    assert(front.filter(stays_below()) =~= front);
    assert(kept =~= front + below);
    assert forall|i: int| 0 <= i < below.len() implies is_name(#[trigger] below[i]) && below[i]
        != parent_dir() by {
        names(source).lemma_filter_pred(stays_below(), i);
        assert(below.contains(below[i]));
        names(source).lemma_filter_contains_rev(stays_below(), below[i]);
        let k = choose|k: int| 0 <= k < names(source).len() && names(source)[k] == below[i];
        lemma_names_are_names(source, k);
    }
    assert forall|i: int| 0 < i < kept.len() implies is_name(#[trigger] kept[i]) by {
        if front.len() > 0 {
            assert(kept[i] == below[i - 1]);
        } else {
            assert(kept[i] == below[i]);
        }
    }
    if kept.len() > 0 {
        if front.len() > 0 {
            assert(kept[0] == current_dir());
        } else {
            assert(kept[0] == below[0]);
        }
    }
    assert forall|i: int| 0 <= i < kept.len() implies stays_below()(#[trigger] kept[i]) by {
        if i < front.len() {
            assert(kept[i] == current_dir());
        } else {
            assert(kept[i] == below[i - front.len()]);
        }
    }
    lemma_filter_all(kept);
}

/// Parts of which none steps up all pass the filter.
proof fn lemma_filter_all(kept: Seq<Seq<char>>)
    requires
        forall|i: int| 0 <= i < kept.len() ==> stays_below()(#[trigger] kept[i]),
    ensures
        kept.filter(stays_below()) == kept,
    decreases kept.len(),
{
    if kept.len() == 0 {
        assert(kept.filter(stays_below()) =~= kept);
    } else {
        let init = kept.drop_last();
        assert forall|i: int| 0 <= i < init.len() implies stays_below()(#[trigger] init[i]) by {
            assert(init[i] == kept[i]);
        }
        lemma_filter_all(init);
        assert(kept =~= init.push(kept.last()));
        Seq::lemma_filter_push(init, kept.last(), stays_below());
    }
}

/// A path without root that is made fit has the parts that it had, without
/// the steps up; and it is fit: making it fit once more changes nothing.
pub proof fn lemma_sanitized_parts(source: Seq<char>)
    requires
        !has_root(source),
    ensures
        parts(sanitized_of(source)) == parts(source).filter(stays_below()),
        !has_root(sanitized_of(source)),
        sanitized_of(sanitized_of(source)) == sanitized_of(source),
{
    lemma_kept_parts(source);
    lemma_parts_of_joined(kept_parts(source));
}

/// A path without root and without a name that steps up, put under a
/// directory, stays within that directory.
pub proof fn lemma_join_stays_within(base: Seq<char>, path: Seq<char>)
    requires
        !has_root(path),
        forall|j: int| 0 <= j < names(path).len() ==> (#[trigger] names(path)[j]) != parent_dir(),
    ensures
        stays_within(join_of(base, path), base),
{
    lemma_parts_of_join(base, path);
    let whole = parts(join_of(base, path));
    let deep = parts(base).len();
    if base.len() == 0 {
        assert(parts(base) =~= Seq::<Seq<char>>::empty());
        assert(whole.take(0) =~= parts(base));
        assert forall|i: int| deep <= i < whole.len() implies whole[i] != parent_dir() by {
            if i < lead(path).len() {
                assert(whole[i] == current_dir());
                assert(current_dir().len() != parent_dir().len());
            } else {
                assert(whole[i] == names(path)[i - lead(path).len()]);
            }
        }
    } else {
        assert(whole.take(deep as int) =~= parts(base));
        assert forall|i: int| deep <= i < whole.len() implies whole[i] != parent_dir() by {
            assert(whole[i] == names(path)[i - deep]);
        }
    }
}

/// The output of a source file stays within the output directory, whatever
/// the source: a path that starts at the root gives its name alone, and the
/// steps up of any other are left out. `ext` is the extension of the output:
/// not empty, and without a separator.
pub proof fn lemma_output_stays_within(source: Seq<char>, outdir: Seq<char>, ext: Seq<char>)
    requires
        is_one_piece(ext),
        ext.len() > 0,
        output_path_of(source, outdir, ext) is Some,
    ensures
        stays_within(output_path_of(source, outdir, ext)->0, outdir),
{
    let subpath = output_subpath_of(source, ext)->0;
    if has_root(source) {
        let name = output_name_of(source)->0;
        if file_name_of(source) is Some {
            lemma_last_name(source);
        } else {
            lemma_names_are_names(source, names(source).len() - 2);
        }
        lemma_names_of_name(name);
        assert(parent_dir().len() == 2);
        lemma_with_extension_names(name, ext);
        assert(names(name).drop_last() =~= Seq::<Seq<char>>::empty());
        assert(name[0] != SEPARATOR);
        lemma_join_stays_within(outdir, subpath);
    } else {
        let clean = sanitized_of(source);
        lemma_sanitized_is_safe(source);
        if file_name_of(clean) is Some {
            lemma_with_extension_names(clean, ext);
            let inner = names(clean);
            assert forall|j: int| 0 <= j < names(subpath).len() implies (#[trigger] names(
                subpath,
            )[j]) != parent_dir() by {
                if j < inner.len() - 1 {
                    assert(names(subpath)[j] == inner[j]);
                }
            }
        }
        lemma_join_stays_within(outdir, subpath);
    }
}

/// The extension of every container type is fit for an output path: not
/// empty, and without a separator.
pub proof fn lemma_archive_extension(archive: ArchiveType)
    ensures
        is_one_piece(archive.ext_of()),
        archive.ext_of().len() > 0,
{
    reveal_strlit("zip");
    reveal_strlit("cbz");
    reveal_strlit("cb7");
    reveal_strlit("7z");
}

} // verus!
