//! What follows from the model of paths: how the names of a path relate to
//! the names of its pieces, and what setting an extension or putting a path
//! under a directory does to them.

use crate::path::before;
use crate::path::before_last_piece;
use crate::path::dotted;
use crate::path::file_name_of;
use crate::path::has_root;
use crate::path::is_skipped;
use crate::path::join_of;
use crate::path::joined;
use crate::path::last_dot;
use crate::path::last_piece;
use crate::path::last_piece_start;
use crate::path::lead;
use crate::path::lemma_last_dot;
use crate::path::lemma_last_piece_start;
use crate::path::lemma_last_piece_start_is;
use crate::path::names;
use crate::path::names_end;
use crate::path::parent_dir;
use crate::path::parts;
use crate::path::stem_of_name;
use crate::path::with_extension_of;
use crate::path::SEPARATOR;
use vstd::prelude::*;

verus! {

/// Whether `s` holds no separator.
pub open spec fn is_one_piece(s: Seq<char>) -> bool {
    forall|i: int| 0 <= i < s.len() ==> s[i] != SEPARATOR
}

/// Whether `s` can be a name of a path: one piece that is not skipped.
pub open spec fn is_name(s: Seq<char>) -> bool {
    is_one_piece(s) && !is_skipped(s)
}

/// The only name of a path that is a name is that path.
pub proof fn lemma_names_of_name(s: Seq<char>)
    requires
        is_name(s),
    ensures
        names(s) == seq![s],
        names_end(s) == s.len(),
{
    lemma_last_piece_start_is(s, 0);
    assert(last_piece(s) =~= s);
    assert(names(before_last_piece(s)) =~= Seq::<Seq<char>>::empty());
    assert(Seq::<Seq<char>>::empty().push(s) =~= seq![s]);
}

/// The names of two paths with a separator between them are the names of the
/// one, then the names of the other.
pub proof fn lemma_names_concat(a: Seq<char>, b: Seq<char>)
    ensures
        names(a + seq![SEPARATOR] + b) == names(a) + names(b),
    decreases b.len(),
{
    let s = a + seq![SEPARATOR] + b;
    let offset = a.len() + 1;
    lemma_last_piece_start(b);
    let k = last_piece_start(b);
    assert forall|j: int| offset + k <= j < s.len() implies s[j] != SEPARATOR by {
        assert(s[j] == b[j - offset]);
    }
    if k > 0 {
        assert(s[offset + k - 1] == b[k - 1]);
    } else {
        assert(s[offset - 1] == SEPARATOR);
    }
    lemma_last_piece_start_is(s, offset + k);
    assert(last_piece(s) =~= last_piece(b));
    if b.len() == 0 {
        assert(before_last_piece(s) =~= a);
        assert(names(a) + names(b) =~= names(a));
    } else if k == 0 {
        assert(before_last_piece(s) =~= a);
        assert(before_last_piece(b) =~= Seq::<char>::empty());
        assert(names(before_last_piece(b)) =~= Seq::<Seq<char>>::empty());
        if is_skipped(last_piece(b)) {
            assert(names(a) + names(b) =~= names(a));
        } else {
            assert(names(a) + names(b) =~= names(a).push(last_piece(b)));
        }
    } else {
        let shorter = before_last_piece(b);
        assert(before_last_piece(s) =~= a + seq![SEPARATOR] + shorter);
        lemma_names_concat(a, shorter);
        if is_skipped(last_piece(b)) {
        } else {
            assert((names(a) + names(shorter)).push(last_piece(b)) =~= names(a) + names(
                shorter,
            ).push(last_piece(b)));
        }
    }
}

/// Where a path has names, the last of them ends where the names end, starts
/// behind a separator or at the front, and what stands before it gives the
/// names before it.
pub proof fn lemma_last_name(s: Seq<char>)
    requires
        names(s).len() > 0,
    ensures
        is_name(names(s).last()),
        names(s).last().len() <= names_end(s) <= s.len(),
        s.subrange(names_end(s) - names(s).last().len(), names_end(s)) == names(s).last(),
        names_end(s) - names(s).last().len() > 0 ==> s[names_end(s) - names(s).last().len() - 1]
            == SEPARATOR,
        names(s) == names(before(s, names_end(s) - names(s).last().len())).push(names(s).last()),
    decreases s.len(),
{
    lemma_last_piece_start(s);
    let k = last_piece_start(s);
    let piece = last_piece(s);
    let rest = before_last_piece(s);
    if is_skipped(piece) {
        lemma_last_name(rest);
        let e = names_end(rest);
        let f = names(rest).last();
        assert(rest.subrange(e - f.len(), e) =~= s.subrange(e - f.len(), e));
        if e - f.len() > 0 {
            assert(rest[e - f.len() - 1] == s[e - f.len() - 1]);
            assert(before(rest, e - f.len()) =~= before(s, e - f.len()));
        }
    } else {
        assert(names(s).last() == piece);
        assert(s.subrange(k, s.len() as int) =~= piece);
        assert(before(s, k) == rest);
        assert forall|i: int| 0 <= i < piece.len() implies piece[i] != SEPARATOR by {
            assert(piece[i] == s[k + i]);
        }
    }
}

/// Every name of a path is a name: one piece that is not skipped.
pub proof fn lemma_names_are_names(s: Seq<char>, at: int)
    requires
        0 <= at < names(s).len(),
    ensures
        is_name(names(s)[at]),
    decreases s.len(),
{
    lemma_last_name(s);
    lemma_last_piece_start(s);
    if at < names(s).len() - 1 {
        let start = names_end(s) - names(s).last().len();
        lemma_names_are_names(before(s, start), at);
    }
}

/// The stem of a name is not empty and holds no separator.
proof fn lemma_stem(name: Seq<char>)
    requires
        is_name(name),
    ensures
        0 < stem_of_name(name).len() <= name.len(),
        is_one_piece(stem_of_name(name)),
        stem_of_name(name) == name.take(stem_of_name(name).len() as int),
{
    lemma_last_dot(name);
    let stem = stem_of_name(name);
    if last_dot(name) > 0 {
        assert forall|i: int| 0 <= i < stem.len() implies stem[i] != SEPARATOR by {
            assert(stem[i] == name[i]);
        }
    } else {
        assert(name.take(name.len() as int) =~= name);
    }
}

/// Setting the extension of a path that has a file name changes its last
/// name and nothing before it.
pub proof fn lemma_with_extension_names(s: Seq<char>, ext: Seq<char>)
    requires
        file_name_of(s) is Some,
        is_one_piece(ext),
        ext.len() > 0,
    ensures
        names(with_extension_of(s, ext)) == names(s).drop_last().push(
            stem_of_name(names(s).last()) + dotted(ext),
        ),
        stem_of_name(names(s).last()) + dotted(ext) != parent_dir(),
        has_root(with_extension_of(s, ext)) == has_root(s),
{
    lemma_last_name(s);
    let name = names(s).last();
    lemma_stem(name);
    let stem = stem_of_name(name);
    let start = names_end(s) - name.len();
    let changed = with_extension_of(s, ext);
    let tail = stem + dotted(ext);
    assert(tail.len() >= 3);
    assert(s.subrange(start, start + stem.len()) =~= stem) by {
        assert forall|i: int| 0 <= i < stem.len() implies s.subrange(start, start + stem.len())[i]
            == stem[i] by {
            assert(s.subrange(start, names_end(s))[i] == name[i]);
        }
    }
    assert(changed =~= s.take(start) + tail);
    assert forall|j: int| start <= j < changed.len() implies changed[j] != SEPARATOR by {
        let i = j - start;
        if i < stem.len() {
            assert(tail[i] == stem[i]);
        } else if i > stem.len() {
            assert(tail[i] == ext[i - stem.len() - 1]);
        }
    }
    if start > 0 {
        assert(changed[start - 1] == s[start - 1]);
    }
    lemma_last_piece_start_is(changed, start);
    assert(last_piece(changed) =~= tail);
    assert(before_last_piece(changed) =~= before(s, start));
    assert(!is_skipped(tail));
    assert(names(s).drop_last() =~= names(before(s, start)));
    assert(changed[0] == s[0]);
}

/// The names of parts with separators between them, where every part is one
/// piece, are among those parts; and parts that are not empty give a path
/// that does not start at the root.
pub proof fn lemma_names_of_joined(kept: Seq<Seq<char>>)
    requires
        forall|i: int| 0 <= i < kept.len() ==> is_one_piece(#[trigger] kept[i]) && kept[i].len() > 0,
    ensures
        forall|j: int|
            0 <= j < names(joined(kept)).len() ==> kept.contains(#[trigger] names(joined(kept))[j]),
        !has_root(joined(kept)),
        kept.len() > 0 ==> joined(kept).len() > 0 && joined(kept)[0] == kept[0][0],
    decreases kept.len(),
{
    if kept.len() == 1 {
        let only = kept[0];
        if is_skipped(only) {
            lemma_last_piece_start_is(only, 0);
            assert(last_piece(only) =~= only);
            assert(names(before_last_piece(only)) =~= Seq::<Seq<char>>::empty());
        } else {
            lemma_names_of_name(only);
            assert(kept[0] == names(joined(kept))[0]);
        }
        assert(only[0] != SEPARATOR);
    } else if kept.len() > 1 {
        let init = kept.drop_last();
        let last = kept.last();
        assert forall|i: int| 0 <= i < init.len() implies is_one_piece(#[trigger] init[i])
            && init[i].len() > 0 by {
            assert(init[i] == kept[i]);
        }
        lemma_names_of_joined(init);
        lemma_names_concat(joined(init), last);
        if is_skipped(last) {
            lemma_last_piece_start_is(last, 0);
            assert(last_piece(last) =~= last);
            assert(names(before_last_piece(last)) =~= Seq::<Seq<char>>::empty());
            assert(names(last) =~= Seq::<Seq<char>>::empty());
        } else {
            lemma_names_of_name(last);
        }
        let all = names(joined(kept));
        assert forall|j: int| 0 <= j < all.len() implies kept.contains(#[trigger] all[j]) by {
            if j < names(joined(init)).len() {
                let found = names(joined(init))[j];
                assert(init.contains(found));
                let k = choose|k: int| 0 <= k < init.len() && init[k] == found;
                assert(kept[k] == found);
            } else {
                assert(kept[kept.len() - 1] == all[j]);
            }
        }
        assert(init[0] == kept[0]);
        assert(joined(kept)[0] == joined(init)[0]);
    }
}

/// The parts of a path put under a directory: the parts of the directory,
/// then the names of the path; the parts of the path alone where the
/// directory is given as nothing.
pub proof fn lemma_parts_of_join(base: Seq<char>, path: Seq<char>)
    requires
        !has_root(path),
    ensures
        parts(join_of(base, path)) == if base.len() == 0 {
            parts(path)
        } else {
            parts(base) + names(path)
        },
{
    let whole = join_of(base, path);
    if base.len() == 0 {
        assert(whole =~= path);
    } else if base.last() == SEPARATOR {
        let front = base.drop_last();
        assert(whole =~= front + seq![SEPARATOR] + path);
        assert(base =~= front + seq![SEPARATOR] + Seq::<char>::empty());
        lemma_names_concat(front, path);
        lemma_names_concat(front, Seq::empty());
        assert(names(front) + names(Seq::<char>::empty()) =~= names(front));
        assert(whole[0] == base[0]);
        if base.len() > 1 {
            assert(whole[1] == base[1]);
        }
        assert(lead(whole) == lead(base));
        assert(parts(whole) =~= parts(base) + names(path));
    } else {
        lemma_names_concat(base, path);
        assert(whole[0] == base[0]);
        if base.len() > 1 {
            assert(whole[1] == base[1]);
        } else {
            assert(whole[1] == SEPARATOR);
        }
        assert(lead(whole) == lead(base));
        assert(parts(whole) =~= parts(base) + names(path));
    }
}

/// Whether `kept` can be the parts of a path that does not start at the
/// root: each is a name, but that the first may be the current directory.
pub open spec fn are_relative_parts(kept: Seq<Seq<char>>) -> bool {
    &&& forall|i: int| 0 < i < kept.len() ==> is_name(#[trigger] kept[i])
    &&& kept.len() > 0 ==> is_name(kept[0]) || kept[0] == crate::path::current_dir()
}

/// Parts that can be those of a path without root, put together with
/// separators between them, give a path with just those parts.
pub proof fn lemma_parts_of_joined(kept: Seq<Seq<char>>)
    requires
        are_relative_parts(kept),
    ensures
        parts(joined(kept)) == kept,
        !has_root(joined(kept)),
    decreases kept.len(),
{
    let whole = joined(kept);
    assert forall|i: int| 0 <= i < kept.len() implies is_one_piece(#[trigger] kept[i])
        && kept[i].len() > 0 by {
        if i > 0 {
            assert(is_name(kept[i]));
        }
    }
    lemma_names_of_joined(kept);
    if kept.len() == 0 {
        assert(parts(whole) =~= kept);
    } else if kept.len() == 1 {
        let only = kept[0];
        if is_name(only) {
            lemma_names_of_name(only);
            if only.len() == 1 {
                assert(only =~= seq![only[0]]);
            }
            assert(lead(only) =~= Seq::<Seq<char>>::empty());
            assert(parts(whole) =~= kept);
        } else {
            lemma_last_piece_start_is(only, 0);
            assert(last_piece(only) =~= only);
            assert(names(before_last_piece(only)) =~= Seq::<Seq<char>>::empty());
            assert(names(only) =~= Seq::<Seq<char>>::empty());
            assert(parts(whole) =~= kept);
        }
    } else {
        let init = kept.drop_last();
        let last = kept.last();
        assert forall|i: int| 0 < i < init.len() implies is_name(#[trigger] init[i]) by {
            assert(init[i] == kept[i]);
        }
        assert(init[0] == kept[0]);
        lemma_parts_of_joined(init);
        assert forall|i: int| 0 <= i < init.len() implies is_one_piece(#[trigger] init[i])
            && init[i].len() > 0 by {
            assert(init[i] == kept[i]);
        }
        lemma_names_of_joined(init);
        let front = joined(init);
        lemma_names_concat(front, last);
        lemma_names_of_name(last);
        assert(whole[0] == front[0]);
        if front.len() > 1 {
            assert(whole[1] == front[1]);
        } else {
            assert(whole[1] == SEPARATOR);
        }
        assert(lead(whole) == lead(front));
        assert(parts(whole) =~= parts(front).push(last));
        assert(init.push(last) =~= kept);
    }
}

/// Whether `s` holds no dot.
pub open spec fn is_dotless(s: Seq<char>) -> bool {
    forall|i: int| 0 <= i < s.len() ==> s[i] != '.'
}

/// The last dot of a text, a dot and a text without dots is the dot between
/// them.
pub proof fn lemma_last_dot_before(front: Seq<char>, ext: Seq<char>)
    requires
        is_dotless(ext),
    ensures
        last_dot(front + seq!['.'] + ext) == front.len(),
    decreases ext.len(),
{
    let whole = front + seq!['.'] + ext;
    if ext.len() == 0 {
        assert(whole.last() == '.');
    } else {
        let shorter = ext.drop_last();
        assert(whole.last() == ext.last());
        assert(whole.drop_last() =~= front + seq!['.'] + shorter);
        assert forall|i: int| 0 <= i < shorter.len() implies shorter[i] != '.' by {
            assert(shorter[i] == ext[i]);
        }
        lemma_last_dot_before(front, shorter);
    }
}

/// A name with its extension set to `ext`, which holds neither separator nor
/// dot and is not empty, is a name again: the stem of the old one, a dot, and
/// `ext`, which is its extension.
pub proof fn lemma_with_extension_of_name(name: Seq<char>, ext: Seq<char>)
    requires
        is_name(name),
        name != parent_dir(),
        is_one_piece(ext),
        is_dotless(ext),
        ext.len() > 0,
    ensures
        with_extension_of(name, ext) == stem_of_name(name) + dotted(ext),
        is_name(with_extension_of(name, ext)),
        file_name_of(with_extension_of(name, ext)) == Some(with_extension_of(name, ext)),
        crate::path::extension_of(with_extension_of(name, ext)) == Some(ext),
{
    let stem = stem_of_name(name);
    let changed = with_extension_of(name, ext);
    lemma_names_of_name(name);
    lemma_stem(name);
    lemma_with_extension_names(name, ext);
    assert(names(name).last() == name);
    assert(changed =~= stem + dotted(ext));
    assert(names(name).drop_last() =~= Seq::<Seq<char>>::empty());
    assert(names(changed) =~= seq![changed]);
    lemma_names_are_names(changed, 0);
    lemma_last_dot_before(stem, ext);
    assert(changed =~= stem + seq!['.'] + ext);
    assert(changed.skip(stem.len() as int + 1) =~= ext);
}

} // verus!
