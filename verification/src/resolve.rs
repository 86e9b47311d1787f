//! The list of source files: each path once, in the order of their parts.
//!
//! Two paths are the same where they have the same parts, however they are
//! written. Paths are ordered part by part: the root comes before the current
//! directory, that before a step up, that before any name, and names are
//! ordered character by character.

use crate::order::is_total_order;
use crate::order::lemma_lexical_chain;
use crate::order::lemma_lexical_flip;
use crate::order::lemma_lexical_same;
use crate::order::lexical;
use crate::order::Sign;
use crate::path::components;
use crate::path::current_dir;
use crate::path::parent_dir;
use crate::path::parts;
use crate::path::root_dir;
use crate::text::chars_of;
use crate::text::same_text;
use vstd::prelude::*;

verus! {

/// How one character stands to another: by its number.
pub open spec fn char_sign() -> spec_fn(char, char) -> Sign {
    |a: char, b: char|
        if (a as u32) < (b as u32) {
            Sign::Before
        } else if a == b {
            Sign::Same
        } else {
            Sign::After
        }
}

/// The rank of a part: the root, the current directory, a step up, a name.
pub open spec fn part_rank(part: Seq<char>) -> int {
    if part == root_dir() {
        0
    } else if part == current_dir() {
        1
    } else if part == parent_dir() {
        2
    } else {
        3
    }
}

/// How one part stands to another: by rank, and among names character by
/// character.
pub open spec fn part_sign() -> spec_fn(Seq<char>, Seq<char>) -> Sign {
    |a: Seq<char>, b: Seq<char>|
        if part_rank(a) < part_rank(b) {
            Sign::Before
        } else if part_rank(a) > part_rank(b) {
            Sign::After
        } else if part_rank(a) == 3 {
            lexical(a, b, char_sign())
        } else {
            Sign::Same
        }
}

/// How the path `a` stands to the path `b`: part by part.
#[verifier::opaque]
pub open spec fn path_sign(a: Seq<char>, b: Seq<char>) -> Sign {
    lexical(parts(a), parts(b), part_sign())
}

/// Whether `a` and `b` are the same path: they have the same parts.
pub open spec fn same_path(a: Seq<char>, b: Seq<char>) -> bool {
    parts(a) == parts(b)
}

/// `sorted` with `path` put in its place from the back: behind the last
/// path that comes before it, and not at all where it is there already.
pub open spec fn placed(sorted: Seq<Seq<char>>, path: Seq<char>) -> Seq<Seq<char>>
    decreases sorted.len(),
{
    if sorted.len() == 0 {
        seq![path]
    } else {
        match path_sign(sorted.last(), path) {
            Sign::Before => sorted.push(path),
            Sign::Same => sorted,
            Sign::After => placed(sorted.drop_last(), path).push(sorted.last()),
        }
    }
}

/// The paths of `paths`, each once and in order: every path is put in its
/// place among those that came before it.
pub open spec fn resolved(paths: Seq<Seq<char>>) -> Seq<Seq<char>>
    decreases paths.len(),
{
    if paths.len() == 0 {
        Seq::empty()
    } else {
        placed(resolved(paths.drop_last()), paths.last())
    }
}

/// Whether each path of `paths` comes before all that follow it.
pub open spec fn is_ascending(paths: Seq<Seq<char>>) -> bool {
    forall|i: int, j: int| 0 <= i < j < paths.len() ==> path_sign(paths[i], paths[j]) is Before
}

/// The characters of each of `paths`.
pub open spec fn texts(paths: Seq<String>) -> Seq<Seq<char>> {
    paths.map_values(|path: String| path@)
}

/// The paths of `paths` whose place in `found` holds `wanted`, in order.
pub open spec fn picked(paths: Seq<String>, found: Seq<bool>, wanted: bool) -> Seq<String>
    decreases paths.len(),
{
    if paths.len() == 0 || found.len() != paths.len() {
        Seq::empty()
    } else if found.last() == wanted {
        picked(paths.drop_last(), found.drop_last(), wanted).push(paths.last())
    } else {
        picked(paths.drop_last(), found.drop_last(), wanted)
    }
}

/// Whether each path of `paths` comes before the next.
spec fn is_stepwise_ascending(paths: Seq<Seq<char>>) -> bool {
    forall|i: int, j: int|
        0 <= i && j == i + 1 && j < paths.len() ==> (#[trigger] path_sign(paths[i], paths[j]))
            is Before
}

/// Whether `paths` holds a way to write the path `path`.
pub open spec fn holds_path(paths: Seq<Seq<char>>, path: Seq<char>) -> bool {
    exists|i: int| 0 <= i < paths.len() && same_path(#[trigger] paths[i], path)
}

/// Characters are ordered by their numbers.
pub proof fn lemma_char_order()
    ensures
        is_total_order(char_sign()),
{
    let sign = char_sign();
    assert forall|x: char, y: char| #[trigger] sign(x, y) is Same <==> x == y by {
        lemma_char_sign(x, y, x);
    }
    assert forall|x: char, y: char| #[trigger] sign(y, x) == sign(x, y).flipped() by {
        lemma_char_sign(x, y, x);
    }
    assert forall|x: char, y: char, z: char|
        (#[trigger] sign(x, y)) is Before && (#[trigger] sign(y, z)) is Before implies sign(x, z)
        is Before by {
        lemma_char_sign(x, y, z);
    }
}

proof fn lemma_char_sign(x: char, y: char, z: char)
    ensures
        char_sign()(x, y) is Same <==> x == y,
        char_sign()(y, x) == char_sign()(x, y).flipped(),
        char_sign()(x, y) is Before && char_sign()(y, z) is Before ==> char_sign()(x, z) is Before,
{
    if x != y {
        assert(x as u32 != y as u32);
    }
}

/// Parts are ordered by rank and, among names, character by character.
pub proof fn lemma_part_order()
    ensures
        is_total_order(part_sign()),
{
    lemma_char_order();
    let sign = part_sign();
    assert forall|x: Seq<char>, y: Seq<char>| #[trigger] sign(x, y) is Same <==> x == y by {
        lemma_lexical_same(x, y, char_sign());
    }
    assert forall|x: Seq<char>, y: Seq<char>| #[trigger] sign(y, x) == sign(x, y).flipped() by {
        lemma_lexical_flip(x, y, char_sign());
    }
    assert forall|x: Seq<char>, y: Seq<char>, z: Seq<char>|
        (#[trigger] sign(x, y)) is Before && (#[trigger] sign(y, z)) is Before implies sign(x, z)
        is Before by {
        if part_rank(x) == 3 && part_rank(y) == 3 && part_rank(z) == 3 {
            lemma_lexical_chain(x, y, z, char_sign());
        }
    }
}

/// Two paths stand the same to each other only where they are the same path.
pub proof fn lemma_path_sign_same(a: Seq<char>, b: Seq<char>)
    ensures
        path_sign(a, b) is Same <==> same_path(a, b),
{
    reveal(path_sign);
    lemma_part_order();
    lemma_lexical_same(parts(a), parts(b), part_sign());
}

/// The two directions agree.
pub proof fn lemma_path_sign_flip(a: Seq<char>, b: Seq<char>)
    ensures
        path_sign(b, a) == path_sign(a, b).flipped(),
{
    reveal(path_sign);
    lemma_part_order();
    lemma_lexical_flip(parts(a), parts(b), part_sign());
}

/// A path that comes before another comes before all that follow that one.
pub proof fn lemma_path_sign_chain(a: Seq<char>, b: Seq<char>, c: Seq<char>)
    requires
        path_sign(a, b) is Before,
        path_sign(b, c) is Before,
    ensures
        path_sign(a, c) is Before,
{
    reveal(path_sign);
    lemma_part_order();
    lemma_lexical_chain(parts(a), parts(b), parts(c), part_sign());
}

/// Where `path` comes before all of `sorted` from `at` on, and not before
/// what stands in front of `at`, it is put at `at`, or left out where what
/// stands in front of `at` is the same path.
pub proof fn lemma_placed_at(sorted: Seq<Seq<char>>, path: Seq<char>, at: int)
    requires
        0 <= at <= sorted.len(),
        forall|j: int| at <= j < sorted.len() ==> path_sign(sorted[j], path) is After,
        at > 0 ==> !(path_sign(sorted[at - 1], path) is After),
    ensures
        placed(sorted, path) == if at > 0 && path_sign(sorted[at - 1], path) is Same {
            sorted
        } else {
            sorted.insert(at, path)
        },
    decreases sorted.len() - at,
{
    if sorted.len() == 0 {
        assert(sorted.insert(0, path) =~= seq![path]);
    } else if at == sorted.len() {
        if path_sign(sorted.last(), path) is Before {
            assert(sorted.insert(at, path) =~= sorted.push(path));
        }
    } else {
        let init = sorted.drop_last();
        assert forall|j: int| at <= j < init.len() implies path_sign(init[j], path) is After by {
            assert(init[j] == sorted[j]);
        }
        if at > 0 {
            assert(init[at - 1] == sorted[at - 1]);
        }
        lemma_placed_at(init, path, at);
        if at > 0 && path_sign(sorted[at - 1], path) is Same {
            assert(init.push(sorted.last()) =~= sorted);
        } else {
            assert(init.insert(at, path).push(sorted.last()) =~= sorted.insert(at, path));
        }
    }
}

/// The last of the paths with `path` put in its place is `path` or the last
/// of what was there.
proof fn lemma_placed_last(sorted: Seq<Seq<char>>, path: Seq<char>)
    ensures
        placed(sorted, path).len() > 0,
        placed(sorted, path).last() == path || (sorted.len() > 0 && placed(sorted, path).last()
            == sorted.last()),
    decreases sorted.len(),
{
    if sorted.len() > 0 && path_sign(sorted.last(), path) is After {
        lemma_placed_last(sorted.drop_last(), path);
    }
}

/// Paths of which each comes before the next are in order.
proof fn lemma_stepwise_is_ascending(paths: Seq<Seq<char>>)
    requires
        is_stepwise_ascending(paths),
    ensures
        is_ascending(paths),
    decreases paths.len(),
{
    if paths.len() > 1 {
        let init = paths.drop_last();
        assert forall|i: int, j: int| 0 <= i && j == i + 1 && j < init.len() implies (
        #[trigger] path_sign(init[i], init[j])) is Before by {
            assert(path_sign(paths[i], paths[j]) is Before);
        }
        lemma_stepwise_is_ascending(init);
        let last = paths.len() - 1;
        assert forall|i: int, j: int| 0 <= i < j < paths.len() implies path_sign(
            paths[i],
            paths[j],
        ) is Before by {
            if j < last {
                assert(path_sign(init[i], init[j]) is Before);
            } else if i == last - 1 {
                assert(path_sign(paths[last - 1], paths[last]) is Before);
            } else {
                assert(path_sign(init[i], init[last - 1]) is Before);
                assert(path_sign(paths[last - 1], paths[last]) is Before);
                lemma_path_sign_chain(paths[i], paths[last - 1], paths[last]);
            }
        }
    }
}

/// Putting a path in its place keeps each path before the next.
proof fn lemma_placed_stepwise(sorted: Seq<Seq<char>>, path: Seq<char>)
    requires
        is_stepwise_ascending(sorted),
    ensures
        is_stepwise_ascending(placed(sorted, path)),
    decreases sorted.len(),
{
    if sorted.len() > 0 {
        let init = sorted.drop_last();
        let last = sorted.last();
        match path_sign(last, path) {
            Sign::Before => {
                let grown = sorted.push(path);
                assert forall|i: int, j: int| 0 <= i && j == i + 1 && j < grown.len() implies (
                #[trigger] path_sign(grown[i], grown[j])) is Before by {
                    if j < sorted.len() {
                        assert(path_sign(sorted[i], sorted[j]) is Before);
                    }
                }
            },
            Sign::Same => {},
            Sign::After => {
                assert forall|i: int, j: int| 0 <= i && j == i + 1 && j < init.len() implies (
                #[trigger] path_sign(init[i], init[j])) is Before by {
                    assert(path_sign(sorted[i], sorted[j]) is Before);
                }
                lemma_placed_stepwise(init, path);
                lemma_placed_last(init, path);
                lemma_path_sign_flip(last, path);
                let inner = placed(init, path);
                let grown = inner.push(last);
                assert forall|i: int, j: int| 0 <= i && j == i + 1 && j < grown.len() implies (
                #[trigger] path_sign(grown[i], grown[j])) is Before by {
                    if j < inner.len() {
                        assert(path_sign(inner[i], inner[j]) is Before);
                    } else if inner.last() != path {
                        assert(path_sign(sorted[sorted.len() - 2], sorted[sorted.len() - 1])
                            is Before);
                    }
                }
            },
        }
    }
}

/// Resolved paths are in order: each comes before all that follow it.
pub proof fn lemma_resolved_ascending(paths: Seq<Seq<char>>)
    ensures
        is_ascending(resolved(paths)),
{
    lemma_resolved_stepwise(paths);
    lemma_stepwise_is_ascending(resolved(paths));
}

proof fn lemma_resolved_stepwise(paths: Seq<Seq<char>>)
    ensures
        is_stepwise_ascending(resolved(paths)),
    decreases paths.len(),
{
    if paths.len() > 0 {
        lemma_resolved_stepwise(paths.drop_last());
        lemma_placed_stepwise(resolved(paths.drop_last()), paths.last());
    }
}

/// No path comes twice among resolved paths, however it is written.
pub proof fn lemma_resolved_once(paths: Seq<Seq<char>>, i: int, j: int)
    requires
        0 <= i < j < resolved(paths).len(),
    ensures
        !same_path(resolved(paths)[i], resolved(paths)[j]),
{
    lemma_resolved_ascending(paths);
    lemma_path_sign_same(resolved(paths)[i], resolved(paths)[j]);
}

/// Putting `path` in its place keeps what was there.
proof fn lemma_placed_keeps(sorted: Seq<Seq<char>>, path: Seq<char>, at: int)
    requires
        0 <= at < sorted.len(),
    ensures
        placed(sorted, path).contains(sorted[at]),
    decreases sorted.len(),
{
    let after = placed(sorted, path);
    let init = sorted.drop_last();
    match path_sign(sorted.last(), path) {
        Sign::Before => {
            assert(after[at] == sorted[at]);
        },
        Sign::Same => {},
        Sign::After => {
            if at < init.len() {
                lemma_placed_keeps(init, path, at);
                let inner = placed(init, path);
                let k = choose|k: int| 0 <= k < inner.len() && inner[k] == init[at];
                assert(after[k] == sorted[at]);
            } else {
                assert(after[after.len() - 1] == sorted[at]);
            }
        },
    }
}

/// Putting `path` in its place adds nothing but `path`.
proof fn lemma_placed_adds(sorted: Seq<Seq<char>>, path: Seq<char>, at: int)
    requires
        0 <= at < placed(sorted, path).len(),
    ensures
        sorted.contains(placed(sorted, path)[at]) || placed(sorted, path)[at] == path,
    decreases sorted.len(),
{
    let after = placed(sorted, path);
    if sorted.len() > 0 {
        let init = sorted.drop_last();
        match path_sign(sorted.last(), path) {
            Sign::Before => {
                if at < sorted.len() {
                    assert(sorted[at] == after[at]);
                }
            },
            Sign::Same => {},
            Sign::After => {
                let inner = placed(init, path);
                if at < inner.len() {
                    lemma_placed_adds(init, path, at);
                    if inner[at] != path {
                        let k = choose|k: int| 0 <= k < init.len() && init[k] == inner[at];
                        assert(sorted[k] == after[at]);
                    }
                } else {
                    assert(sorted[sorted.len() - 1] == after[at]);
                }
            },
        }
    }
}

/// With `path` put in its place there is a way to write it among the paths.
proof fn lemma_placed_holds(sorted: Seq<Seq<char>>, path: Seq<char>)
    ensures
        holds_path(placed(sorted, path), path),
    decreases sorted.len(),
{
    let after = placed(sorted, path);
    if sorted.len() == 0 {
        assert(same_path(after[0], path));
    } else {
        let init = sorted.drop_last();
        match path_sign(sorted.last(), path) {
            Sign::Before => {
                assert(same_path(after[after.len() - 1], path));
            },
            Sign::Same => {
                lemma_path_sign_same(sorted.last(), path);
                assert(same_path(after[after.len() - 1], path));
            },
            Sign::After => {
                lemma_placed_holds(init, path);
                let inner = placed(init, path);
                let k = choose|k: int| 0 <= k < inner.len() && same_path(#[trigger] inner[k], path);
                assert(same_path(after[k], path));
            },
        }
    }
}

/// Every path that was given is among the resolved ones, in one of the ways
/// to write it.
pub proof fn lemma_resolved_holds(paths: Seq<Seq<char>>, at: int)
    requires
        0 <= at < paths.len(),
    ensures
        holds_path(resolved(paths), paths[at]),
    decreases paths.len(),
{
    let init = paths.drop_last();
    let before = resolved(init);
    let after = resolved(paths);
    if at == paths.len() - 1 {
        lemma_placed_holds(before, paths.last());
    } else {
        lemma_resolved_holds(init, at);
        let k = choose|k: int| 0 <= k < before.len() && same_path(#[trigger] before[k], init[at]);
        lemma_placed_keeps(before, paths.last(), k);
        let m = choose|m: int| 0 <= m < after.len() && after[m] == before[k];
        assert(same_path(after[m], paths[at]));
    }
}

/// Every resolved path is one that was given, as it was written.
pub proof fn lemma_resolved_drawn(paths: Seq<Seq<char>>, at: int)
    requires
        0 <= at < resolved(paths).len(),
    ensures
        paths.contains(resolved(paths)[at]),
    decreases paths.len(),
{
    if paths.len() > 0 {
        let init = paths.drop_last();
        let before = resolved(init);
        let after = resolved(paths);
        lemma_placed_adds(before, paths.last(), at);
        if after[at] == paths.last() {
            assert(paths[paths.len() - 1] == after[at]);
        } else {
            let k = choose|k: int| 0 <= k < before.len() && before[k] == after[at];
            lemma_resolved_drawn(init, k);
            let m = choose|m: int| 0 <= m < init.len() && init[m] == before[k];
            assert(paths[m] == after[at]);
        }
    }
}

/// Paths that are in order resolve to themselves.
pub proof fn lemma_ascending_is_resolved(paths: Seq<Seq<char>>)
    requires
        is_ascending(paths),
    ensures
        resolved(paths) == paths,
    decreases paths.len(),
{
    if paths.len() > 0 {
        let init = paths.drop_last();
        assert forall|i: int, j: int| 0 <= i < j < init.len() implies path_sign(init[i], init[j])
            is Before by {
            assert(init[i] == paths[i] && init[j] == paths[j]);
        }
        lemma_ascending_is_resolved(init);
        if init.len() > 0 {
            assert(init.last() == paths[paths.len() - 2]);
        }
        assert(init.push(paths.last()) =~= paths);
    }
}

/// Resolving once more changes nothing.
pub proof fn lemma_resolved_twice(paths: Seq<Seq<char>>)
    ensures
        resolved(resolved(paths)) == resolved(paths),
{
    lemma_resolved_ascending(paths);
    lemma_ascending_is_resolved(resolved(paths));
}

/// How the characters of `a` stand to those of `b`.
fn chars_sign(a: &Vec<char>, b: &Vec<char>) -> (sign: Sign)
    ensures
        sign == lexical(a@, b@, char_sign()),
{
    let mut i: usize = 0;
    assert(a@.skip(0) =~= a@ && b@.skip(0) =~= b@);
    loop
        invariant
            0 <= i <= a@.len(),
            i <= b@.len(),
            lexical(a@, b@, char_sign()) == lexical(a@.skip(i as int), b@.skip(i as int), char_sign()),
        decreases a@.len() - i,
    {
        if i == a.len() {
            return if i == b.len() {
                Sign::Same
            } else {
                Sign::Before
            };
        }
        if i == b.len() {
            return Sign::After;
        }
        proof {
            assert(a@.skip(i as int)[0] == a@[i as int]);
            assert(b@.skip(i as int)[0] == b@[i as int]);
            assert(a@.skip(i as int).drop_first() =~= a@.skip(i + 1));
            assert(b@.skip(i as int).drop_first() =~= b@.skip(i + 1));
        }
        let x = a[i];
        let y = b[i];
        if (x as u32) < (y as u32) {
            return Sign::Before;
        }
        if x != y {
            return Sign::After;
        }
        i += 1;
    }
}

/// The rank of `part`.
fn rank_of(part: &str) -> (rank: u8)
    ensures
        rank == part_rank(part@),
{
    proof {
        reveal_strlit("/");
        reveal_strlit(".");
        reveal_strlit("..");
        assert("/"@ =~= root_dir());
        assert("."@ =~= current_dir());
        assert(".."@ =~= parent_dir());
    }
    if same_text(part, "/") {
        0
    } else if same_text(part, ".") {
        1
    } else if same_text(part, "..") {
        2
    } else {
        3
    }
}

/// How the part `a` stands to the part `b`.
fn part_sign_of(a: &str, b: &str) -> (sign: Sign)
    ensures
        sign == part_sign()(a@, b@),
{
    let left = rank_of(a);
    let right = rank_of(b);
    if left < right {
        Sign::Before
    } else if left > right {
        Sign::After
    } else if left == 3 {
        chars_sign(&chars_of(a), &chars_of(b))
    } else {
        Sign::Same
    }
}

/// How the path `a` stands to the path `b`: which comes first when both are
/// read part by part.
pub fn path_order(a: &str, b: &str) -> (sign: Sign)
    ensures
        sign == path_sign(a@, b@),
{
    let left = components(a);
    let right = components(b);
    let ghost x = parts(a@);
    let ghost y = parts(b@);
    let mut i: usize = 0;
    assert(x.skip(0) =~= x && y.skip(0) =~= y);
    loop
        invariant
            x == parts(a@),
            y == parts(b@),
            left@.len() == x.len(),
            right@.len() == y.len(),
            forall|k: int| 0 <= k < left@.len() ==> (#[trigger] left@[k])@ == x[k],
            forall|k: int| 0 <= k < right@.len() ==> (#[trigger] right@[k])@ == y[k],
            0 <= i <= x.len(),
            i <= y.len(),
            lexical(x, y, part_sign()) == lexical(x.skip(i as int), y.skip(i as int), part_sign()),
        decreases x.len() - i,
    {
        proof {
            reveal(path_sign);
        }
        if i == left.len() {
            return if i == right.len() {
                Sign::Same
            } else {
                Sign::Before
            };
        }
        if i == right.len() {
            return Sign::After;
        }
        proof {
            assert(x.skip(i as int)[0] == x[i as int]);
            assert(y.skip(i as int)[0] == y[i as int]);
            assert(x.skip(i as int).drop_first() =~= x.skip(i + 1));
            assert(y.skip(i as int).drop_first() =~= y.skip(i + 1));
        }
        let sign = part_sign_of(left[i], right[i]);
        match sign {
            Sign::Same => {},
            _ => {
                return sign;
            },
        }
        i += 1;
    }
}

/// Parts what was named as a source in two: the paths that were found to
/// exist, and the others, which are taken as patterns. `found` says of each
/// path whether it exists.
pub fn split_sources(paths: &Vec<String>, found: &Vec<bool>) -> (split: (Vec<String>, Vec<String>))
    requires
        paths@.len() == found@.len(),
    ensures
        split.0@ == picked(paths@, found@, true),
        split.1@ == picked(paths@, found@, false),
{
    let mut existing: Vec<String> = Vec::new();
    let mut patterns: Vec<String> = Vec::new();
    let mut k: usize = 0;
    assert(paths@.take(0) =~= Seq::<String>::empty());
    while k < paths.len()
        invariant
            paths@.len() == found@.len(),
            0 <= k <= paths@.len(),
            existing@ == picked(paths@.take(k as int), found@.take(k as int), true),
            patterns@ == picked(paths@.take(k as int), found@.take(k as int), false),
        decreases paths.len() - k,
    {
        proof {
            assert(paths@.take(k + 1).drop_last() =~= paths@.take(k as int));
            assert(found@.take(k + 1).drop_last() =~= found@.take(k as int));
            assert(paths@.take(k + 1).last() == paths@[k as int]);
            assert(found@.take(k + 1).last() == found@[k as int]);
        }
        if found[k] {
            existing.push(paths[k].clone());
        } else {
            patterns.push(paths[k].clone());
        }
        k += 1;
    }
    proof {
        assert(paths@.take(paths@.len() as int) =~= paths@);
        assert(found@.take(found@.len() as int) =~= found@);
    }
    (existing, patterns)
}

/// The source files to convert: the paths of `existing` and of `expanded`,
/// each path once, in order. Of several ways to write the same path the one
/// that comes first in the two lists is kept.
pub fn resolve(existing: &Vec<String>, expanded: &Vec<String>) -> (sorted: Vec<String>)
    ensures
        texts(sorted@) == resolved(texts(existing@ + expanded@)),
        is_ascending(texts(sorted@)),
{
    let mut sorted: Vec<String> = Vec::new();
    let ghost all = texts(existing@ + expanded@);
    assert(texts(sorted@) =~= Seq::<Seq<char>>::empty());
    assert(all.take(0) =~= Seq::<Seq<char>>::empty());
    let mut k: usize = 0;
    while k < existing.len()
        invariant
            all == texts(existing@ + expanded@),
            0 <= k <= existing@.len(),
            texts(sorted@) == resolved(all.take(k as int)),
        decreases existing.len() - k,
    {
        proof {
            assert(all.take(k + 1).drop_last() =~= all.take(k as int));
            assert(all.take(k + 1).last() == existing@[k as int]@);
        }
        place(&mut sorted, &existing[k]);
        k += 1;
    }
    let mut m: usize = 0;
    while m < expanded.len()
        invariant
            all == texts(existing@ + expanded@),
            0 <= m <= expanded@.len(),
            texts(sorted@) == resolved(all.take(existing@.len() + m)),
        decreases expanded.len() - m,
    {
        proof {
            let upto = existing@.len() + m;
            assert(all.take(upto + 1).drop_last() =~= all.take(upto as int));
            assert(all.take(upto + 1).last() == expanded@[m as int]@);
        }
        place(&mut sorted, &expanded[m]);
        m += 1;
    }
    proof {
        assert(all.take(all.len() as int) =~= all);
        lemma_resolved_ascending(all);
    }
    sorted
}

/// Puts `path` in its place in `sorted`, unless the same path is there.
fn place(sorted: &mut Vec<String>, path: &String)
    ensures
        texts(final(sorted)@) == placed(texts(old(sorted)@), path@),
{
    let ghost before = texts(sorted@);
    let mut at: usize = sorted.len();
    let mut same = false;
    let mut settled = false;
    while at > 0 && !settled
        invariant
            0 <= at <= sorted@.len(),
            before == texts(sorted@),
            sorted@ == old(sorted)@,
            forall|j: int| at <= j < before.len() ==> path_sign(before[j], path@) is After,
            settled ==> at > 0 && !(path_sign(before[at - 1], path@) is After),
            same <==> settled && path_sign(before[at - 1], path@) is Same,
        decreases at + if settled { 0int } else { 1int },
    {
        match path_order(sorted[at - 1].as_str(), path.as_str()) {
            Sign::After => {
                at -= 1;
            },
            Sign::Same => {
                same = true;
                settled = true;
            },
            Sign::Before => {
                settled = true;
            },
        }
    }
    proof {
        lemma_placed_at(before, path@, at as int);
    }
    if !same {
        sorted.insert(at, path.clone());
        assert(texts(sorted@) =~= before.insert(at as int, path@));
    }
}

} // verus!
