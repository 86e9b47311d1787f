//! A lexical model of slash-separated paths.
//!
//! A path is a sequence of characters. Its *pieces* are what stands between
//! separators; its *names* are the pieces that are neither empty nor a single
//! dot; its *parts* are the names, preceded by a marker when the path starts at
//! the root or with a single dot. Nothing here touches a file system.

use crate::text::chars_of;
use vstd::prelude::*;

pub mod laws;
use vstd::string::StrSliceExecFns;
use vstd::string::StringExecFns;

verus! {

/// The separator between the pieces of a path.
pub const SEPARATOR: char = '/';

/// The stretch of a path that one of its names occupies.
#[derive(Clone, Copy, Debug)]
pub struct Span {
    pub start: usize,
    pub end: usize,
}

/// The part that stands for the root directory.
pub open spec fn root_dir() -> Seq<char> {
    seq!['/']
}

/// The part that stands for the current directory.
pub open spec fn current_dir() -> Seq<char> {
    seq!['.']
}

/// The part that steps up to the parent directory.
pub open spec fn parent_dir() -> Seq<char> {
    seq!['.', '.']
}

/// The index at which the last piece of `s` starts: just behind the last
/// separator, or 0 where `s` holds none.
pub open spec fn last_piece_start(s: Seq<char>) -> int
    decreases s.len(),
{
    if s.len() == 0 {
        0
    } else if s.last() == SEPARATOR {
        s.len() as int
    } else {
        last_piece_start(s.drop_last())
    }
}

/// The piece behind the last separator of `s`.
pub open spec fn last_piece(s: Seq<char>) -> Seq<char> {
    s.skip(last_piece_start(s))
}

/// What stands before the last piece of `s` and the separator in front of it.
pub open spec fn before_last_piece(s: Seq<char>) -> Seq<char> {
    if last_piece_start(s) == 0 {
        Seq::empty()
    } else {
        s.take(last_piece_start(s) - 1)
    }
}

/// A piece that names nothing: an empty one, or a single dot.
pub open spec fn is_skipped(piece: Seq<char>) -> bool {
    piece.len() == 0 || piece == current_dir()
}

/// The names of `s`: its pieces in order, without the skipped ones.
pub open spec fn names(s: Seq<char>) -> Seq<Seq<char>>
    decreases s.len(),
{
    if s.len() == 0 {
        Seq::empty()
    } else {
        proof {
            lemma_last_piece_start(s);
        }
        if is_skipped(last_piece(s)) {
            names(before_last_piece(s))
        } else {
            names(before_last_piece(s)).push(last_piece(s))
        }
    }
}

/// The index behind the last name of `s`, or 0 where `s` has no name.
pub open spec fn names_end(s: Seq<char>) -> int
    decreases s.len(),
{
    if s.len() == 0 {
        0
    } else {
        proof {
            lemma_last_piece_start(s);
        }
        if is_skipped(last_piece(s)) {
            names_end(before_last_piece(s))
        } else {
            s.len() as int
        }
    }
}

/// Whether `s` starts at the root.
pub open spec fn has_root(s: Seq<char>) -> bool {
    s.len() > 0 && s[0] == SEPARATOR
}

/// Whether `s` starts with a single dot that is a piece of its own.
pub open spec fn starts_with_current_dir(s: Seq<char>) -> bool {
    s.len() > 0 && s[0] == '.' && (s.len() == 1 || s[1] == SEPARATOR)
}

/// The marker in front of the names of `s`, if there is one.
pub open spec fn lead(s: Seq<char>) -> Seq<Seq<char>> {
    if has_root(s) {
        seq![root_dir()]
    } else if starts_with_current_dir(s) {
        seq![current_dir()]
    } else {
        Seq::empty()
    }
}

/// The parts of `s`: the marker of its start, then its names.
pub open spec fn parts(s: Seq<char>) -> Seq<Seq<char>> {
    lead(s) + names(s)
}

/// The file name of `s`: its last name, unless that steps up to the parent.
pub open spec fn file_name_of(s: Seq<char>) -> Option<Seq<char>> {
    if names(s).len() > 0 && names(s).last() != parent_dir() {
        Some(names(s).last())
    } else {
        None
    }
}

/// The file name of what is left of `s` without its last part.
pub open spec fn parent_name_of(s: Seq<char>) -> Option<Seq<char>> {
    if names(s).len() >= 2 && names(s)[names(s).len() - 2] != parent_dir() {
        Some(names(s)[names(s).len() - 2])
    } else {
        None
    }
}

/// The index of the last dot of `name`, or -1 where it holds none.
pub open spec fn last_dot(name: Seq<char>) -> int
    decreases name.len(),
{
    if name.len() == 0 {
        -1
    } else if name.last() == '.' {
        name.len() - 1
    } else {
        last_dot(name.drop_last())
    }
}

/// What stands before the last dot of `name`; all of it where the only dot
/// is in front, or where there is none.
pub open spec fn stem_of_name(name: Seq<char>) -> Seq<char> {
    if last_dot(name) > 0 {
        name.take(last_dot(name))
    } else {
        name
    }
}

/// What stands behind the last dot of `name`, unless that dot is in front.
pub open spec fn extension_of_name(name: Seq<char>) -> Option<Seq<char>> {
    if last_dot(name) > 0 {
        Some(name.skip(last_dot(name) + 1))
    } else {
        None
    }
}

/// The extension of the file name of `s`.
pub open spec fn extension_of(s: Seq<char>) -> Option<Seq<char>> {
    match file_name_of(s) {
        Some(name) => extension_of_name(name),
        None => None,
    }
}

/// A dot and `ext`, or nothing where `ext` is empty.
pub open spec fn dotted(ext: Seq<char>) -> Seq<char> {
    if ext.len() == 0 {
        Seq::empty()
    } else {
        seq!['.'] + ext
    }
}

/// `s` cut off behind the stem of its file name, then a dot and `ext`. A path
/// without a file name stays as it is.
pub open spec fn with_extension_of(s: Seq<char>, ext: Seq<char>) -> Seq<char> {
    match file_name_of(s) {
        Some(name) => s.take(names_end(s) - name.len() + stem_of_name(name).len()) + dotted(ext),
        None => s,
    }
}

/// `path` under `base`: `path` alone where it starts at the root, else `base`,
/// a separator unless `base` is empty or ends in one, and `path`.
pub open spec fn join_of(base: Seq<char>, path: Seq<char>) -> Seq<char> {
    if has_root(path) {
        path
    } else if base.len() == 0 || base.last() == SEPARATOR {
        base + path
    } else {
        base + seq![SEPARATOR] + path
    }
}

/// The parts in `parts`, with a separator between each two.
pub open spec fn joined(parts: Seq<Seq<char>>) -> Seq<char>
    decreases parts.len(),
{
    if parts.len() == 0 {
        Seq::empty()
    } else if parts.len() == 1 {
        parts[0]
    } else {
        joined(parts.drop_last()) + seq![SEPARATOR] + parts.last()
    }
}

/// Holds of every part but the one that steps up to the parent.
pub open spec fn stays_below() -> spec_fn(Seq<char>) -> bool {
    |part: Seq<char>| part != parent_dir()
}

/// The first part of `s`: the marker of its start, or else its first name.
pub open spec fn first_part_of(s: Seq<char>) -> Option<Seq<char>> {
    if parts(s).len() > 0 {
        Some(parts(s).first())
    } else {
        None
    }
}

/// The last part of `s`: its last name, or else the marker of its start.
pub open spec fn last_part_of(s: Seq<char>) -> Option<Seq<char>> {
    if parts(s).len() > 0 {
        Some(parts(s).last())
    } else {
        None
    }
}

/// What stands before index `start`, without the separator in front of it.
pub open spec fn before(s: Seq<char>, start: int) -> Seq<char> {
    if start == 0 {
        Seq::empty()
    } else {
        s.take(start - 1)
    }
}

/// Whether `spans` marks, in order, the names of the first `upto` characters
/// of `s`.
pub open spec fn spans_mark(spans: Seq<Span>, s: Seq<char>, upto: int) -> bool {
    &&& 0 <= upto <= s.len()
    &&& spans.len() == names(s.take(upto)).len()
    &&& forall|i: int|
        0 <= i < spans.len() ==> 0 <= (#[trigger] spans[i]).start < spans[i].end <= upto
            && s.subrange(spans[i].start as int, spans[i].end as int) == names(s.take(upto))[i]
    &&& spans.len() > 0 ==> spans.last().end == names_end(s.take(upto))
}

/// The last piece starts within `s`, behind a separator or at the front, and
/// holds no separator.
pub proof fn lemma_last_piece_start(s: Seq<char>)
    ensures
        0 <= last_piece_start(s) <= s.len(),
        last_piece_start(s) > 0 ==> s[last_piece_start(s) - 1] == SEPARATOR,
        forall|j: int| last_piece_start(s) <= j < s.len() ==> s[j] != SEPARATOR,
    decreases s.len(),
{
    if s.len() > 0 && s.last() != SEPARATOR {
        let init = s.drop_last();
        lemma_last_piece_start(init);
        assert forall|j: int| last_piece_start(s) <= j < s.len() implies s[j] != SEPARATOR by {
            if j < init.len() {
                assert(init[j] == s[j]);
            }
        }
    }
}

/// An index that stands behind a separator or at the front, with no separator
/// after it, is where the last piece starts.
pub proof fn lemma_last_piece_start_is(s: Seq<char>, k: int)
    requires
        0 <= k <= s.len(),
        k > 0 ==> s[k - 1] == SEPARATOR,
        forall|j: int| k <= j < s.len() ==> s[j] != SEPARATOR,
    ensures
        last_piece_start(s) == k,
    decreases s.len(),
{
    if s.len() > 0 && s.last() != SEPARATOR {
        lemma_last_piece_start_is(s.drop_last(), k);
    }
}

/// The last dot of a name lies within it.
pub proof fn lemma_last_dot(name: Seq<char>)
    ensures
        -1 <= last_dot(name) < name.len(),
        last_dot(name) >= 0 ==> name[last_dot(name)] == '.',
        forall|j: int| last_dot(name) < j < name.len() ==> name[j] != '.',
    decreases name.len(),
{
    if name.len() > 0 && name.last() != '.' {
        let init = name.drop_last();
        lemma_last_dot(init);
        assert forall|j: int| last_dot(name) < j < name.len() implies name[j] != '.' by {
            if j < init.len() {
                assert(init[j] == name[j]);
            }
        }
    }
}

/// Where a piece runs from `start` up to `end`, the names of the first `end`
/// characters are those before the piece, and the piece unless it is skipped.
pub proof fn lemma_names_step(s: Seq<char>, start: int, end: int)
    requires
        0 <= start <= end <= s.len(),
        start > 0 ==> s[start - 1] == SEPARATOR,
        forall|j: int| start <= j < end ==> s[j] != SEPARATOR,
    ensures
        last_piece_start(s.take(end)) == start,
        last_piece(s.take(end)) == s.subrange(start, end),
        before_last_piece(s.take(end)) == before(s, start),
        names(s.take(end)) == if is_skipped(s.subrange(start, end)) {
            names(before(s, start))
        } else {
            names(before(s, start)).push(s.subrange(start, end))
        },
        names_end(s.take(end)) == if is_skipped(s.subrange(start, end)) {
            names_end(before(s, start))
        } else {
            end
        },
        is_skipped(s.subrange(start, end)) <==> end == start || (end == start + 1 && s[start]
            == '.'),
{
    let t = s.take(end);
    let piece = s.subrange(start, end);
    if end == start + 1 && s[start] == '.' {
        assert(piece =~= current_dir());
    }
    if piece == current_dir() {
        assert(piece.len() == 1 && piece[0] == '.');
    }
    lemma_last_piece_start_is(t, start);
    assert(t.skip(start) =~= s.subrange(start, end));
    if start > 0 {
        assert(t.take(start - 1) =~= s.take(start - 1));
    }
}

/// Marking one name more, where the names grow by the piece that it marks.
proof fn lemma_spans_extend(spans: Seq<Span>, s: Seq<char>, start: int, end: int)
    requires
        0 <= start < end <= s.len(),
        end <= usize::MAX,
        spans_mark(spans, s, if start == 0 { 0 } else { start - 1 }),
        names(s.take(end)) == names(before(s, start)).push(s.subrange(start, end)),
        names_end(s.take(end)) == end,
    ensures
        spans_mark(spans.push(Span { start: start as usize, end: end as usize }), s, end),
{
    let upto = if start == 0 { 0 } else { start - 1 };
    assert(s.take(upto) =~= before(s, start));
    let grown = spans.push(Span { start: start as usize, end: end as usize });
    assert forall|i: int| 0 <= i < grown.len() implies 0 <= (#[trigger] grown[i]).start
        < grown[i].end <= end && s.subrange(grown[i].start as int, grown[i].end as int) == names(
        s.take(end),
    )[i] by {
        if i < spans.len() {
            assert(grown[i] == spans[i]);
        }
    }
}

/// Marks the piece of `chars` that runs from `start` up to `end`, unless it
/// is skipped.
fn mark_piece(spans: &mut Vec<Span>, chars: &Vec<char>, start: usize, end: usize)
    requires
        start <= end <= chars@.len(),
        start > 0 ==> chars@[start - 1] == SEPARATOR,
        forall|j: int| start <= j < end ==> chars@[j] != SEPARATOR,
        spans_mark(old(spans)@, chars@, if start == 0 { 0 } else { start - 1 }),
    ensures
        spans_mark(final(spans)@, chars@, end as int),
{
    let ghost s = chars@;
    proof {
        lemma_names_step(s, start as int, end as int);
        assert(s.take(if start == 0 { 0 } else { start - 1 }) =~= before(s, start as int));
    }
    let skipped = end == start || (end == start + 1 && chars[start] == '.');
    if !skipped {
        let ghost marked = spans@;
        spans.push(Span { start, end });
        proof {
            lemma_spans_extend(marked, s, start as int, end as int);
        }
    }
}

/// Marks the names of `chars`, in order.
pub fn name_spans(chars: &Vec<char>) -> (spans: Vec<Span>)
    ensures
        spans_mark(spans@, chars@, chars@.len() as int),
{
    let n = chars.len();
    let mut spans: Vec<Span> = Vec::new();
    let mut start: usize = 0;
    let mut i: usize = 0;
    assert(chars@.take(0) =~= Seq::<char>::empty());
    while i < n
        invariant
            n == chars@.len(),
            0 <= start <= i <= n,
            start > 0 ==> chars@[start - 1] == SEPARATOR,
            forall|j: int| start <= j < i ==> chars@[j] != SEPARATOR,
            spans_mark(spans@, chars@, if start == 0 { 0 } else { start - 1 }),
        decreases n - i,
    {
        if chars[i] == SEPARATOR {
            mark_piece(&mut spans, chars, start, i);
            start = i + 1;
        }
        i += 1;
    }
    mark_piece(&mut spans, chars, start, n);
    spans
}

/// Finds the last dot of the stretch of `chars` from `start` up to `end`.
pub(crate) fn last_dot_within(chars: &Vec<char>, start: usize, end: usize) -> (dot: Option<usize>)
    requires
        start <= end <= chars@.len(),
    ensures
        match dot {
            Some(at) => start <= at < end && last_dot(chars@.subrange(start as int, end as int))
                == at - start,
            None => last_dot(chars@.subrange(start as int, end as int)) == -1,
        },
{
    let ghost s = chars@;
    let mut dot: Option<usize> = None;
    let mut i: usize = start;
    while i < end
        invariant
            s == chars@,
            start <= i <= end <= s.len(),
            match dot {
                Some(at) => start <= at < i && last_dot(s.subrange(start as int, i as int)) == at
                    - start,
                None => last_dot(s.subrange(start as int, i as int)) == -1,
            },
        decreases end - i,
    {
        proof {
            let grown = s.subrange(start as int, i + 1);
            assert(grown.drop_last() =~= s.subrange(start as int, i as int));
            assert(grown.last() == s[i as int]);
        }
        if chars[i] == '.' {
            dot = Some(i);
        }
        i += 1;
    }
    dot
}

/// Whether the stretch marked by `span` is the part that steps up.
pub(crate) fn is_parent_dir(chars: &Vec<char>, span: Span) -> (yes: bool)
    requires
        span.start <= span.end <= chars@.len(),
    ensures
        yes == (chars@.subrange(span.start as int, span.end as int) == parent_dir()),
{
    let yes = span.end - span.start == 2 && chars[span.start] == '.' && chars[span.start + 1]
        == '.';
    proof {
        let piece = chars@.subrange(span.start as int, span.end as int);
        if yes {
            assert(piece =~= parent_dir());
        }
        if piece == parent_dir() {
            assert(piece.len() == 2 && piece[0] == '.' && piece[1] == '.');
        }
    }
    yes
}

/// Marks the file name of `chars`, if it has one.
pub(crate) fn file_name_span(chars: &Vec<char>) -> (found: Option<Span>)
    ensures
        match found {
            Some(span) => span.start < span.end <= chars@.len() && file_name_of(chars@) == Some(
                chars@.subrange(span.start as int, span.end as int),
            ) && span.end == names_end(chars@),
            None => file_name_of(chars@) is None,
        },
{
    let spans = name_spans(chars);
    proof {
        assert(chars@.take(chars@.len() as int) =~= chars@);
    }
    if spans.len() == 0 {
        return None;
    }
    let span = spans[spans.len() - 1];
    if is_parent_dir(chars, span) {
        None
    } else {
        Some(span)
    }
}

/// Whether `path` starts at the root.
pub fn is_absolute(path: &str) -> (yes: bool)
    ensures
        yes == has_root(path@),
{
    !path.is_empty() && path.get_char(0) == SEPARATOR
}

/// The file name of `path`: its last name, unless the path ends by stepping
/// up to the parent.
pub fn file_name(path: &str) -> (name: Option<&str>)
    ensures
        match name {
            Some(found) => file_name_of(path@) == Some(found@),
            None => file_name_of(path@) is None,
        },
{
    let chars = chars_of(path);
    match file_name_span(&chars) {
        Some(span) => Some(path.substring_char(span.start, span.end)),
        None => None,
    }
}

/// The file name of the directory that holds the last part of `path`.
pub fn parent_name(path: &str) -> (name: Option<&str>)
    ensures
        match name {
            Some(found) => parent_name_of(path@) == Some(found@),
            None => parent_name_of(path@) is None,
        },
{
    let chars = chars_of(path);
    let spans = name_spans(&chars);
    proof {
        assert(chars@.take(chars@.len() as int) =~= chars@);
    }
    if spans.len() < 2 {
        return None;
    }
    let span = spans[spans.len() - 2];
    if is_parent_dir(&chars, span) {
        None
    } else {
        Some(path.substring_char(span.start, span.end))
    }
}

/// The extension of the file name of `path`: what stands behind its last
/// dot, unless that dot is in front.
pub fn extension(path: &str) -> (ext: Option<&str>)
    ensures
        match ext {
            Some(found) => extension_of(path@) == Some(found@),
            None => extension_of(path@) is None,
        },
{
    let chars = chars_of(path);
    match file_name_span(&chars) {
        Some(span) => {
            match last_dot_within(&chars, span.start, span.end) {
                Some(at) => {
                    if at > span.start {
                        proof {
                            let name = chars@.subrange(span.start as int, span.end as int);
                            assert(name.skip(at - span.start + 1) =~= path@.subrange(
                                at + 1,
                                span.end as int,
                            ));
                        }
                        Some(path.substring_char(at + 1, span.end))
                    } else {
                        None
                    }
                },
                None => None,
            }
        },
        None => None,
    }
}

/// `path` with the extension of its file name replaced by `ext`. What stands
/// behind the file name is dropped; a path without a file name stays as it is.
pub fn with_extension(path: &str, ext: &str) -> (changed: String)
    ensures
        changed@ == with_extension_of(path@, ext@),
{
    let chars = chars_of(path);
    match file_name_span(&chars) {
        Some(span) => {
            let stem_end = match last_dot_within(&chars, span.start, span.end) {
                Some(at) => if at > span.start {
                    at
                } else {
                    span.end
                },
                None => span.end,
            };
            let mut changed = String::from_str(path.substring_char(0, stem_end));
            proof {
                assert(path@.subrange(0, stem_end as int) =~= path@.take(stem_end as int));
            }
            if !ext.is_empty() {
                changed.append(".");
                changed.append(ext);
                proof {
                    reveal_strlit(".");
                    assert("."@ =~= seq!['.']);
                    assert(changed@ =~= path@.take(stem_end as int) + dotted(ext@));
                }
            } else {
                proof {
                    assert(changed@ =~= path@.take(stem_end as int) + dotted(ext@));
                }
            }
            changed
        },
        None => String::from_str(path),
    }
}

/// `path` under `base`. A `path` that starts at the root stands alone.
pub fn join(base: &str, path: &str) -> (joined: String)
    ensures
        joined@ == join_of(base@, path@),
{
    if is_absolute(path) {
        return String::from_str(path);
    }
    let mut joined = String::from_str(base);
    let base_chars = chars_of(base);
    if base_chars.len() > 0 && base_chars[base_chars.len() - 1] != SEPARATOR {
        joined.append("/");
        proof {
            reveal_strlit("/");
            assert("/"@ =~= seq![SEPARATOR]);
        }
    }
    joined.append(path);
    joined
}

/// Whether `path` starts with a single dot that is a piece of its own.
pub(crate) fn leads_with_current_dir(chars: &Vec<char>) -> (yes: bool)
    ensures
        yes == starts_with_current_dir(chars@),
{
    chars.len() > 0 && chars[0] == '.' && (chars.len() == 1 || chars[1] == SEPARATOR)
}

/// The parts of `path`, in order: a marker where it starts at the root or
/// with a single dot, then its names.
pub fn components(path: &str) -> (found: Vec<&str>)
    ensures
        found@.len() == parts(path@).len(),
        forall|i: int| 0 <= i < found@.len() ==> (#[trigger] found@[i])@ == parts(path@)[i],
{
    let chars = chars_of(path);
    let spans = name_spans(&chars);
    let ghost s = path@;
    proof {
        assert(s.take(s.len() as int) =~= s);
    }
    let mut found: Vec<&str> = Vec::new();
    if chars.len() > 0 && chars[0] == SEPARATOR {
        found.push(path.substring_char(0, 1));
        proof {
            assert(s.subrange(0, 1) =~= root_dir());
        }
    } else if leads_with_current_dir(&chars) {
        found.push(path.substring_char(0, 1));
        proof {
            assert(s.subrange(0, 1) =~= current_dir());
        }
    }
    let ghost marker = found@.len();
    assert(marker == lead(s).len());
    let mut k: usize = 0;
    while k < spans.len()
        invariant
            s == path@,
            s == chars@,
            spans_mark(spans@, s, s.len() as int),
            s.take(s.len() as int) == s,
            marker == lead(s).len(),
            0 <= k <= spans@.len(),
            found@.len() == marker + k,
            forall|i: int| 0 <= i < marker ==> (#[trigger] found@[i])@ == lead(s)[i],
            forall|i: int| 0 <= i < k ==> (#[trigger] found@[marker + i])@ == names(s)[i],
        decreases spans.len() - k,
    {
        let span = spans[k];
        let ghost before_push = found@;
        found.push(path.substring_char(span.start, span.end));
        proof {
            assert forall|i: int| 0 <= i < k + 1 implies (#[trigger] found@[marker + i])@ == names(
                s,
            )[i] by {
                if i < k {
                    assert(found@[marker + i] == before_push[marker + i]);
                }
            }
            assert forall|i: int| 0 <= i < marker implies (#[trigger] found@[i])@ == lead(s)[i] by {
                assert(found@[i] == before_push[i]);
            }
        }
        k += 1;
    }
    proof {
        assert forall|i: int| 0 <= i < found@.len() implies (#[trigger] found@[i])@ == parts(
            s,
        )[i] by {
            if i >= marker {
                assert(found@[marker + (i - marker)]@ == names(s)[i - marker]);
            }
        }
    }
    found
}

/// The first part of `path`, if it has any.
pub fn first_part(path: &str) -> (part: Option<&str>)
    ensures
        match part {
            Some(found) => first_part_of(path@) == Some(found@),
            None => first_part_of(path@) is None,
        },
{
    let found = components(path);
    if found.len() > 0 {
        Some(found[0])
    } else {
        None
    }
}

} // verus!
