//! Orders on sequences: which of two comes first when they are read item by
//! item, as words are in a dictionary.

use vstd::prelude::*;

verus! {

/// How one thing stands to another in an order.
#[derive(Copy, Clone, PartialEq, Eq, Debug, Structural)]
pub enum Sign {
    Before,
    Same,
    After,
}

impl Sign {
    /// How the other thing stands to the one.
    pub open spec fn flipped(self) -> Sign {
        match self {
            Sign::Before => Sign::After,
            Sign::Same => Sign::Same,
            Sign::After => Sign::Before,
        }
    }
}

/// How `a` stands to `b` when both are read item by item and `sign` says
/// how one item stands to another: the first pair of items that differ
/// decides, and where there is none the shorter one comes first.
pub open spec fn lexical<T>(a: Seq<T>, b: Seq<T>, sign: spec_fn(T, T) -> Sign) -> Sign
    decreases a.len(),
{
    if a.len() == 0 {
        if b.len() == 0 {
            Sign::Same
        } else {
            Sign::Before
        }
    } else if b.len() == 0 {
        Sign::After
    } else if sign(a[0], b[0]) is Same {
        lexical(a.drop_first(), b.drop_first(), sign)
    } else {
        sign(a[0], b[0])
    }
}

/// Whether `sign` orders its items: only an item itself is the same as it,
/// the two directions agree, and what comes before comes before all that
/// follows.
pub open spec fn is_total_order<T>(sign: spec_fn(T, T) -> Sign) -> bool {
    &&& forall|x: T, y: T| #[trigger] sign(x, y) is Same <==> x == y
    &&& forall|x: T, y: T| #[trigger] sign(y, x) == sign(x, y).flipped()
    &&& forall|x: T, y: T, z: T|
        (#[trigger] sign(x, y)) is Before && (#[trigger] sign(y, z)) is Before ==> sign(x, z)
            is Before
}

/// Two sequences stand the same to each other only where they are equal.
pub proof fn lemma_lexical_same<T>(a: Seq<T>, b: Seq<T>, sign: spec_fn(T, T) -> Sign)
    requires
        is_total_order(sign),
    ensures
        lexical(a, b, sign) is Same <==> a == b,
    decreases a.len(),
{
    if a.len() > 0 && b.len() > 0 {
        lemma_lexical_same(a.drop_first(), b.drop_first(), sign);
        if lexical(a, b, sign) is Same {
            assert(a[0] == b[0]);
            assert(a =~= seq![a[0]] + a.drop_first());
            assert(b =~= seq![b[0]] + b.drop_first());
        }
        if a == b {
            assert(sign(a[0], b[0]) is Same);
        }
    } else if a == b {
        assert(a.len() == b.len());
    } else if a.len() == 0 && b.len() == 0 {
        assert(a =~= b);
    }
}

/// The two directions agree.
pub proof fn lemma_lexical_flip<T>(a: Seq<T>, b: Seq<T>, sign: spec_fn(T, T) -> Sign)
    requires
        is_total_order(sign),
    ensures
        lexical(b, a, sign) == lexical(a, b, sign).flipped(),
    decreases a.len(),
{
    if a.len() > 0 && b.len() > 0 {
        assert(sign(b[0], a[0]) == sign(a[0], b[0]).flipped());
        lemma_lexical_flip(a.drop_first(), b.drop_first(), sign);
    }
}

/// What comes before comes before all that follows.
pub proof fn lemma_lexical_chain<T>(a: Seq<T>, b: Seq<T>, c: Seq<T>, sign: spec_fn(T, T) -> Sign)
    requires
        is_total_order(sign),
        lexical(a, b, sign) is Before,
        lexical(b, c, sign) is Before,
    ensures
        lexical(a, c, sign) is Before,
    decreases a.len(),
{
    if a.len() > 0 {
        let ab = sign(a[0], b[0]);
        let bc = sign(b[0], c[0]);
        let ac = sign(a[0], c[0]);
        if ab is Same && bc is Same {
            assert(a[0] == b[0] && b[0] == c[0]);
            assert(ac is Same);
            lemma_lexical_chain(a.drop_first(), b.drop_first(), c.drop_first(), sign);
        } else if ab is Same {
            assert(a[0] == b[0]);
        } else if bc is Same {
            assert(b[0] == c[0]);
        } else {
            assert(ac is Before);
        }
    }
}

} // verus!
