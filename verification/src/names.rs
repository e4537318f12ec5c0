//! Byte-wise ordering of entry names.
//!
//! Entry names are raw byte strings whose encoding is unknown, so they are
//! ordered by the numeric value of their bytes: the first differing byte
//! decides, and a proper prefix sorts before any of its extensions.

use vstd::prelude::*;

verus! {

/// `a` sorts strictly before `b`, looking only at positions `i` and later,
/// given that both agree on all earlier positions.
pub open spec fn lt_from(a: Seq<u8>, b: Seq<u8>, i: int) -> bool
    decreases a.len() - i,
{
    if i < 0 || i >= b.len() {
        false
    } else if i >= a.len() {
        true
    } else if a[i] != b[i] {
        a[i] < b[i]
    } else {
        lt_from(a, b, i + 1)
    }
}

/// Strict lexicographic order on raw names.
pub open spec fn name_lt(a: Seq<u8>, b: Seq<u8>) -> bool {
    lt_from(a, b, 0)
}

/// Non-strict lexicographic order on raw names.
pub open spec fn name_le(a: Seq<u8>, b: Seq<u8>) -> bool {
    a == b || name_lt(a, b)
}

/// Result of comparing two names.
#[derive(Debug, Clone, Copy, PartialEq, Eq, Structural)]
pub enum NameOrder {
    /// The first name sorts before the second.
    Before,
    /// Both names are the same bytes.
    Same,
    /// The first name sorts after the second.
    After,
}

/// The order in which two names stand, as a function of the names.
pub open spec fn order_of(a: Seq<u8>, b: Seq<u8>) -> NameOrder {
    if a == b {
        NameOrder::Same
    } else if name_lt(a, b) {
        NameOrder::Before
    } else {
        NameOrder::After
    }
}

proof fn lemma_lt_from_irreflexive(a: Seq<u8>, i: int)
    requires
        0 <= i,
    ensures
        !lt_from(a, a, i),
    decreases a.len() - i,
{
    if i < a.len() {
        lemma_lt_from_irreflexive(a, i + 1);
    }
}

proof fn lemma_lt_from_total(a: Seq<u8>, b: Seq<u8>, i: int)
    requires
        0 <= i <= a.len(),
        i <= b.len(),
        a.subrange(0, i) == b.subrange(0, i),
        !lt_from(a, b, i),
        !lt_from(b, a, i),
    ensures
        a == b,
    decreases a.len() - i,
{
    if i >= a.len() || i >= b.len() {
        assert(a.len() == b.len());
        assert(a.subrange(0, i) == a);
        assert(b.subrange(0, i) == b);
    } else {
        assert(a[i] == b[i]);
        assert(a.subrange(0, i + 1) == a.subrange(0, i).push(a[i]));
        assert(b.subrange(0, i + 1) == b.subrange(0, i).push(b[i]));
        lemma_lt_from_total(a, b, i + 1);
    }
}

proof fn lemma_lt_from_asymmetric(a: Seq<u8>, b: Seq<u8>, i: int)
    requires
        0 <= i,
        lt_from(a, b, i),
    ensures
        !lt_from(b, a, i),
    decreases a.len() - i,
{
    if i < a.len() && i < b.len() && a[i] == b[i] {
        lemma_lt_from_asymmetric(a, b, i + 1);
    }
}

proof fn lemma_lt_from_transitive(a: Seq<u8>, b: Seq<u8>, c: Seq<u8>, i: int)
    requires
        0 <= i,
        lt_from(a, b, i),
        lt_from(b, c, i),
    ensures
        lt_from(a, c, i),
    decreases a.len() - i,
{
    if i < a.len() && i < b.len() && i < c.len() && a[i] == b[i] && b[i] == c[i] {
        lemma_lt_from_transitive(a, b, c, i + 1);
    }
}

/// No name sorts before itself.
pub proof fn lemma_name_lt_irreflexive(a: Seq<u8>)
    ensures
        !name_lt(a, a),
{
    lemma_lt_from_irreflexive(a, 0);
}

/// Of two names, at most one sorts before the other.
pub proof fn lemma_name_lt_asymmetric(a: Seq<u8>, b: Seq<u8>)
    requires
        name_lt(a, b),
    ensures
        !name_lt(b, a),
        a != b,
{
    lemma_lt_from_asymmetric(a, b, 0);
    lemma_lt_from_irreflexive(a, 0);
}

/// The order is transitive.
pub proof fn lemma_name_lt_transitive(a: Seq<u8>, b: Seq<u8>, c: Seq<u8>)
    requires
        name_lt(a, b),
        name_lt(b, c),
    ensures
        name_lt(a, c),
{
    lemma_lt_from_transitive(a, b, c, 0);
}

/// Any two different names are ordered one way or the other.
pub proof fn lemma_name_lt_total(a: Seq<u8>, b: Seq<u8>)
    ensures
        a == b || name_lt(a, b) || name_lt(b, a),
{
    if !name_lt(a, b) && !name_lt(b, a) {
        assert(a.subrange(0, 0) == b.subrange(0, 0));
        lemma_lt_from_total(a, b, 0);
    }
}

/// Compare two raw names byte by byte.
pub fn compare_names(a: &[u8], b: &[u8]) -> (r: NameOrder)
    ensures
        r == order_of(a@, b@),
        r == NameOrder::Before <==> name_lt(a@, b@),
        r == NameOrder::Same <==> a@ == b@,
        r == NameOrder::After <==> name_lt(b@, a@),
{
    let mut i: usize = 0;
    while i < a.len() && i < b.len()
        invariant
            0 <= i <= a@.len(),
            i <= b@.len(),
            a@.subrange(0, i as int) == b@.subrange(0, i as int),
            name_lt(a@, b@) == lt_from(a@, b@, i as int),
            name_lt(b@, a@) == lt_from(b@, a@, i as int),
        decreases a@.len() - i,
    {
        if a[i] < b[i] {
            proof {
                lemma_name_lt_asymmetric(a@, b@);
            }
            return NameOrder::Before;
        }
        if a[i] > b[i] {
            proof {
                lemma_name_lt_asymmetric(b@, a@);
            }
            return NameOrder::After;
        }
        proof {
            assert(a@.subrange(0, i + 1) == a@.subrange(0, i as int).push(a@[i as int]));
            assert(b@.subrange(0, i + 1) == b@.subrange(0, i as int).push(b@[i as int]));
        }
        i += 1;
    }
    if i < b.len() {
        proof {
            lemma_name_lt_asymmetric(a@, b@);
        }
        NameOrder::Before
    } else if i < a.len() {
        proof {
            lemma_name_lt_asymmetric(b@, a@);
        }
        NameOrder::After
    } else {
        proof {
            assert(a@.subrange(0, i as int) == a@);
            assert(b@.subrange(0, i as int) == b@);
            lemma_name_lt_irreflexive(a@);
        }
        NameOrder::Same
    }
}

} // verus!
