//! The candidate set: an ordered mapping from entry name to entry index.
//!
//! Iteration order is ascending by the raw bytes of the name, so the scan
//! order does not depend on where an entry physically sits in its archive.

use vstd::prelude::*;
use crate::names::{
    compare_names, lemma_name_lt_asymmetric, lemma_name_lt_transitive, name_lt, NameOrder,
};

verus! {

/// A sequence of `(name, index)` pairs is strictly ascending by name.
pub open spec fn ascending(s: Seq<(Seq<u8>, usize)>) -> bool {
    forall|i: int, j: int| 0 <= i < j < s.len() ==> name_lt(#[trigger] s[i].0, #[trigger] s[j].0)
}

/// The mapping that a sequence of `(name, index)` pairs stands for; of two
/// pairs with the same name the later one counts.
pub open spec fn mapping_of(s: Seq<(Seq<u8>, usize)>) -> Map<Seq<u8>, usize>
    decreases s.len(),
{
    if s.len() == 0 {
        Map::empty()
    } else {
        mapping_of(s.drop_last()).insert(s.last().0, s.last().1)
    }
}

/// A name is a key of `mapping_of(s)` exactly if some pair of `s` carries it.
pub proof fn lemma_mapping_domain(s: Seq<(Seq<u8>, usize)>, name: Seq<u8>)
    ensures
        mapping_of(s).dom().contains(name) <==> exists|j: int|
            0 <= j < s.len() && (#[trigger] s[j]).0 == name,
    decreases s.len(),
{
    if s.len() > 0 {
        let t = s.drop_last();
        lemma_mapping_domain(t, name);
        if mapping_of(s).dom().contains(name) {
            if s.last().0 == name {
                assert(s[s.len() - 1].0 == name);
            } else {
                let j = choose|j: int| 0 <= j < t.len() && (#[trigger] t[j]).0 == name;
                assert(s[j].0 == name);
            }
        }
        if exists|j: int| 0 <= j < s.len() && (#[trigger] s[j]).0 == name {
            let j = choose|j: int| 0 <= j < s.len() && (#[trigger] s[j]).0 == name;
            if j < t.len() {
                assert(t[j].0 == name);
            }
        }
    }
}

/// In an ascending sequence every pair is an entry of the mapping.
pub proof fn lemma_mapping_value(s: Seq<(Seq<u8>, usize)>, j: int)
    requires
        ascending(s),
        0 <= j < s.len(),
    ensures
        mapping_of(s).contains_pair(s[j].0, s[j].1),
    decreases s.len(),
{
    let t = s.drop_last();
    if j < s.len() - 1 {
        assert(ascending(t)) by {
            assert forall|a: int, b: int| 0 <= a < b < t.len() implies name_lt(
                #[trigger] t[a].0,
                #[trigger] t[b].0,
            ) by {
                assert(name_lt(s[a].0, s[b].0));
            }
        }
        lemma_mapping_value(t, j);
        assert(name_lt(s[j].0, s[s.len() - 1].0));
        lemma_name_lt_asymmetric(s[j].0, s.last().0);
    }
}

/// The iteration order is a function of the mapping alone: two ascending
/// sequences that stand for the same mapping are the same sequence, in
/// whatever order the pairs were put in.
pub proof fn lemma_order_determined(s: Seq<(Seq<u8>, usize)>, t: Seq<(Seq<u8>, usize)>)
    requires
        ascending(s),
        ascending(t),
        mapping_of(s) == mapping_of(t),
    ensures
        s == t,
    decreases s.len(),
{
    if s.len() == 0 {
        if t.len() > 0 {
            lemma_mapping_value(t, 0);
            assert(mapping_of(s).dom().contains(t[0].0));
        }
        assert(s =~= t);
    } else {
        let last = s.len() - 1;
        lemma_mapping_value(s, last);
        lemma_mapping_domain(t, s[last].0);
        let at = choose|j: int| 0 <= j < t.len() && (#[trigger] t[j]).0 == s[last].0;
        lemma_mapping_value(t, at);
        assert(t[at] == s[last]);
        if at < t.len() - 1 {
            let above = t.len() - 1;
            lemma_mapping_value(t, above);
            lemma_mapping_domain(s, t[above].0);
            let back = choose|j: int| 0 <= j < s.len() && (#[trigger] s[j]).0 == t[above].0;
            assert(name_lt(t[at].0, t[above].0));
            if back < last {
                assert(name_lt(s[back].0, s[last].0));
                lemma_name_lt_asymmetric(s[back].0, s[last].0);
            } else {
                lemma_name_lt_asymmetric(t[at].0, t[above].0);
            }
        }
        assert(at == t.len() - 1);
        let s0 = s.drop_last();
        let t0 = t.drop_last();
        lemma_drop_last(s);
        lemma_drop_last(t);
        lemma_order_determined(s0, t0);
        assert(s =~= s0.push(s[last]));
        assert(t =~= t0.push(t[at]));
    }
}

/// Without its last pair an ascending sequence is still ascending, and
/// stands for the mapping without the last pair's name.
proof fn lemma_drop_last(s: Seq<(Seq<u8>, usize)>)
    requires
        ascending(s),
        s.len() > 0,
    ensures
        ascending(s.drop_last()),
        mapping_of(s.drop_last()) == mapping_of(s).remove(s.last().0),
{
    let t = s.drop_last();
    assert(ascending(t)) by {
        assert forall|a: int, b: int| 0 <= a < b < t.len() implies name_lt(
            #[trigger] t[a].0,
            #[trigger] t[b].0,
        ) by {
            assert(name_lt(s[a].0, s[b].0));
        }
    }
    lemma_mapping_domain(t, s.last().0);
    if mapping_of(t).dom().contains(s.last().0) {
        let j = choose|j: int| 0 <= j < t.len() && (#[trigger] t[j]).0 == s.last().0;
        assert(name_lt(s[j].0, s[s.len() - 1].0));
        lemma_name_lt_asymmetric(s[j].0, s.last().0);
    }
    assert(mapping_of(t) =~= mapping_of(s).remove(s.last().0));
}

/// One candidate: a regular-file entry's raw name and its index in the archive.
#[derive(Debug)]
struct Candidate {
    name: Vec<u8>,
    index: usize,
}

/// Ordered mapping from entry name to entry index.
#[derive(Debug)]
pub struct CandidateSet {
    items: Vec<Candidate>,
}

impl CandidateSet {
    /// The candidates in iteration order, as `(name, index)` pairs.
    pub closed spec fn order(&self) -> Seq<(Seq<u8>, usize)> {
        Seq::new(self.items@.len(), |j: int| (self.items@[j].name@, self.items@[j].index))
    }

    /// The mapping from name to index that the set stands for.
    pub open spec fn mapping(&self) -> Map<Seq<u8>, usize> {
        mapping_of(self.order())
    }

    /// The invariant of the set: iteration order is strictly ascending by
    /// name, so no name occurs twice.
    pub open spec fn wf(&self) -> bool {
        ascending(self.order())
    }

    /// An empty set.
    pub fn new() -> (r: Self)
        ensures
            r.wf(),
            r.order() == Seq::<(Seq<u8>, usize)>::empty(),
            r.mapping() == Map::<Seq<u8>, usize>::empty(),
    {
        let r = CandidateSet { items: Vec::new() };
        assert(r.order() =~= Seq::<(Seq<u8>, usize)>::empty());
        r
    }

    /// Number of candidates.
    pub fn len(&self) -> (n: usize)
        ensures
            n == self.order().len(),
    {
        self.items.len()
    }

    /// Map `name` to `index`, replacing the index the name had before, if any.
    pub fn insert(&mut self, name: Vec<u8>, index: usize)
        requires
            old(self).wf(),
        ensures
            final(self).wf(),
            final(self).mapping() == old(self).mapping().insert(name@, index),
    {
        let ghost before = self.order();
        let mut p: usize = 0;
        let mut found = false;
        while p < self.items.len()
            invariant_except_break
                !found,
            invariant
                self.order() == before,
                ascending(before),
                0 <= p <= before.len(),
                forall|j: int| 0 <= j < p ==> name_lt(#[trigger] before[j].0, name@),
            ensures
                self.order() == before,
                0 <= p <= before.len(),
                forall|j: int| 0 <= j < p ==> name_lt(#[trigger] before[j].0, name@),
                found ==> p < before.len() && before[p as int].0 == name@,
                !found ==> forall|j: int| p <= j < before.len() ==> name_lt(name@, #[trigger] before[j].0),
            decreases before.len() - p,
        {
            match compare_names(self.items[p].name.as_slice(), name.as_slice()) {
                NameOrder::Before => {
                    p += 1;
                },
                NameOrder::Same => {
                    found = true;
                    break;
                },
                NameOrder::After => {
                    proof {
                        assert forall|j: int| p <= j < before.len() implies name_lt(
                            name@,
                            #[trigger] before[j].0,
                        ) by {
                            if j > p {
                                assert(name_lt(before[p as int].0, before[j].0));
                                lemma_name_lt_transitive(name@, before[p as int].0, before[j].0);
                            }
                        }
                    }
                    break;
                },
            }
        }
        let ghost key = name@;
        if found {
            self.items.set(p, Candidate { name, index });
            proof {
                let after = self.order();
                assert(after =~= before.update(p as int, (key, index)));
                lemma_update_mapping(before, p as int, index);
            }
        } else {
            self.items.insert(p, Candidate { name, index });
            proof {
                let after = self.order();
                assert(after =~= before.insert(p as int, (key, index)));
                lemma_insert_mapping(before, p as int, key, index);
            }
        }
    }

    /// The indices of the candidates, in ascending order of their names.
    pub fn into_indices(self) -> (r: Vec<usize>)
        ensures
            r@.len() == self.order().len(),
            forall|j: int| 0 <= j < r@.len() ==> r@[j] == (#[trigger] self.order()[j]).1,
    {
        let mut r: Vec<usize> = Vec::new();
        let mut j: usize = 0;
        while j < self.items.len()
            invariant
                0 <= j <= self.items@.len(),
                r@.len() == j,
                forall|k: int| 0 <= k < j ==> r@[k] == (#[trigger] self.order()[k]).1,
            decreases self.items@.len() - j,
        {
            r.push(self.items[j].index);
            j += 1;
        }
        r
    }
}

/// Replacing the index of the pair at `p` in an ascending sequence keeps it
/// ascending and maps that pair's name to the new index.
proof fn lemma_update_mapping(s: Seq<(Seq<u8>, usize)>, p: int, index: usize)
    requires
        ascending(s),
        0 <= p < s.len(),
    ensures
        ascending(s.update(p, (s[p].0, index))),
        mapping_of(s.update(p, (s[p].0, index))) == mapping_of(s).insert(s[p].0, index),
{
    let key = s[p].0;
    let t = s.update(p, (key, index));
    assert(ascending(t)) by {
        assert forall|a: int, b: int| 0 <= a < b < t.len() implies name_lt(
            #[trigger] t[a].0,
            #[trigger] t[b].0,
        ) by {
            assert(name_lt(s[a].0, s[b].0));
        }
    }
    {
        assert forall|n: Seq<u8>, i: usize|
            mapping_of(s).insert(key, index).contains_pair(n, i) implies exists|j: int|
            0 <= j < t.len() && #[trigger] t[j] == (n, i) by {
            if n == key {
                assert(t[p] == (n, i));
            } else {
                lemma_mapping_domain(s, n);
                let j = choose|j: int| 0 <= j < s.len() && (#[trigger] s[j]).0 == n;
                lemma_mapping_value(s, j);
                assert(t[j] == (n, i));
            }
        }
        assert forall|j: int| 0 <= j < t.len() implies mapping_of(s).insert(
            key,
            index,
        ).contains_pair((#[trigger] t[j]).0, t[j].1) by {
            if j != p {
                lemma_mapping_value(s, j);
                if j < p {
                    assert(name_lt(s[j].0, s[p].0));
                    lemma_name_lt_asymmetric(s[j].0, s[p].0);
                } else {
                    assert(name_lt(s[p].0, s[j].0));
                    lemma_name_lt_asymmetric(s[p].0, s[j].0);
                }
            }
        }
    }
    lemma_same_pairs_same_mapping(t, mapping_of(s).insert(key, index));
}

/// Inserting a new name at its place in an ascending sequence keeps it
/// ascending and adds the pair to the mapping.
proof fn lemma_insert_mapping(s: Seq<(Seq<u8>, usize)>, p: int, key: Seq<u8>, index: usize)
    requires
        ascending(s),
        0 <= p <= s.len(),
        forall|j: int| 0 <= j < p ==> name_lt(#[trigger] s[j].0, key),
        forall|j: int| p <= j < s.len() ==> name_lt(key, #[trigger] s[j].0),
    ensures
        ascending(s.insert(p, (key, index))),
        mapping_of(s.insert(p, (key, index))) == mapping_of(s).insert(key, index),
{
    let t = s.insert(p, (key, index));
    assert(ascending(t)) by {
        assert forall|a: int, b: int| 0 <= a < b < t.len() implies name_lt(
            #[trigger] t[a].0,
            #[trigger] t[b].0,
        ) by {
            if b < p {
                assert(name_lt(s[a].0, s[b].0));
            } else if b == p {
                assert(name_lt(s[a].0, key));
            } else if a < p {
                assert(name_lt(s[a].0, key));
                assert(name_lt(key, s[b - 1].0));
                lemma_name_lt_transitive(s[a].0, key, s[b - 1].0);
            } else if a == p {
                assert(name_lt(key, s[b - 1].0));
            } else {
                assert(name_lt(s[a - 1].0, s[b - 1].0));
            }
        }
    }
    {
        assert forall|n: Seq<u8>, i: usize|
            mapping_of(s).insert(key, index).contains_pair(n, i) implies exists|j: int|
            0 <= j < t.len() && #[trigger] t[j] == (n, i) by {
            if n == key {
                assert(t[p] == (n, i));
            } else {
                lemma_mapping_domain(s, n);
                let j = choose|j: int| 0 <= j < s.len() && (#[trigger] s[j]).0 == n;
                lemma_mapping_value(s, j);
                if j < p {
                    assert(t[j] == (n, i));
                } else {
                    assert(t[j + 1] == (n, i));
                }
            }
        }
        assert forall|j: int| 0 <= j < t.len() implies mapping_of(s).insert(
            key,
            index,
        ).contains_pair((#[trigger] t[j]).0, t[j].1) by {
            if j < p {
                lemma_mapping_value(s, j);
                assert(name_lt(s[j].0, key));
                lemma_name_lt_asymmetric(s[j].0, key);
            } else if j > p {
                lemma_mapping_value(s, j - 1);
                assert(name_lt(key, s[j - 1].0));
                lemma_name_lt_asymmetric(key, s[j - 1].0);
            }
        }
    }
    lemma_same_pairs_same_mapping(t, mapping_of(s).insert(key, index));
}

/// An ascending sequence whose pairs are exactly the entries of `m` stands
/// for `m`.
proof fn lemma_same_pairs_same_mapping(t: Seq<(Seq<u8>, usize)>, m: Map<Seq<u8>, usize>)
    requires
        ascending(t),
        forall|n: Seq<u8>, i: usize|
            m.contains_pair(n, i) ==> exists|j: int| 0 <= j < t.len() && #[trigger] t[j] == (n, i),
        forall|j: int| 0 <= j < t.len() ==> m.contains_pair((#[trigger] t[j]).0, t[j].1),
    ensures
        mapping_of(t) == m,
{
    assert forall|n: Seq<u8>| mapping_of(t).dom().contains(n) == m.dom().contains(n) by {
        lemma_mapping_domain(t, n);
        if m.dom().contains(n) {
            assert(m.contains_pair(n, m[n]));
            let j = choose|j: int| 0 <= j < t.len() && #[trigger] t[j] == (n, m[n]);
            assert(t[j].0 == n);
        }
        if mapping_of(t).dom().contains(n) {
            let j = choose|j: int| 0 <= j < t.len() && (#[trigger] t[j]).0 == n;
            assert(m.contains_pair(t[j].0, t[j].1));
        }
    }
    assert forall|n: Seq<u8>| mapping_of(t).dom().contains(n) implies mapping_of(t)[n] == m[n] by {
        lemma_mapping_domain(t, n);
        let j = choose|j: int| 0 <= j < t.len() && (#[trigger] t[j]).0 == n;
        lemma_mapping_value(t, j);
        assert(m.contains_pair(t[j].0, t[j].1));
    }
    assert(mapping_of(t) =~= m);
}

} // verus!
