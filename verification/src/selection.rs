//! Which entry of an archive the scan selects, stated over the entries the
//! reader reports, and what holds of that selection.

use vstd::prelude::*;
use vstd::seq_lib::to_multiset_contains;
use crate::archive::{Entry, Sizes};
use crate::names::{
    lemma_name_lt_asymmetric, lemma_name_lt_total, lemma_name_lt_transitive, name_le, name_lt,
};
use crate::scale::decoded_image;

verus! {

/// The entry is a regular file whose metadata can be read.
pub open spec fn is_file_entry(entry: Entry) -> bool {
    entry.header matches Some(header) && header.is_file
}

/// The raw name of an entry whose metadata can be read.
pub open spec fn entry_name(entry: Entry) -> Seq<u8>
    recommends
        entry.header is Some,
{
    entry.header->0.name
}

/// The entry at `i` is a candidate: a regular file whose name no later
/// regular file of the archive bears.
pub open spec fn is_candidate(entries: Seq<Entry>, i: int) -> bool {
    &&& 0 <= i < entries.len()
    &&& is_file_entry(entries[i])
    &&& forall|j: int|
        i < j < entries.len() && is_file_entry(#[trigger] entries[j]) ==> entry_name(entries[j])
            != entry_name(entries[i])
}

/// Declared sizes that an already compressed image may have: content that
/// shrinks to less than a fifth of its size is taken for something else, and
/// so is an entry that stores no bytes at all.
pub open spec fn plausible_sizes(sizes: Sizes) -> bool {
    sizes.compressed_size != 0 && sizes.size / sizes.compressed_size <= 4
}

/// The image that the scan obtains from an entry: the entry must open, its
/// sizes must be plausible, its content must read to the end and decode.
pub open spec fn entry_image(entry: Entry) -> Option<image::DynamicImage> {
    if entry.sizes is Some && plausible_sizes(entry.sizes->0) && entry.content is Some {
        decoded_image(entry.content->0)
    } else {
        None
    }
}

/// The entry at `i` is a candidate that yields an image.
pub open spec fn yields_image(entries: Seq<Entry>, i: int) -> bool {
    is_candidate(entries, i) && entry_image(entries[i]) is Some
}

/// The entry at `i` is the one the scan selects: it yields an image, and no
/// entry that yields an image has a name sorting before its name.
pub open spec fn is_selected(entries: Seq<Entry>, i: int) -> bool {
    &&& yields_image(entries, i)
    &&& forall|j: int| #[trigger]
        yields_image(entries, j) ==> name_le(entry_name(entries[i]), entry_name(entries[j]))
}

/// The image of the selected entry, or `None` if no entry is selected.
pub open spec fn selected_image(entries: Seq<Entry>) -> Option<image::DynamicImage> {
    if exists|i: int| is_selected(entries, i) {
        entry_image(entries[choose|i: int| is_selected(entries, i)])
    } else {
        None
    }
}

/// No two regular files of the archive bear the same name.
pub open spec fn distinct_file_names(entries: Seq<Entry>) -> bool {
    forall|a: int, b: int|
        0 <= a < b < entries.len() && is_file_entry(#[trigger] entries[a]) && is_file_entry(
            #[trigger] entries[b],
        ) ==> entry_name(entries[a]) != entry_name(entries[b])
}

/// The name-to-index mapping built from the first `k` entries: each regular
/// file maps its name to its index, a later one replacing an earlier one.
pub open spec fn name_index(entries: Seq<Entry>, k: int) -> Map<Seq<u8>, usize>
    decreases k,
{
    if k <= 0 {
        Map::empty()
    } else if is_file_entry(entries[k - 1]) {
        name_index(entries, k - 1).insert(entry_name(entries[k - 1]), (k - 1) as usize)
    } else {
        name_index(entries, k - 1)
    }
}

/// The mapping built from the first `k` entries holds, for each name, the
/// last regular file among them that bears it.
pub proof fn lemma_name_index(entries: Seq<Entry>, k: int, name: Seq<u8>, i: usize)
    requires
        0 <= k <= entries.len() <= usize::MAX,
    ensures
        name_index(entries, k).contains_pair(name, i) <==> {
            &&& 0 <= i < k
            &&& is_file_entry(entries[i as int])
            &&& entry_name(entries[i as int]) == name
            &&& forall|j: int|
                i < j < k && is_file_entry(#[trigger] entries[j]) ==> entry_name(entries[j])
                    != name
        },
    decreases k,
{
    if k > 0 {
        lemma_name_index(entries, k - 1, name, i);
        if is_file_entry(entries[k - 1]) && entry_name(entries[k - 1]) == name {
            if i < k - 1 {
                assert(is_file_entry(entries[k - 1]));
            }
        }
    }
}

/// At most one entry is selected.
pub proof fn lemma_selected_unique(entries: Seq<Entry>, i: int, j: int)
    requires
        is_selected(entries, i),
        is_selected(entries, j),
    ensures
        i == j,
{
    let a = entry_name(entries[i]);
    let b = entry_name(entries[j]);
    assert(yields_image(entries, i) && yields_image(entries, j));
    assert(name_le(a, b) && name_le(b, a));
    if name_lt(a, b) {
        lemma_name_lt_asymmetric(a, b);
    }
    assert(a == b);
    if i < j {
        assert(is_file_entry(entries[j]));
    } else if j < i {
        assert(is_file_entry(entries[i]));
    }
}

/// Where the entry at `i` is selected, the selection is its image.
pub proof fn lemma_selected_image(entries: Seq<Entry>, i: int)
    requires
        is_selected(entries, i),
    ensures
        selected_image(entries) == entry_image(entries[i]),
        selected_image(entries) is Some,
{
    let c = choose|c: int| is_selected(entries, c);
    lemma_selected_unique(entries, i, c);
}

/// Among the first `k` entries, the index of the one that yields an image
/// and has the least name of those that do.
spec fn least_upto(entries: Seq<Entry>, k: int) -> Option<int>
    decreases k,
{
    if k <= 0 {
        None
    } else {
        let before = least_upto(entries, k - 1);
        if yields_image(entries, k - 1) && (before is None || name_lt(
            entry_name(entries[k - 1]),
            entry_name(entries[before->0]),
        )) {
            Some(k - 1)
        } else {
            before
        }
    }
}

proof fn lemma_least_upto(entries: Seq<Entry>, k: int)
    requires
        0 <= k,
    ensures
        match least_upto(entries, k) {
            Some(m) => 0 <= m < k && yields_image(entries, m) && forall|j: int|
                0 <= j < k && #[trigger] yields_image(entries, j) ==> name_le(
                    entry_name(entries[m]),
                    entry_name(entries[j]),
                ),
            None => forall|j: int| 0 <= j < k ==> !#[trigger] yields_image(entries, j),
        },
    decreases k,
{
    if k > 0 {
        lemma_least_upto(entries, k - 1);
        let before = least_upto(entries, k - 1);
        let last = entry_name(entries[k - 1]);
        if yields_image(entries, k - 1) && before is Some {
            let b = entry_name(entries[before->0]);
            lemma_name_lt_total(last, b);
            if name_lt(last, b) {
                assert forall|j: int| 0 <= j < k && #[trigger] yields_image(
                    entries,
                    j,
                ) implies name_le(last, entry_name(entries[j])) by {
                    if j < k - 1 {
                        let c = entry_name(entries[j]);
                        assert(name_le(b, c));
                        if b != c {
                            lemma_name_lt_transitive(last, b, c);
                        }
                    }
                }
            }
        }
    }
}

/// If any entry yields an image, one entry is selected, and the selection
/// is an image: the scan does not come back empty-handed.
pub proof fn lemma_selection_exists(entries: Seq<Entry>, i: int)
    requires
        yields_image(entries, i),
    ensures
        exists|k: int| is_selected(entries, k),
        selected_image(entries) is Some,
{
    let n = entries.len() as int;
    lemma_least_upto(entries, n);
    let m = least_upto(entries, n)->0;
    assert(least_upto(entries, n) is Some);
    assert(is_selected(entries, m));
    lemma_selected_image(entries, m);
}

/// The selected image comes from the entry with the least name among all
/// entries that yield an image, wherever those stand in the archive.
pub proof fn lemma_selection_is_least(entries: Seq<Entry>, i: int)
    requires
        yields_image(entries, i),
    ensures
        exists|k: int|
            {
                &&& #[trigger] is_selected(entries, k)
                &&& selected_image(entries) == entry_image(entries[k])
                &&& name_le(entry_name(entries[k]), entry_name(entries[i]))
            },
{
    lemma_selection_exists(entries, i);
    let k = choose|k: int| is_selected(entries, k);
    lemma_selected_image(entries, k);
}

/// An archive without a single regular file has no selection.
pub proof fn lemma_no_files_no_selection(entries: Seq<Entry>)
    requires
        forall|i: int| 0 <= i < entries.len() ==> !is_file_entry(#[trigger] entries[i]),
    ensures
        selected_image(entries) is None,
        forall|i: int| !yields_image(entries, i),
{
}

/// An archive none of whose regular files yields an image has no
/// selection.
pub proof fn lemma_no_images_no_selection(entries: Seq<Entry>)
    requires
        forall|i: int|
            0 <= i < entries.len() && is_file_entry(#[trigger] entries[i]) ==> entry_image(
                entries[i],
            ) is None,
    ensures
        selected_image(entries) is None,
        forall|i: int| !yields_image(entries, i),
{
}

/// Two archives in which the same entries yield an image have the same
/// selection.
pub proof fn lemma_same_yields_same_selection(first: Seq<Entry>, second: Seq<Entry>)
    requires
        forall|i: int| #[trigger]
            yields_image(first, i) ==> exists|j: int| #[trigger]
                yields_image(second, j) && second[j] == first[i],
        forall|j: int| #[trigger]
            yields_image(second, j) ==> exists|i: int| #[trigger]
                yields_image(first, i) && first[i] == second[j],
    ensures
        selected_image(first) == selected_image(second),
{
    if exists|i: int| is_selected(first, i) {
        let i = choose|i: int| is_selected(first, i);
        lemma_selected_image(first, i);
        assert(yields_image(first, i));
        let j = choose|j: int| #[trigger] yields_image(second, j) && second[j] == first[i];
        assert forall|k: int| #[trigger] yields_image(second, k) implies name_le(
            entry_name(second[j]),
            entry_name(second[k]),
        ) by {
            let h = choose|h: int| #[trigger] yields_image(first, h) && first[h] == second[k];
            assert(name_le(entry_name(first[i]), entry_name(first[h])));
        }
        assert(is_selected(second, j));
        lemma_selected_image(second, j);
    } else if exists|j: int| is_selected(second, j) {
        let j = choose|j: int| is_selected(second, j);
        assert(yields_image(second, j));
        let i = choose|i: int| #[trigger] yields_image(first, i) && first[i] == second[j];
        lemma_selection_exists(first, i);
    }
}

/// A value that occurs in a sequence has a last occurrence.
proof fn lemma_last_occurrence(s: Seq<Entry>, x: Entry) -> (j: int)
    requires
        s.contains(x),
    ensures
        0 <= j < s.len(),
        s[j] == x,
        forall|k: int| j < k < s.len() ==> s[k] != x,
    decreases s.len(),
{
    let last = s.len() - 1;
    if s[last] == x {
        last
    } else {
        let t = s.drop_last();
        let w = choose|w: int| 0 <= w < s.len() && s[w] == x;
        assert(t[w] == x);
        let j = lemma_last_occurrence(t, x);
        assert(s[j] == t[j]);
        assert forall|k: int| j < k < s.len() implies s[k] != x by {
            if k < last {
                assert(t[k] == s[k]);
            }
        }
        j
    }
}

/// In an archive without repeated file names, every entry of it that
/// yields an image in a second archive holding all of its entries yields
/// one there too.
proof fn lemma_yield_carries_over(first: Seq<Entry>, second: Seq<Entry>, i: int)
    requires
        yields_image(first, i),
        distinct_file_names(first),
        forall|x: Entry| first.contains(x) <==> second.contains(x),
    ensures
        exists|j: int| #[trigger] yields_image(second, j) && second[j] == first[i],
{
    let x = first[i];
    assert(first.contains(x));
    let j = lemma_last_occurrence(second, x);
    assert forall|k: int| j < k < second.len() && is_file_entry(
        #[trigger] second[k],
    ) implies entry_name(second[k]) != entry_name(second[j]) by {
        let y = second[k];
        assert(second.contains(y));
        assert(first.contains(y));
        let h = choose|h: int| 0 <= h < first.len() && first[h] == y;
        assert(h != i);
        if h < i {
            assert(is_file_entry(first[h]) && is_file_entry(first[i]));
        } else {
            assert(is_file_entry(first[i]) && is_file_entry(first[h]));
        }
    }
    assert(yields_image(second, j));
}

/// Where no two regular files bear the same name, every regular file is a
/// candidate.
proof fn lemma_distinct_names_candidates(entries: Seq<Entry>, i: int)
    requires
        distinct_file_names(entries),
        0 <= i < entries.len(),
        is_file_entry(entries[i]),
    ensures
        is_candidate(entries, i),
{
    assert forall|j: int| i < j < entries.len() && is_file_entry(
        #[trigger] entries[j],
    ) implies entry_name(entries[j]) != entry_name(entries[i]) by {
        assert(is_file_entry(entries[i]) && is_file_entry(entries[j]));
    }
}

/// The selection does not depend on the physical order of the entries:
/// an archive that holds the same entries in another order has the same
/// selection, provided no two regular files bear the same name.
pub proof fn lemma_selection_ignores_physical_order(first: Seq<Entry>, second: Seq<Entry>)
    requires
        first.to_multiset() == second.to_multiset(),
        distinct_file_names(first),
    ensures
        selected_image(first) == selected_image(second),
{
    assert forall|x: Entry| first.contains(x) <==> second.contains(x) by {
        to_multiset_contains(first, x);
        to_multiset_contains(second, x);
    }
    assert forall|i: int| #[trigger] yields_image(first, i) implies exists|j: int| #[trigger]
        yields_image(second, j) && second[j] == first[i] by {
        lemma_yield_carries_over(first, second, i);
    }
    assert forall|j: int| #[trigger] yields_image(second, j) implies exists|i: int| #[trigger]
        yields_image(first, i) && first[i] == second[j] by {
        let y = second[j];
        assert(second.contains(y));
        assert(first.contains(y));
        let i = choose|i: int| 0 <= i < first.len() && first[i] == y;
        lemma_distinct_names_candidates(first, i);
        assert(yields_image(first, i));
    }
    lemma_same_yields_same_selection(first, second);
}

/// Taking out an entry that yields no image, and whose name no other
/// regular file bears if it is one itself, leaves the selection as it was.
proof fn lemma_removal_keeps_selection(entries: Seq<Entry>, k: int)
    requires
        0 <= k < entries.len(),
        !is_file_entry(entries[k]) || entry_image(entries[k]) is None,
        is_file_entry(entries[k]) ==> forall|j: int|
            0 <= j < entries.len() && j != k && is_file_entry(#[trigger] entries[j])
                ==> entry_name(entries[j]) != entry_name(entries[k]),
    ensures
        selected_image(entries.remove(k)) == selected_image(entries),
{
    let rest = entries.remove(k);
    assert(rest.len() == entries.len() - 1);
    assert forall|j: int| 0 <= j < rest.len() implies #[trigger] rest[j] == entries[if j < k {
        j
    } else {
        j + 1
    }] by {}
    assert forall|i: int| #[trigger] yields_image(entries, i) implies exists|j: int| #[trigger]
        yields_image(rest, j) && rest[j] == entries[i] by {
        assert(i != k);
        let j = if i < k {
            i
        } else {
            i - 1
        };
        assert(rest[j] == entries[i]);
        assert forall|h: int| j < h < rest.len() && is_file_entry(
            #[trigger] rest[h],
        ) implies entry_name(rest[h]) != entry_name(rest[j]) by {
            let g = if h < k {
                h
            } else {
                h + 1
            };
            assert(rest[h] == entries[g]);
            assert(is_file_entry(entries[g]));
        }
        assert(yields_image(rest, j));
    }
    assert forall|j: int| #[trigger] yields_image(rest, j) implies exists|i: int| #[trigger]
        yields_image(entries, i) && entries[i] == rest[j] by {
        let i = if j < k {
            j
        } else {
            j + 1
        };
        assert(rest[j] == entries[i]);
        assert forall|g: int| i < g < entries.len() && is_file_entry(
            #[trigger] entries[g],
        ) implies entry_name(entries[g]) != entry_name(entries[i]) by {
            if g == k {
                assert(is_file_entry(entries[i]));
            } else {
                let h = if g < k {
                    g
                } else {
                    g - 1
                };
                assert(rest[h] == entries[g]);
                assert(is_file_entry(rest[h]));
            }
        }
        assert(yields_image(entries, i));
    }
    lemma_same_yields_same_selection(entries, rest);
}

/// An entry whose metadata cannot be read does not disturb the scan: the
/// selection is what it would be if the entry were not in the archive.
pub proof fn lemma_unreadable_metadata_is_passed_over(entries: Seq<Entry>, k: int)
    requires
        0 <= k < entries.len(),
        entries[k].header is None,
    ensures
        selected_image(entries) == selected_image(entries.remove(k)),
{
    lemma_removal_keeps_selection(entries, k);
}

/// A regular file that cannot be opened, read to its end or decoded does
/// not disturb the scan: the selection is what it would be if the entry
/// were not in the archive, provided no other regular file bears its name.
pub proof fn lemma_unreadable_content_is_passed_over(entries: Seq<Entry>, k: int)
    requires
        0 <= k < entries.len(),
        is_file_entry(entries[k]),
        entries[k].sizes is None || entries[k].content is None || decoded_image(
            entries[k].content->0,
        ) is None,
        forall|j: int|
            0 <= j < entries.len() && j != k && is_file_entry(#[trigger] entries[j])
                ==> entry_name(entries[j]) != entry_name(entries[k]),
    ensures
        selected_image(entries) == selected_image(entries.remove(k)),
{
    lemma_removal_keeps_selection(entries, k);
}

} // verus!
