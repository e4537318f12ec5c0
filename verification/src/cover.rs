//! Which files of a catalog can give its thumbnail, and in what order they
//! are tried: cover images first, then comic book archives.

use vstd::prelude::*;
use vstd::slice::slice_subrange;

verus! {

/// Kind of file found in a catalog.
#[derive(Debug, Clone, Copy, PartialEq, Eq, Structural, PartialOrd, Ord, Hash)]
pub enum FoundKind {
    /// An image file named as a cover.
    Cover,
    /// A comic book archive.
    Archive,
}

/// An ASCII letter in lower case; any other byte unchanged.
pub open spec fn lower(byte: u8) -> u8 {
    if 65 <= byte <= 90 {
        (byte + 32) as u8
    } else {
        byte
    }
}

/// Two byte strings are the same but for the case of ASCII letters.
pub open spec fn same_ignoring_case(a: Seq<u8>, b: Seq<u8>) -> bool {
    a.len() == b.len() && forall|i: int| 0 <= i < a.len() ==> lower(a[i]) == lower(b[i])
}

/// The index of the first `.` of the name at or after `from`.
pub open spec fn first_dot(name: Seq<u8>, from: int) -> Option<int>
    decreases name.len() - from,
{
    if from < 0 || from >= name.len() {
        None
    } else if name[from] == 46 {
        Some(from)
    } else {
        first_dot(name, from + 1)
    }
}

/// The index of the last `.` of the name before `before`.
pub open spec fn last_dot(name: Seq<u8>, before: int) -> Option<int>
    decreases before,
{
    if before <= 0 || before > name.len() {
        None
    } else if name[before - 1] == 46 {
        Some(before - 1)
    } else {
        last_dot(name, before - 1)
    }
}

/// The extension of a file name: what follows its last `.`, unless the
/// name has none or only begins with one.
pub open spec fn extension(name: Seq<u8>) -> Option<Seq<u8>> {
    match last_dot(name, name.len() as int) {
        Some(at) => if at > 0 {
            Some(name.skip(at + 1))
        } else {
            None
        },
        None => None,
    }
}

/// The prefix of a file name: what precedes its first `.`, not counting a
/// `.` that the name begins with; the whole name if there is no such `.`.
pub open spec fn file_prefix(name: Seq<u8>) -> Seq<u8> {
    match first_dot(name, 1) {
        Some(at) => name.take(at),
        None => name,
    }
}

/// The file is a comic book archive by its name: its extension is `cbz`
/// in any case.
pub open spec fn is_cbz(name: Seq<u8>) -> bool {
    extension(name) matches Some(ext) && same_ignoring_case(ext, seq![99u8, 98, 122])
}

/// The file is a cover by its name: its prefix is `cover` or `.cover` in
/// any case.
pub open spec fn is_cover(name: Seq<u8>) -> bool {
    same_ignoring_case(file_prefix(name), seq![99u8, 111, 118, 101, 114]) || same_ignoring_case(
        file_prefix(name),
        seq![46u8, 99, 111, 118, 101, 114],
    )
}

/// What a file of this name is taken for. An archive is recognised before
/// a cover.
pub open spec fn kind_of_name(name: Seq<u8>) -> Option<FoundKind> {
    if is_cbz(name) {
        Some(FoundKind::Archive)
    } else if is_cover(name) {
        Some(FoundKind::Cover)
    } else {
        None
    }
}

/// The indices below `upto` at which `kinds` holds `kind`, ascending.
pub open spec fn indices_of(kinds: Seq<FoundKind>, kind: FoundKind, upto: int) -> Seq<usize>
    decreases upto,
{
    if upto <= 0 {
        Seq::empty()
    } else if kinds[upto - 1] == kind {
        indices_of(kinds, kind, upto - 1).push((upto - 1) as usize)
    } else {
        indices_of(kinds, kind, upto - 1)
    }
}

/// The order in which found files are tried: all covers, then all
/// archives, each group in the order in which it was found.
pub open spec fn attempts(kinds: Seq<FoundKind>) -> Seq<usize> {
    indices_of(kinds, FoundKind::Cover, kinds.len() as int) + indices_of(
        kinds,
        FoundKind::Archive,
        kinds.len() as int,
    )
}

fn lower_byte(byte: u8) -> (r: u8)
    ensures
        r == lower(byte),
{
    if 65 <= byte && byte <= 90 {
        byte + 32
    } else {
        byte
    }
}

/// Compare two byte strings without regard to the case of ASCII letters.
pub fn eq_ignoring_case(a: &[u8], b: &[u8]) -> (r: bool)
    ensures
        r == same_ignoring_case(a@, b@),
{
    if a.len() != b.len() {
        return false;
    }
    let mut at: usize = 0;
    while at < a.len()
        invariant
            a@.len() == b@.len(),
            0 <= at <= a@.len(),
            forall|i: int| 0 <= i < at ==> lower(a@[i]) == lower(b@[i]),
        decreases a@.len() - at,
    {
        if lower_byte(a[at]) != lower_byte(b[at]) {
            return false;
        }
        at += 1;
    }
    true
}

/// The extension of a file name, if it has one.
pub fn name_extension(name: &[u8]) -> (r: Option<&[u8]>)
    ensures
        match r {
            Some(ext) => extension(name@) == Some(ext@),
            None => extension(name@) is None,
        },
{
    let count = name.len();
    let mut before: usize = count;
    while before > 0
        invariant
            count == name@.len(),
            0 <= before <= count,
            last_dot(name@, count as int) == last_dot(name@, before as int),
        decreases before,
    {
        if name[before - 1] == 46 {
            if before - 1 > 0 {
                return Some(slice_subrange(name, before, count));
            } else {
                return None;
            }
        }
        before -= 1;
    }
    None
}

/// The prefix of a file name.
pub fn name_prefix(name: &[u8]) -> (r: &[u8])
    ensures
        r@ == file_prefix(name@),
{
    let count = name.len();
    let mut at: usize = 1;
    while at < count
        invariant
            count == name@.len(),
            1 <= at,
            first_dot(name@, 1) == first_dot(name@, at as int),
        decreases count - at,
    {
        if name[at] == 46 {
            return slice_subrange(name, 0, at);
        }
        at += 1;
    }
    name
}

impl FoundKind {
    /// Classify a file by its name.
    pub fn of_name(name: &[u8]) -> (r: Option<FoundKind>)
        ensures
            r == kind_of_name(name@),
    {
        let cbz: [u8; 3] = [99, 98, 122];
        let cover: [u8; 5] = [99, 111, 118, 101, 114];
        let dot_cover: [u8; 6] = [46, 99, 111, 118, 101, 114];
        assert(cbz@ =~= seq![99u8, 98, 122]);
        assert(cover@ =~= seq![99u8, 111, 118, 101, 114]);
        assert(dot_cover@ =~= seq![46u8, 99, 111, 118, 101, 114]);
        let archive = match name_extension(name) {
            Some(ext) => eq_ignoring_case(ext, cbz.as_slice()),
            None => false,
        };
        if archive {
            return Some(FoundKind::Archive);
        }
        let prefix = name_prefix(name);
        if eq_ignoring_case(prefix, cover.as_slice()) || eq_ignoring_case(
            prefix,
            dot_cover.as_slice(),
        ) {
            Some(FoundKind::Cover)
        } else {
            None
        }
    }
}

fn collect_indices(kinds: &Vec<FoundKind>, kind: FoundKind, order: &mut Vec<usize>)
    ensures
        final(order)@ == old(order)@ + indices_of(kinds@, kind, kinds@.len() as int),
{
    let ghost start = order@;
    let mut at: usize = 0;
    while at < kinds.len()
        invariant
            0 <= at <= kinds@.len(),
            order@ == start + indices_of(kinds@, kind, at as int),
        decreases kinds@.len() - at,
    {
        if kinds[at] == kind {
            order.push(at);
            assert(order@ =~= start + indices_of(kinds@, kind, at + 1));
        }
        at += 1;
    }
}

/// The order in which to try the files found in a catalog, given the kind
/// of each in the order in which they were found.
pub fn attempt_order(kinds: &Vec<FoundKind>) -> (order: Vec<usize>)
    ensures
        order@ == attempts(kinds@),
{
    let mut order: Vec<usize> = Vec::new();
    collect_indices(kinds, FoundKind::Cover, &mut order);
    collect_indices(kinds, FoundKind::Archive, &mut order);
    order
}

} // verus!
