//! The name hash of a catalog: a 64-bit digest of the names of its files.

use vstd::prelude::*;
use vstd::arithmetic::div_mod::lemma_add_mod_noop;
use vstd::bytes::{
    lemma_auto_spec_u64_to_from_le_bytes, spec_u64_from_le_bytes, spec_u64_to_le_bytes,
    u64_from_le_bytes, u64_to_le_bytes,
};
use vstd::slice::slice_subrange;
use vstd::string::StringSliceAdditionalSpecFns;
use crate::ascii::ascii_bytes;

verus! {

/// `sha2::Sha256`, a running SHA-256 computation.
#[verifier::external_type_specification]
#[verifier::external_body]
pub struct ExSha256(sha2::Sha256);

/// The bytes fed into a hasher so far.
pub uninterp spec fn hasher_input(hasher: sha2::Sha256) -> Seq<u8>;

/// The SHA-256 digest of a byte string.
pub uninterp spec fn sha256(bytes: Seq<u8>) -> Seq<u8>;

/// Calls `sha2::Digest::new` for SHA-256.
///
/// Assumed: a new hasher has been fed nothing.
#[verifier::external_body]
fn hasher_new() -> (hasher: sha2::Sha256)
    ensures
        hasher_input(hasher) == Seq::<u8>::empty(),
{
    sha2::Digest::new()
}

/// Calls `sha2::Digest::chain_update`.
///
/// Assumed: the bytes are appended to what the hasher was fed before.
#[verifier::external_body]
fn hasher_chain(hasher: sha2::Sha256, bytes: &[u8]) -> (fed: sha2::Sha256)
    ensures
        hasher_input(fed) == hasher_input(hasher) + bytes@,
{
    sha2::Digest::chain_update(hasher, bytes)
}

/// Calls `sha2::Digest::finalize`.
///
/// Assumed: the result is the digest of all that the hasher was fed, in the
/// order in which it was fed; it is 32 bytes long.
#[verifier::external_body]
fn hasher_finalize(hasher: sha2::Sha256) -> (digest: Vec<u8>)
    ensures
        digest@ == sha256(hasher_input(hasher)),
        digest@.len() == 32,
{
    sha2::Digest::finalize(hasher).to_vec()
}

/// A lowercase hexadecimal digit, as a character.
pub open spec fn hex_digit(nibble: int) -> char {
    if nibble < 10 {
        (48 + nibble) as u8 as char
    } else {
        (87 + nibble) as u8 as char
    }
}

/// A byte string in lowercase hexadecimal, two digits to the byte.
pub open spec fn hex_text(bytes: Seq<u8>) -> Seq<char> {
    Seq::new(
        2 * bytes.len(),
        |i: int|
            if i % 2 == 0 {
                hex_digit(bytes[i / 2] as int / 16)
            } else {
                hex_digit(bytes[i / 2] as int % 16)
            },
    )
}

/// The value of a hexadecimal digit of either case, or `None` for any
/// other byte.
pub open spec fn hex_value(byte: u8) -> Option<int> {
    if 48 <= byte <= 57 {
        Some(byte - 48)
    } else if 97 <= byte <= 102 {
        Some(byte - 87)
    } else if 65 <= byte <= 70 {
        Some(byte - 55)
    } else {
        None
    }
}

/// The bytes that a hexadecimal text of `2 * count` digits denotes, or
/// `None` if it has another length or holds anything but digits.
pub open spec fn hex_bytes(text: Seq<u8>, count: nat) -> Option<Seq<u8>> {
    if text.len() == 2 * count && forall|i: int| 0 <= i < text.len() ==> hex_value(text[i]) is Some {
        Some(
            Seq::new(
                count,
                |k: int| (hex_value(text[2 * k])->0 * 16 + hex_value(text[2 * k + 1])->0) as u8,
            ),
        )
    } else {
        None
    }
}

/// A byte string written in hexadecimal reads back as the same bytes.
pub proof fn lemma_hex_reads_back(bytes: Seq<u8>)
    ensures
        hex_bytes(ascii_bytes(hex_text(bytes)), bytes.len()) == Some(bytes),
{
    let text = ascii_bytes(hex_text(bytes));
    assert forall|i: int| 0 <= i < text.len() implies hex_value(#[trigger] text[i]) == Some(
        if i % 2 == 0 {
            bytes[i / 2] as int / 16
        } else {
            bytes[i / 2] as int % 16
        },
    ) by {
        let byte = bytes[i / 2];
        assert(0 <= byte as int / 16 < 16);
        assert(0 <= byte as int % 16 < 16);
    }
    let read = Seq::new(
        bytes.len(),
        |k: int| (hex_value(text[2 * k])->0 * 16 + hex_value(text[2 * k + 1])->0) as u8,
    );
    assert forall|k: int| 0 <= k < bytes.len() implies read[k] == bytes[k] by {
        assert(hex_value(text[2 * k]) == Some(bytes[k] as int / 16));
        assert(hex_value(text[2 * k + 1]) == Some(bytes[k] as int % 16));
    }
    assert(read =~= bytes);
}

/// Calls `hex::encode`.
///
/// Assumed: each byte becomes two lowercase hexadecimal digits, the high
/// half first.
#[verifier::external_body]
fn hex_encode(bytes: &[u8]) -> (text: String)
    ensures
        text@ == hex_text(bytes@),
{
    hex::encode(bytes)
}

/// Calls `hex::decode_to_slice` with a buffer of eight bytes.
///
/// Assumed: it succeeds exactly on sixteen hexadecimal digits of either
/// case, each pair giving one byte, the high half first.
#[verifier::external_body]
fn hex_decode_8(text: &[u8]) -> (bytes: Option<[u8; 8]>)
    ensures
        match bytes {
            Some(bytes) => hex_bytes(text@, 8) == Some(bytes@),
            None => hex_bytes(text@, 8) is None,
        },
{
    let mut bytes = [0u8; 8];
    match hex::decode_to_slice(text, &mut bytes) {
        Ok(()) => Some(bytes),
        Err(_) => None,
    }
}

/// The byte strings joined end to end.
pub open spec fn joined(parts: Seq<Seq<u8>>) -> Seq<u8>
    decreases parts.len(),
{
    if parts.len() == 0 {
        Seq::empty()
    } else {
        joined(parts.drop_last()) + parts.last()
    }
}

/// The sum of the first `chunks` groups of eight bytes, each read as a
/// little-endian number.
pub open spec fn chunk_sum(bytes: Seq<u8>, chunks: int) -> int
    decreases chunks,
{
    if chunks <= 0 {
        0
    } else {
        chunk_sum(bytes, chunks - 1) + spec_u64_from_le_bytes(
            bytes.subrange(8 * (chunks - 1), 8 * chunks),
        )
    }
}

/// A digest folded into 64 bits: the sum, modulo 2^64, of its complete
/// groups of eight bytes, each read as a little-endian number. Bytes past
/// the last complete group do not count.
pub open spec fn folded(digest: Seq<u8>) -> u64 {
    (chunk_sum(digest, digest.len() as int / 8) % 0x1_0000_0000_0000_0000) as u64
}

/// Wrapper for name hash.
#[derive(Debug, Clone, Copy, PartialEq, Eq, Structural, PartialOrd, Ord, Hash)]
pub struct NameHash(pub u64);

impl NameHash {
    /// The textual form of the hash: its eight bytes, least significant
    /// first, in lowercase hexadecimal.
    pub open spec fn text(self) -> Seq<char> {
        hex_text(spec_u64_to_le_bytes(self.0))
    }

    /// The textual form of a hash reads back as that hash.
    pub proof fn lemma_text_reads_back(self)
        ensures
            hex_bytes(ascii_bytes(self.text()), 8) matches Some(bytes) && spec_u64_from_le_bytes(
                bytes,
            ) == self.0,
    {
        lemma_auto_spec_u64_to_from_le_bytes();
        lemma_hex_reads_back(spec_u64_to_le_bytes(self.0));
    }

    /// Fold a digest into a name hash.
    pub fn from_digest(digest: &[u8]) -> (r: NameHash)
        ensures
            r.0 == folded(digest@),
    {
        let count = digest.len();
        let chunks = count / 8;
        let mut sum: u64 = 0;
        let mut done: usize = 0;
        while done < chunks
            invariant
                count == digest@.len(),
                chunks == count / 8,
                0 <= done <= chunks,
                sum == chunk_sum(digest@, done as int) % 0x1_0000_0000_0000_0000,
            decreases chunks - done,
        {
            let chunk = u64_from_le_bytes(slice_subrange(digest, 8 * done, 8 * done + 8));
            proof {
                lemma_add_mod_noop(
                    chunk_sum(digest@, done as int),
                    chunk as int,
                    0x1_0000_0000_0000_0000,
                );
            }
            sum = chunk.wrapping_add(sum);
            done += 1;
        }
        NameHash(sum)
    }

    /// The name hash of a catalog, from the names of its regular files in
    /// the order in which a walk sorted by file name meets them: the SHA-256
    /// digest of the names joined end to end, folded into 64 bits.
    pub fn from_katalog(file_names: &Vec<Vec<u8>>) -> (r: NameHash)
        ensures
            r.0 == folded(sha256(joined(file_names.deep_view()))),
            sha256(joined(file_names.deep_view())).len() == 32,
    {
        let mut hasher = hasher_new();
        let mut at: usize = 0;
        while at < file_names.len()
            invariant
                0 <= at <= file_names@.len(),
                hasher_input(hasher) == joined(file_names.deep_view().take(at as int)),
            decreases file_names@.len() - at,
        {
            hasher = hasher_chain(hasher, file_names[at].as_slice());
            proof {
                let parts = file_names.deep_view();
                assert(parts.take(at + 1).drop_last() == parts.take(at as int));
                assert(parts.take(at + 1).last() == file_names@[at as int]@);
            }
            at += 1;
        }
        proof {
            assert(file_names.deep_view().take(at as int) == file_names.deep_view());
        }
        let digest = hasher_finalize(hasher);
        NameHash::from_digest(digest.as_slice())
    }

    /// Write the hash as sixteen lowercase hexadecimal digits.
    pub fn to_hex(&self) -> (r: String)
        ensures
            r@ == self.text(),
    {
        let bytes = u64_to_le_bytes(self.0);
        hex_encode(bytes.as_slice())
    }

    /// Read a hash from sixteen hexadecimal digits of either case.
    pub fn from_hex(text: &str) -> (r: Option<NameHash>)
        ensures
            match r {
                Some(hash) => hex_bytes(text.spec_bytes(), 8) matches Some(bytes) && hash.0
                    == spec_u64_from_le_bytes(bytes),
                None => hex_bytes(text.spec_bytes(), 8) is None,
            },
    {
        match hex_decode_8(text.as_bytes()) {
            Some(bytes) => Some(NameHash(u64_from_le_bytes(bytes.as_slice()))),
            None => None,
        }
    }
}

} // verus!
