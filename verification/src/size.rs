//! The size of a thumbnail, and its textual form `WIDTHxHEIGHT` or `DIM`.

use vstd::prelude::*;
use vstd::slice::slice_subrange;
use vstd::string::{StringExecFns, StringSliceAdditionalSpecFns};
use crate::ascii::ascii_bytes;

verus! {

/// Side of the square that a thumbnail is fitted into by default.
pub const DEFAULT_SIZE: u32 = 128;

/// Thumbnail size.
#[derive(Debug, Clone, Copy, PartialEq, Eq, Structural, PartialOrd, Ord, Hash)]
pub struct Size {
    /// Width of thumbnail.
    pub width: u32,
    /// Height of thumbnail.
    pub height: u32,
}

/// Why a text is not a size.
#[derive(Debug, Clone, Copy, PartialEq, Eq, Structural, Hash)]
pub enum ParseSizeError {
    /// A number was expected where the text holds nothing.
    Empty,
    /// A number holds something other than decimal digits after an
    /// optional leading `+`.
    InvalidDigit,
    /// A number is too large for a `u32`.
    Overflow,
}

/// The byte is an ASCII decimal digit.
pub open spec fn is_digit(byte: u8) -> bool {
    48 <= byte <= 57
}

/// The number that a string of decimal digits denotes.
pub open spec fn digits_value(digits: Seq<u8>) -> nat
    decreases digits.len(),
{
    if digits.len() == 0 {
        0
    } else {
        digits_value(digits.drop_last()) * 10 + (digits.last() - 48) as nat
    }
}

/// The index of the first byte at or after `from` that is no decimal digit,
/// or the length of the text if there is none.
pub open spec fn digits_end(text: Seq<u8>, from: int) -> int
    decreases text.len() - from,
{
    if 0 <= from < text.len() && is_digit(text[from]) {
        digits_end(text, from + 1)
    } else {
        from
    }
}

/// The text without the `+` it may begin with.
pub open spec fn unsigned_part(text: Seq<u8>) -> Seq<u8> {
    if text.len() > 0 && text[0] == 43 {
        text.skip(1)
    } else {
        text
    }
}

/// The number a text denotes: decimal digits after an optional `+`, read
/// from the left. The first fault met decides the error: a number already
/// past `u32::MAX`, or a byte that is no digit.
pub open spec fn parse_number(text: Seq<u8>) -> Result<u32, ParseSizeError> {
    let digits = unsigned_part(text);
    let end = digits_end(digits, 0);
    if text.len() == 0 {
        Err(ParseSizeError::Empty)
    } else if digits.len() == 0 {
        Err(ParseSizeError::InvalidDigit)
    } else if digits_value(digits.take(end)) > u32::MAX {
        Err(ParseSizeError::Overflow)
    } else if end < digits.len() {
        Err(ParseSizeError::InvalidDigit)
    } else {
        Ok(digits_value(digits) as u32)
    }
}

/// The index of the first `x` at or after `from`, if there is one.
pub open spec fn first_x(text: Seq<u8>, from: int) -> Option<int>
    decreases text.len() - from,
{
    if from < 0 || from >= text.len() {
        None
    } else if text[from] == 120 {
        Some(from)
    } else {
        first_x(text, from + 1)
    }
}

/// The size a text denotes: `WIDTHxHEIGHT`, split at the first `x`, or a
/// single number for both sides.
pub open spec fn parse_size(text: Seq<u8>) -> Result<Size, ParseSizeError> {
    match first_x(text, 0) {
        Some(at) => match parse_number(text.take(at)) {
            Err(err) => Err(err),
            Ok(width) => match parse_number(text.skip(at + 1)) {
                Err(err) => Err(err),
                Ok(height) => Ok(Size { width, height }),
            },
        },
        None => match parse_number(text) {
            Err(err) => Err(err),
            Ok(side) => Ok(Size { width: side, height: side }),
        },
    }
}

/// The decimal digits of a number, without leading zeros.
pub open spec fn decimal_text(n: nat) -> Seq<char>
    decreases n,
{
    if n < 10 {
        seq![(48 + n) as u8 as char]
    } else {
        decimal_text(n / 10).push((48 + n % 10) as u8 as char)
    }
}

/// The decimal text of a number is a run of digits that denotes it.
proof fn lemma_decimal_text(n: nat)
    ensures
        ascii_bytes(decimal_text(n)).len() >= 1,
        forall|i: int|
            0 <= i < ascii_bytes(decimal_text(n)).len() ==> is_digit(
                #[trigger] ascii_bytes(decimal_text(n))[i],
            ),
        digits_value(ascii_bytes(decimal_text(n))) == n,
    decreases n,
{
    let bytes = ascii_bytes(decimal_text(n));
    if n < 10 {
        assert(bytes =~= seq![(48 + n) as u8]);
        assert(bytes.drop_last() =~= Seq::<u8>::empty());
        assert(digits_value(bytes.drop_last()) == 0);
    } else {
        lemma_decimal_text(n / 10);
        let front = ascii_bytes(decimal_text(n / 10));
        assert(bytes =~= front.push((48 + n % 10) as u8));
        assert(bytes.drop_last() =~= front);
    }
}

/// The decimal text of a number that fits a `u32` reads back as that
/// number.
pub proof fn lemma_decimal_reads_back(n: u32)
    ensures
        parse_number(ascii_bytes(decimal_text(n as nat))) == Ok::<u32, ParseSizeError>(n),
{
    let bytes = ascii_bytes(decimal_text(n as nat));
    lemma_decimal_text(n as nat);
    assert(is_digit(bytes[0]));
    assert(unsigned_part(bytes) == bytes);
    lemma_digits_end(bytes, 0, bytes.len() as int);
    assert(bytes.take(bytes.len() as int) == bytes);
}

/// Where no byte from `from` up to `at` is an `x` and the one at `at` is,
/// the first `x` from `from` on is at `at`.
proof fn lemma_first_x(text: Seq<u8>, from: int, at: int)
    requires
        0 <= from <= at < text.len(),
        forall|i: int| from <= i < at ==> text[i] != 120,
        text[at] == 120,
    ensures
        first_x(text, from) == Some(at),
    decreases at - from,
{
    if from < at {
        lemma_first_x(text, from + 1, at);
    }
}

/// The text of a size reads back as that size.
pub proof fn lemma_size_reads_back(size: Size)
    ensures
        parse_size(ascii_bytes(size.text())) == Ok::<Size, ParseSizeError>(size),
{
    let width = ascii_bytes(decimal_text(size.width as nat));
    let height = ascii_bytes(decimal_text(size.height as nat));
    let text = ascii_bytes(size.text());
    let at = width.len() as int;
    lemma_decimal_text(size.width as nat);
    lemma_decimal_text(size.height as nat);
    lemma_decimal_reads_back(size.width);
    lemma_decimal_reads_back(size.height);
    assert(text =~= width + seq![120u8] + height);
    assert forall|i: int| 0 <= i < at implies text[i] != 120 by {
        assert(is_digit(width[i]));
    }
    lemma_first_x(text, 0, at);
    assert(text.take(at) =~= width);
    assert(text.skip(at + 1) =~= height);
}

/// A longer run of digits denotes no smaller a number.
proof fn lemma_value_grows(digits: Seq<u8>, shorter: int, longer: int)
    requires
        0 <= shorter <= longer <= digits.len(),
        forall|i: int| 0 <= i < longer ==> is_digit(digits[i]),
    ensures
        digits_value(digits.take(shorter)) <= digits_value(digits.take(longer)),
    decreases longer - shorter,
{
    if shorter < longer {
        lemma_value_grows(digits, shorter, longer - 1);
        assert(digits.take(longer).drop_last() == digits.take(longer - 1));
    }
}

/// Through a run of digits, the end of the run is the same from every
/// place in it.
proof fn lemma_digits_end(text: Seq<u8>, from: int, at: int)
    requires
        0 <= from <= at <= text.len(),
        forall|i: int| from <= i < at ==> is_digit(text[i]),
    ensures
        digits_end(text, from) == digits_end(text, at),
        at <= digits_end(text, at) <= text.len(),
        forall|i: int| at <= i < digits_end(text, at) ==> is_digit(text[i]),
    decreases text.len() - from,
{
    if from < at {
        lemma_digits_end(text, from + 1, at);
    } else if at < text.len() && is_digit(text[at]) {
        lemma_digits_end(text, at + 1, at + 1);
    }
}

/// Read a number in decimal digits, with an optional leading `+`.
pub fn parse_decimal(text: &[u8]) -> (r: Result<u32, ParseSizeError>)
    ensures
        r == parse_number(text@),
{
    if text.len() == 0 {
        return Err(ParseSizeError::Empty);
    }
    let digits = if text[0] == 43 {
        slice_subrange(text, 1, text.len())
    } else {
        text
    };
    assert(digits@ == unsigned_part(text@));
    if digits.len() == 0 {
        return Err(ParseSizeError::InvalidDigit);
    }
    let mut value: u32 = 0;
    let mut at: usize = 0;
    while at < digits.len()
        invariant
            text@.len() > 0,
            digits@ == unsigned_part(text@),
            digits@.len() > 0,
            0 <= at <= digits@.len(),
            forall|i: int| 0 <= i < at ==> is_digit(digits@[i]),
            value == digits_value(digits@.take(at as int)),
        decreases digits@.len() - at,
    {
        let byte = digits[at];
        proof {
            lemma_digits_end(digits@, 0, at as int);
            assert(digits@.take(at + 1).drop_last() == digits@.take(at as int));
        }
        if byte < 48 || byte > 57 {
            return Err(ParseSizeError::InvalidDigit);
        }
        let next = match value.checked_mul(10) {
            Some(tens) => tens.checked_add((byte - 48) as u32),
            None => None,
        };
        match next {
            Some(next) => {
                value = next;
            },
            None => {
                proof {
                    lemma_digits_end(digits@, 0, at + 1);
                    let end = digits_end(digits@, 0);
                    lemma_value_grows(digits@, at + 1, end);
                }
                return Err(ParseSizeError::Overflow);
            },
        }
        at += 1;
    }
    proof {
        lemma_digits_end(digits@, 0, at as int);
        assert(digits@.take(at as int) == digits@);
    }
    Ok(value)
}

/// Find the first `x` of a text.
fn find_x(text: &[u8]) -> (r: Option<usize>)
    ensures
        match r {
            Some(at) => first_x(text@, 0) == Some(at as int) && at < text@.len(),
            None => first_x(text@, 0) is None,
        },
{
    let mut at: usize = 0;
    while at < text.len()
        invariant
            0 <= at <= text@.len(),
            first_x(text@, 0) == first_x(text@, at as int),
        decreases text@.len() - at,
    {
        if text[at] == 120 {
            return Some(at);
        }
        at += 1;
    }
    None
}

impl Default for Size {
    fn default() -> (r: Self)
        ensures
            r == (Size { width: DEFAULT_SIZE, height: DEFAULT_SIZE }),
    {
        Size { width: DEFAULT_SIZE, height: DEFAULT_SIZE }
    }
}

impl Size {
    /// The textual form of the size.
    pub open spec fn text(self) -> Seq<char> {
        decimal_text(self.width as nat) + seq!['x'] + decimal_text(self.height as nat)
    }

    /// Read a size from the bytes of a text: `WIDTHxHEIGHT`, or a single
    /// number `DIM` standing for `DIMxDIM`.
    pub fn parse_bytes(text: &[u8]) -> (r: Result<Size, ParseSizeError>)
        ensures
            r == parse_size(text@),
    {
        match find_x(text) {
            Some(at) => {
                let width = match parse_decimal(slice_subrange(text, 0, at)) {
                    Ok(width) => width,
                    Err(err) => {
                        return Err(err);
                    },
                };
                let count = text.len();
                let height = match parse_decimal(slice_subrange(text, at + 1, count)) {
                    Ok(height) => height,
                    Err(err) => {
                        return Err(err);
                    },
                };
                Ok(Size { width, height })
            },
            None => match parse_decimal(text) {
                Ok(side) => Ok(Size { width: side, height: side }),
                Err(err) => Err(err),
            },
        }
    }

    /// Read a size from a text: `WIDTHxHEIGHT`, or a single number `DIM`
    /// standing for `DIMxDIM`.
    pub fn parse(text: &str) -> (r: Result<Size, ParseSizeError>)
        ensures
            r == parse_size(text.spec_bytes()),
    {
        Size::parse_bytes(text.as_bytes())
    }

    /// Read a size from a text that may be missing: the default size where
    /// there is no text or the text is not a size.
    pub fn parse_or_default(text: Option<&str>) -> (r: Size)
        ensures
            r == match text {
                Some(text) => match parse_size(text.spec_bytes()) {
                    Ok(size) => size,
                    Err(_) => Size { width: DEFAULT_SIZE, height: DEFAULT_SIZE },
                },
                None => Size { width: DEFAULT_SIZE, height: DEFAULT_SIZE },
            },
    {
        match text {
            Some(text) => match Size::parse(text) {
                Ok(size) => size,
                Err(_) => Size { width: DEFAULT_SIZE, height: DEFAULT_SIZE },
            },
            None => Size { width: DEFAULT_SIZE, height: DEFAULT_SIZE },
        }
    }

    /// Write the size as `WIDTHxHEIGHT`.
    pub fn to_text(&self) -> (r: String)
        ensures
            r@ == self.text(),
    {
        let mut text = decimal(self.width);
        text.append("x");
        let height = decimal(self.height);
        text.append(height.as_str());
        proof {
            reveal_strlit("x");
            assert("x"@ == seq!['x']);
        }
        text
    }
}

impl core::str::FromStr for Size {
    type Err = ParseSizeError;

    fn from_str(text: &str) -> (r: Result<Self, Self::Err>)
        ensures
            r == parse_size(text.spec_bytes()),
    {
        Size::parse(text)
    }
}

impl ParseSizeError {
    /// The text of the message for this error.
    pub open spec fn message_text(self) -> Seq<char> {
        match self {
            ParseSizeError::Empty => "cannot parse integer from empty string"@,
            ParseSizeError::InvalidDigit => "invalid digit found in string"@,
            ParseSizeError::Overflow => "number too large to fit in target type"@,
        }
    }

    /// A human-readable message for this error.
    pub fn message(&self) -> (r: String)
        ensures
            r@ == self.message_text(),
    {
        match self {
            ParseSizeError::Empty => "cannot parse integer from empty string".to_owned(),
            ParseSizeError::InvalidDigit => "invalid digit found in string".to_owned(),
            ParseSizeError::Overflow => "number too large to fit in target type".to_owned(),
        }
    }
}

/// Formats a `u32` through its `Display` impl of the standard library.
///
/// Assumed: the text is the number in decimal digits, without sign or
/// leading zeros.
#[verifier::external_body]
fn decimal(n: u32) -> (r: String)
    ensures
        r@ == decimal_text(n as nat),
{
    format!("{n}")
}

} // verus!
