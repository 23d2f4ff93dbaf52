//! Random version-4 UUIDs and their text forms.

use vstd::prelude::*;
use crate::text::{ascii_uppercase, to_ascii_uppercase};

verus! {

/// The lower-case hexadecimal digit of a value `0..16`.
pub open spec fn hex_digit(v: int) -> char {
    if v < 10 {
        (v + 48) as char
    } else {
        (v - 10 + 97) as char
    }
}

/// The bytes as lower-case hexadecimal, two digits per byte, high digit first.
pub open spec fn simple_text(b: Seq<u8>) -> Seq<char>
    decreases b.len(),
{
    if b.len() == 0 {
        seq![]
    } else {
        simple_text(b.drop_last()) + seq![hex_digit((b.last() / 16) as int), hex_digit((b.last() % 16) as int)]
    }
}

/// The hyphenated form: the hexadecimal digits in groups of 8, 4, 4, 4 and 12
/// separated by `-`.
pub open spec fn hyphenated_text(b: Seq<u8>) -> Seq<char> {
    let s = simple_text(b);
    s.subrange(0, 8) + seq!['-'] + s.subrange(8, 12) + seq!['-'] + s.subrange(12, 16) + seq!['-']
        + s.subrange(16, 20) + seq!['-'] + s.subrange(20, 32)
}

/// Whether 16 bytes are a version-4 UUID of the RFC variant: the high nibble
/// of byte 6 is 4 and the two high bits of byte 8 are `10`.
pub open spec fn is_v4(b: Seq<u8>) -> bool {
    &&& b.len() == 16
    &&& b[6] / 16 == 4
    &&& b[8] / 64 == 2
}

/// The text of a UUID: hyphenated or plain hexadecimal, then upper-cased
/// when asked.
pub open spec fn uuid_text(b: Seq<u8>, hyphens: bool, upper: bool) -> Seq<char> {
    let t = if hyphens {
        hyphenated_text(b)
    } else {
        simple_text(b)
    };
    if upper {
        ascii_uppercase(t)
    } else {
        t
    }
}

/// The bytes of a fresh random UUID.
///
/// Calls `uuid::Uuid::new_v4`, which fills 128 bits from the operating
/// system's random source and then forces the version nibble to 4 and the
/// variant bits to `10`; only those forced bits are stated, the rest are
/// random. The call panics where no random bytes can be had, which the
/// contract cannot rule out.
#[verifier::external_body]
fn new_v4_bytes() -> (b: [u8; 16])
    ensures
        is_v4(b@),
{
    ::uuid::Uuid::new_v4().into_bytes()
}

/// The hyphenated text of a UUID (`Display` of `uuid::Uuid`), which the
/// crate writes as lower-case hexadecimal in groups of 8-4-4-4-12.
#[verifier::external_body]
fn hyphenated_uuid_text(b: [u8; 16]) -> (s: String)
    ensures
        s@ == hyphenated_text(b@),
{
    ::uuid::Uuid::from_bytes(b).to_string()
}

/// The plain text of a UUID (`Display` of `uuid::fmt::Simple`), which the
/// crate writes as 32 lower-case hexadecimal digits.
#[verifier::external_body]
fn simple_uuid_text(b: [u8; 16]) -> (s: String)
    ensures
        s@ == simple_text(b@),
{
    ::uuid::Uuid::from_bytes(b).simple().to_string()
}

/// The text of the UUID with the given bytes.
pub fn format_uuid(bytes: [u8; 16], hyphens: bool, upper: bool) -> (s: String)
    ensures
        s@ == uuid_text(bytes@, hyphens, upper),
{
    let my_uuid = if hyphens {
        hyphenated_uuid_text(bytes)
    } else {
        simple_uuid_text(bytes)
    };
    if upper {
        to_ascii_uppercase(my_uuid.as_str())
    } else {
        my_uuid
    }
}

/// A fresh random version-4 UUID as text. Drawing the random bytes panics
/// where the operating system's random source fails.
pub fn generate_uuid(hyphens: bool, upper: bool) -> (s: String)
    ensures
        exists|b: Seq<u8>| is_v4(b) && s@ == uuid_text(b, hyphens, upper),
{
    let bytes = new_v4_bytes();
    format_uuid(bytes, hyphens, upper)
}

pub proof fn lemma_simple_text_len(b: Seq<u8>)
    ensures
        simple_text(b).len() == 2 * b.len(),
    decreases b.len(),
{
    if b.len() > 0 {
        lemma_simple_text_len(b.drop_last());
    }
}

/// The hyphenated form is the plain form with a `-` put before hexadecimal
/// digits 8, 12, 16 and 20: 36 characters, `-` at 8, 13, 18 and 23, and the
/// plain digits in order everywhere else.
pub proof fn lemma_hyphenated_is_simple_with_hyphens(b: Seq<u8>)
    requires
        b.len() == 16,
    ensures
        hyphenated_text(b).len() == 36,
        simple_text(b).len() == 32,
        hyphenated_text(b)[8] == '-',
        hyphenated_text(b)[13] == '-',
        hyphenated_text(b)[18] == '-',
        hyphenated_text(b)[23] == '-',
        forall|i: int|
            0 <= i < 32 ==> hyphenated_text(b)[i + (if i >= 8 {
                1int
            } else {
                0
            }) + (if i >= 12 {
                1int
            } else {
                0
            }) + (if i >= 16 {
                1int
            } else {
                0
            }) + (if i >= 20 {
                1int
            } else {
                0
            })] == #[trigger] simple_text(b)[i],
{
    lemma_simple_text_len(b);
}

} // verus!
