//! The value decoder: every plausible reading of a stored value, each tried on
//! its own and none of them taken as the right one.

use crate::words::{le_number, le_value, lemma_le_value_bound, lemma_pow256_8};
use vstd::prelude::*;
use vstd::utf8::{decode_utf8, valid_utf8};

verus! {

/// The column family whose values are merkle tree node records.
pub const MERKLE_CF_NAME: &'static str = "merkle_records";

/// The column family whose values are data hash records.
pub const DATA_CF_NAME: &'static str = "data_records";

/// The fixed record layout that a column family's values are stored in, if any.
#[derive(Debug, Clone, Copy, PartialEq, Eq, Structural)]
pub enum RecordKind {
    /// Merkle tree node records.
    Merkle,
    /// Data hash records.
    DataHash,
    /// No known record layout.
    Plain,
}

/// The record layout that values of the column family `name` are stored in.
pub open spec fn record_kind_of(name: Seq<char>) -> RecordKind {
    if name == "merkle_records"@ {
        RecordKind::Merkle
    } else if name == "data_records"@ {
        RecordKind::DataHash
    } else {
        RecordKind::Plain
    }
}

/// The record layout that values of the column family `name` are stored in.
pub fn record_kind(name: &str) -> (r: RecordKind)
    ensures
        r == record_kind_of(name@),
{
    let owned = name.to_owned();
    if owned.eq(&"merkle_records".to_owned()) {
        RecordKind::Merkle
    } else if owned.eq(&"data_records".to_owned()) {
        RecordKind::DataHash
    } else {
        RecordKind::Plain
    }
}

/// The lower-case hex digit for `n < 16`.
pub open spec fn lower_hex_digit(n: nat) -> char {
    seq!['0', '1', '2', '3', '4', '5', '6', '7', '8', '9', 'a', 'b', 'c', 'd', 'e', 'f'][n as int]
}

/// Two lower-case hex digits for each byte of `b`, high digit first.
pub open spec fn lower_hex_text(b: Seq<u8>) -> Seq<char> {
    Seq::new(
        2 * b.len(),
        |i: int|
            if i % 2 == 0 {
                lower_hex_digit((b[i / 2] / 16) as nat)
            } else {
                lower_hex_digit((b[i / 2] % 16) as nat)
            },
    )
}

/// Relies on hex::encode: two lower-case hex digits for each byte, high digit
/// first.
#[verifier::external_body]
fn encode_hex(b: &[u8]) -> (r: String)
    ensures
        r@ == lower_hex_text(b@),
{
    hex::encode(b)
}

/// Relies on std::str::from_utf8: it accepts exactly well-formed UTF-8 and
/// yields the characters it encodes.
#[verifier::external_body]
fn utf8_text(b: &[u8]) -> (r: Option<String>)
    ensures
        r is Some <==> valid_utf8(b@),
        r is Some ==> r->0@ == decode_utf8(b@),
{
    std::str::from_utf8(b).ok().map(|s| s.to_owned())
}

/// Every reading of one stored value.
#[derive(Debug)]
pub struct DecodedReport {
    /// The value's bytes as stored.
    pub bytes: Vec<u8>,
    /// The value as lower-case hex.
    pub hex: String,
    /// The record layout that the column family stores, to be decoded by the
    /// record's own codec.
    pub record: RecordKind,
    /// The value as a little-endian `u32`, when it is four bytes long.
    pub as_u32: Option<u32>,
    /// The value as a little-endian `u64`, when it is eight bytes long.
    pub as_u64: Option<u64>,
    /// The value as text, when it is well-formed UTF-8.
    pub text: Option<String>,
}

/// Lays out every reading of the stored value `value` from a column family
/// whose records are of `kind`. No value is refused: a reading that does not
/// apply is left out.
pub fn decode_value(value: &[u8], kind: RecordKind) -> (r: DecodedReport)
    ensures
        r.bytes@ == value@,
        r.hex@ == lower_hex_text(value@),
        r.record == kind,
        r.as_u32 == (if value@.len() == 4 {
            Some(le_value(value@) as u32)
        } else {
            None::<u32>
        }),
        r.as_u64 == (if value@.len() == 8 {
            Some(le_value(value@) as u64)
        } else {
            None::<u64>
        }),
        r.as_u32 is Some ==> le_value(value@) <= u32::MAX,
        !(r.as_u32 is Some && r.as_u64 is Some),
        r.text is Some <==> valid_utf8(value@),
        r.text is Some ==> r.text->0@ == decode_utf8(value@),
{
    let n = value.len();
    let as_u32 = if n == 4 {
        proof {
            lemma_le_value_bound(value@);
            lemma_pow256_8();
        }
        Some(le_number(value) as u32)
    } else {
        None
    };
    let as_u64 = if n == 8 {
        Some(le_number(value))
    } else {
        None
    };
    DecodedReport {
        bytes: vstd::slice::slice_to_vec(value),
        hex: encode_hex(value),
        record: kind,
        as_u32,
        as_u64,
        text: utf8_text(value),
    }
}

} // verus!
