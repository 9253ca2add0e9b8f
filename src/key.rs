//! The key codec: an operator-supplied key string to the bytes the store is
//! queried with.
//!
//! A key is written in one of three ways: a bracketed list of four unsigned
//! 64-bit numbers (each may end in `_u64`), a bracketed list of bytes, or hex
//! digits with an optional `0x` in front. A list of four that reads as 64-bit
//! numbers is taken as four little-endian words, a 256-bit value in limbs,
//! before it is tried as four bytes.

use crate::text::{
    chars_of, is_space, trim_end, trim_start, parse_u64, parse_u8, slice_chars, split_at_commas, split_commas, trim, trimmed,
    u64_value, u8_value,
};
use crate::words::{
    le_value, lemma_words_le_bytes_len, lemma_words_le_bytes_word, u64_le_bytes, words_le_bytes,
};
use vstd::prelude::*;

verus! {

/// Why a key string could not be read.
#[derive(Debug, Clone, Copy, PartialEq, Eq, Structural)]
pub enum KeyFormatError {
    /// A bracketed list with an element that is not an unsigned number of the
    /// width asked for.
    BadArrayElement,
    /// Text that is not an even number of hex digits after an optional `0x`.
    BadHex,
}

/// Which of the key grammars the text was read under.
#[derive(Debug, Clone, Copy, PartialEq, Eq, Structural)]
pub enum KeyForm {
    /// Four 64-bit numbers, each written as eight little-endian bytes.
    Words,
    /// A list of bytes.
    Bytes,
    /// Pairs of hex digits.
    Hex,
}

/// A key as the store is queried with it.
#[derive(Debug)]
pub struct ParsedKey {
    pub bytes: Vec<u8>,
    pub form: KeyForm,
}

impl ParsedKey {
    /// How many 64-bit words the key spans, when it has a positive length that
    /// is a multiple of eight.
    pub fn u64_word_count(&self) -> (r: Option<usize>)
        ensures
            r == (if self.bytes@.len() > 0 && self.bytes@.len() % 8 == 0 {
                Some((self.bytes@.len() / 8) as usize)
            } else {
                None::<usize>
            }),
    {
        let n = self.bytes.len();
        if n > 0 && n % 8 == 0 {
            Some(n / 8)
        } else {
            None
        }
    }
}

/// The character views of a list of character vectors.
pub open spec fn pieces_view(p: Seq<Vec<char>>) -> Seq<Seq<char>> {
    p.map_values(|v: Vec<char>| v@)
}

/// The key text, trimmed, has the shape `[...]`.
pub open spec fn is_array_text(s: Seq<char>) -> bool {
    let t = trim(s);
    t.len() >= 2 && t[0] == '[' && t.last() == ']'
}

/// What stands between the brackets of an array key.
pub open spec fn array_contents(s: Seq<char>) -> Seq<char> {
    let t = trim(s);
    t.subrange(1, t.len() - 1)
}

/// The elements of an array key: none for `[]`, else the pieces between commas.
pub open spec fn array_elements(s: Seq<char>) -> Seq<Seq<char>> {
    let c = array_contents(s);
    if c.len() == 0 {
        Seq::empty()
    } else {
        split_commas(c)
    }
}

/// `t` without one trailing `_u64`.
pub open spec fn strip_u64_suffix(t: Seq<char>) -> Seq<char> {
    if t.len() >= 4 && t.subrange(t.len() - 4, t.len() as int) == seq!['_', 'u', '6', '4'] {
        t.subrange(0, t.len() - 4)
    } else {
        t
    }
}

/// An element read as a 64-bit word: trimmed, then without a `_u64` suffix.
pub open spec fn word_of(e: Seq<char>) -> Option<u64> {
    u64_value(strip_u64_suffix(trim(e)))
}

/// An element read as a byte: trimmed.
pub open spec fn byte_of(e: Seq<char>) -> Option<u8> {
    u8_value(trim(e))
}

/// Exactly four elements, each of which reads as a 64-bit word.
pub open spec fn all_words(es: Seq<Seq<char>>) -> bool {
    es.len() == 4 && forall|k: int| 0 <= k < es.len() ==> (#[trigger] word_of(es[k])) is Some
}

pub open spec fn word_values(es: Seq<Seq<char>>) -> Seq<u64> {
    es.map_values(|e: Seq<char>| word_of(e)->0)
}

/// Every element reads as a byte.
pub open spec fn all_bytes(es: Seq<Seq<char>>) -> bool {
    forall|k: int| 0 <= k < es.len() ==> (#[trigger] byte_of(es[k])) is Some
}

pub open spec fn byte_values(es: Seq<Seq<char>>) -> Seq<u8> {
    es.map_values(|e: Seq<char>| byte_of(e)->0)
}

/// The key text without a leading `0x`.
pub open spec fn hex_body(s: Seq<char>) -> Seq<char> {
    if s.len() >= 2 && s[0] == '0' && s[1] == 'x' {
        s.subrange(2, s.len() as int)
    } else {
        s
    }
}

pub open spec fn is_hex_digit(c: char) -> bool {
    ('0' <= c && c <= '9') || ('a' <= c && c <= 'f') || ('A' <= c && c <= 'F')
}

pub open spec fn hex_digit_value(c: char) -> nat {
    if '0' <= c && c <= '9' {
        (c as nat - '0' as nat) as nat
    } else if 'a' <= c && c <= 'f' {
        (c as nat - 'a' as nat + 10) as nat
    } else {
        (c as nat - 'A' as nat + 10) as nat
    }
}

/// An even number of hex digits, of either case.
pub open spec fn is_hex_text(t: Seq<char>) -> bool {
    t.len() % 2 == 0 && forall|i: int| 0 <= i < t.len() ==> is_hex_digit(#[trigger] t[i])
}

/// The bytes that pairs of hex digits write, high digit first.
pub open spec fn hex_bytes(t: Seq<char>) -> Seq<u8> {
    Seq::new(
        t.len() / 2,
        |i: int| (16 * hex_digit_value(t[2 * i]) + hex_digit_value(t[2 * i + 1])) as u8,
    )
}

/// What a key string reads as: the bytes and the grammar, or why it reads as
/// none.
pub open spec fn key_reading(s: Seq<char>) -> Result<(Seq<u8>, KeyForm), KeyFormatError> {
    if is_array_text(s) {
        let es = array_elements(s);
        if all_words(es) {
            Ok((words_le_bytes(word_values(es)), KeyForm::Words))
        } else if all_bytes(es) {
            Ok((byte_values(es), KeyForm::Bytes))
        } else {
            Err(KeyFormatError::BadArrayElement)
        }
    } else {
        let h = hex_body(s);
        if is_hex_text(h) {
            Ok((hex_bytes(h), KeyForm::Hex))
        } else {
            Err(KeyFormatError::BadHex)
        }
    }
}

/// The error type of hex::decode, carried out of the call and then read as
/// `KeyFormatError::BadHex`.
#[verifier::external_type_specification]
#[verifier::external_body]
pub struct ExFromHexError(hex::FromHexError);

/// Relies on hex::decode: it accepts exactly an even number of hex digits of
/// either case, and writes each pair as one byte, high digit first.
#[verifier::external_body]
fn decode_hex(text: &Vec<char>) -> (r: Result<Vec<u8>, hex::FromHexError>)
    ensures
        r is Ok <==> is_hex_text(text@),
        r is Ok ==> r->Ok_0@ == hex_bytes(text@),
{
    let s: String = text.iter().collect();
    hex::decode(s)
}

/// Each element read as a 64-bit word, or `None` when one does not read so.
fn parse_words(pieces: &Vec<Vec<char>>) -> (r: Option<Vec<u64>>)
    ensures
        r is Some <==> forall|k: int|
            0 <= k < pieces@.len() ==> (#[trigger] word_of(pieces@[k]@)) is Some,
        r is Some ==> r->0@ == word_values(pieces_view(pieces@)),
{
    let mut out: Vec<u64> = Vec::new();
    let mut k: usize = 0;
    while k < pieces.len()
        invariant
            k <= pieces@.len(),
            out@.len() == k,
            forall|j: int| 0 <= j < k ==> (#[trigger] word_of(pieces@[j]@)) is Some,
            forall|j: int| 0 <= j < k ==> out@[j] == word_of(pieces@[j]@)->0,
        decreases pieces@.len() - k,
    {
        let t = trimmed(&pieces[k]);
        let n = t.len();
        let body = if n >= 4 && t[n - 4] == '_' && t[n - 3] == 'u' && t[n - 2] == '6' && t[n - 1]
            == '4' {
            assert(t@.subrange(n - 4, n as int) =~= seq!['_', 'u', '6', '4']);
            slice_chars(&t, 0, n - 4)
        } else {
            assert(n >= 4 ==> t@.subrange(n - 4, n as int)[0] == t@[n - 4]);
            assert(n >= 4 ==> t@.subrange(n - 4, n as int)[1] == t@[n - 3]);
            assert(n >= 4 ==> t@.subrange(n - 4, n as int)[2] == t@[n - 2]);
            assert(n >= 4 ==> t@.subrange(n - 4, n as int)[3] == t@[n - 1]);
            slice_chars(&t, 0, n)
        };
        assert(t@.subrange(0, n as int) =~= t@);
        assert(body@ == strip_u64_suffix(trim(pieces@[k as int]@)));
        match parse_u64(&body) {
            Some(v) => out.push(v),
            None => {
                assert(word_of(pieces@[k as int]@) is None);
                return None;
            },
        }
        k = k + 1;
    }
    assert(out@ =~= word_values(pieces_view(pieces@)));
    Some(out)
}

/// Each element read as a byte, or `None` when one does not read so.
fn parse_bytes(pieces: &Vec<Vec<char>>) -> (r: Option<Vec<u8>>)
    ensures
        r is Some <==> all_bytes(pieces_view(pieces@)),
        r is Some ==> r->0@ == byte_values(pieces_view(pieces@)),
{
    let ghost es = pieces_view(pieces@);
    let mut out: Vec<u8> = Vec::new();
    let mut k: usize = 0;
    while k < pieces.len()
        invariant
            k <= pieces@.len(),
            es == pieces_view(pieces@),
            out@.len() == k,
            forall|j: int| 0 <= j < k ==> (#[trigger] byte_of(es[j])) is Some,
            forall|j: int| 0 <= j < k ==> out@[j] == byte_of(es[j])->0,
        decreases pieces@.len() - k,
    {
        let t = trimmed(&pieces[k]);
        assert(es[k as int] == pieces@[k as int]@);
        match parse_u8(&t) {
            Some(v) => out.push(v),
            None => {
                assert(byte_of(es[k as int]) is None);
                return None;
            },
        }
        k = k + 1;
    }
    assert(out@ =~= byte_values(es));
    Some(out)
}

/// The little-endian bytes of each word, one word after another.
fn encode_words(ws: &Vec<u64>) -> (r: Vec<u8>)
    ensures
        r@ == words_le_bytes(ws@),
{
    let mut out: Vec<u8> = Vec::new();
    let mut k: usize = 0;
    while k < ws.len()
        invariant
            k <= ws@.len(),
            out@ == words_le_bytes(ws@.subrange(0, k as int)),
        decreases ws@.len() - k,
    {
        let mut b = u64_le_bytes(ws[k]);
        out.append(&mut b);
        assert(ws@.subrange(0, k + 1).drop_last() =~= ws@.subrange(0, k as int));
        k = k + 1;
    }
    assert(ws@.subrange(0, ws@.len() as int) =~= ws@);
    out
}

/// Reads a key string as the bytes the store is queried with.
///
/// A trimmed text of the shape `[...]` is a list: with four elements that all
/// read as 64-bit numbers, the key is their little-endian bytes, 32 in all;
/// otherwise every element must read as a byte. Any other text is hex digits,
/// after an optional `0x`.
pub fn parse_key(key_str: &str) -> (r: Result<ParsedKey, KeyFormatError>)
    ensures
        match r {
            Ok(k) => key_reading(key_str@) == Ok::<(Seq<u8>, KeyForm), KeyFormatError>(
                (k.bytes@, k.form),
            ),
            Err(e) => key_reading(key_str@) == Err::<(Seq<u8>, KeyForm), KeyFormatError>(e),
        },
{
    let chars = chars_of(key_str);
    let t = trimmed(&chars);
    let n = t.len();
    if n >= 2 && t[0] == '[' && t[n - 1] == ']' {
        let contents = slice_chars(&t, 1, n - 1);
        let pieces: Vec<Vec<char>> = if contents.len() == 0 {
            Vec::new()
        } else {
            split_at_commas(&contents)
        };
        let ghost es = array_elements(key_str@);
        assert(pieces_view(pieces@) =~= es);
        if pieces.len() == 4 {
            if let Some(ws) = parse_words(&pieces) {
                assert(forall|k: int| 0 <= k < es.len() ==> pieces@[k]@ == #[trigger] es[k]);
                return Ok(ParsedKey { bytes: encode_words(&ws), form: KeyForm::Words });
            }
        }
        assert(forall|k: int| 0 <= k < es.len() ==> pieces@[k]@ == #[trigger] es[k]);
        match parse_bytes(&pieces) {
            Some(b) => Ok(ParsedKey { bytes: b, form: KeyForm::Bytes }),
            None => Err(KeyFormatError::BadArrayElement),
        }
    } else {
        let m = chars.len();
        let body = if m >= 2 && chars[0] == '0' && chars[1] == 'x' {
            slice_chars(&chars, 2, m)
        } else {
            slice_chars(&chars, 0, m)
        };
        assert(chars@.subrange(0, m as int) =~= chars@);
        match decode_hex(&body) {
            Ok(b) => Ok(ParsedKey { bytes: b, form: KeyForm::Hex }),
            Err(_) => Err(KeyFormatError::BadHex),
        }
    }
}

/// Hex text, with or without `0x` in front, reads as the bytes its digit pairs
/// write.
pub proof fn lemma_hex_key_round_trip(s: Seq<char>)
    requires
        is_hex_text(hex_body(s)),
    ensures
        key_reading(s) == Ok::<(Seq<u8>, KeyForm), KeyFormatError>(
            (hex_bytes(hex_body(s)), KeyForm::Hex),
        ),
{
    let h = hex_body(s);
    if s.len() == 0 {
        assert(trim_start(s) == s);
        assert(trim_end(s) == s);
    } else {
        assert(s.len() >= 2 && s[0] == '0' && s[1] == 'x' ==> h[0] == s[2] || h.len() == 0);
        assert(!is_space(s[0]));
        assert(trim_start(s) == s);
        if h.len() > 0 {
            assert(h.last() == s.last());
        }
        assert(!is_space(s.last()));
        assert(trim_end(s) == s);
        assert(trim(s) == s);
    }
    assert(!is_array_text(s));
}

/// A list of four 64-bit numbers reads as 32 bytes, whose four groups of eight
/// read back, little-endian, as the four numbers in order.
pub proof fn lemma_word_array_key(s: Seq<char>)
    requires
        is_array_text(s),
        array_elements(s).len() == 4,
        forall|k: int| 0 <= k < 4 ==> (#[trigger] word_of(array_elements(s)[k])) is Some,
    ensures
        key_reading(s) is Ok,
        key_reading(s)->Ok_0.0.len() == 32,
        key_reading(s)->Ok_0.1 == KeyForm::Words,
        forall|k: int|
            0 <= k < 4 ==> le_value(#[trigger] key_reading(s)->Ok_0.0.subrange(8 * k, 8 * k + 8))
                == word_of(array_elements(s)[k])->0 as nat,
{
    let es = array_elements(s);
    assert(all_words(es));
    let ws = word_values(es);
    lemma_words_le_bytes_len(ws);
    assert forall|k: int| 0 <= k < 4 implies le_value(
        #[trigger] key_reading(s)->Ok_0.0.subrange(8 * k, 8 * k + 8),
    ) == word_of(es[k])->0 as nat by {
        lemma_words_le_bytes_word(ws, k);
    }
}

/// A list of four elements that all read as bytes, but not all as 64-bit
/// numbers, reads as those four bytes in order.
pub proof fn lemma_four_bytes_key(s: Seq<char>)
    requires
        is_array_text(s),
        array_elements(s).len() == 4,
        exists|k: int| 0 <= k < 4 && (#[trigger] word_of(array_elements(s)[k])) is None,
        all_bytes(array_elements(s)),
    ensures
        key_reading(s) == Ok::<(Seq<u8>, KeyForm), KeyFormatError>(
            (byte_values(array_elements(s)), KeyForm::Bytes),
        ),
        byte_values(array_elements(s)).len() == 4,
        forall|k: int|
            0 <= k < 4 ==> #[trigger] byte_values(array_elements(s))[k] == byte_of(
                array_elements(s)[k],
            )->0,
{
}

/// A list of any length but four reads only as bytes: it is accepted exactly
/// when every element reads as a byte, and is otherwise an element error.
pub proof fn lemma_other_arrays_are_bytes(s: Seq<char>)
    requires
        is_array_text(s),
        array_elements(s).len() != 4,
    ensures
        key_reading(s) is Ok <==> all_bytes(array_elements(s)),
        key_reading(s) is Ok ==> key_reading(s)->Ok_0.0 == byte_values(array_elements(s)),
        !all_bytes(array_elements(s)) ==> key_reading(s) == Err::<(Seq<u8>, KeyForm), KeyFormatError>(
            KeyFormatError::BadArrayElement,
        ),
{
}

} // verus!
