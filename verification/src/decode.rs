//! Byte decoding for the two input encodings the adapters use.
//!
//! The Postbank export is UTF-8; the Sparda export predates Unicode and is
//! windows-1252. Decoding is the one step of the pipeline done by outside
//! code; everything after it works on the decoded characters.

use vstd::prelude::*;

verus! {

/// The character the windows-1252 byte `b` decodes to.
///
/// Bytes below `0x80` are ASCII, bytes from `0xA0` up decode to the code
/// point of the same value, and the region `0x80`..`0x9F` holds the table
/// below; every byte decodes to exactly one character.
pub open spec fn w1252_char(b: u8) -> char {
    if b < 0x80 || b >= 0xA0 {
        b as char
    } else if b == 0x80 {
        '\u{20AC}'
    } else if b == 0x81 {
        '\u{0081}'
    } else if b == 0x82 {
        '\u{201A}'
    } else if b == 0x83 {
        '\u{0192}'
    } else if b == 0x84 {
        '\u{201E}'
    } else if b == 0x85 {
        '\u{2026}'
    } else if b == 0x86 {
        '\u{2020}'
    } else if b == 0x87 {
        '\u{2021}'
    } else if b == 0x88 {
        '\u{02C6}'
    } else if b == 0x89 {
        '\u{2030}'
    } else if b == 0x8A {
        '\u{0160}'
    } else if b == 0x8B {
        '\u{2039}'
    } else if b == 0x8C {
        '\u{0152}'
    } else if b == 0x8D {
        '\u{008D}'
    } else if b == 0x8E {
        '\u{017D}'
    } else if b == 0x8F {
        '\u{008F}'
    } else if b == 0x90 {
        '\u{0090}'
    } else if b == 0x91 {
        '\u{2018}'
    } else if b == 0x92 {
        '\u{2019}'
    } else if b == 0x93 {
        '\u{201C}'
    } else if b == 0x94 {
        '\u{201D}'
    } else if b == 0x95 {
        '\u{2022}'
    } else if b == 0x96 {
        '\u{2013}'
    } else if b == 0x97 {
        '\u{2014}'
    } else if b == 0x98 {
        '\u{02DC}'
    } else if b == 0x99 {
        '\u{2122}'
    } else if b == 0x9A {
        '\u{0161}'
    } else if b == 0x9B {
        '\u{203A}'
    } else if b == 0x9C {
        '\u{0153}'
    } else if b == 0x9D {
        '\u{009D}'
    } else if b == 0x9E {
        '\u{017E}'
    } else {
        '\u{0178}'
    }
}

/// The windows-1252 decoding of a byte sequence: one character per byte.
pub open spec fn w1252_decode(bytes: Seq<u8>) -> Seq<char> {
    Seq::new(bytes.len(), |i: int| w1252_char(bytes[i]))
}

/// Decodes windows-1252 bytes into text.
///
/// Relies on encoding_rs's `WINDOWS_1252` decoder: a single-byte encoding
/// that maps every byte to the one character given by its data table
/// (ASCII below `0x80`, the code point of the byte's value from `0xA0` up,
/// and the fixed table in between), so decoding never fails.
#[verifier::external_body]
pub(crate) fn decode_w1252(bytes: &[u8]) -> (r: String)
    ensures
        r@ == w1252_decode(bytes@),
{
    let (s, _had_errors) = encoding_rs::WINDOWS_1252.decode_without_bom_handling(bytes);
    s.into_owned()
}

/// Decodes UTF-8 bytes into text, or reports that they are not UTF-8.
///
/// Relies on `core::str::from_utf8`: it returns `Ok` exactly on well-formed
/// UTF-8 and the resulting string holds the decoded characters.
#[verifier::external_body]
pub(crate) fn decode_utf8_bytes(bytes: &[u8]) -> (r: Option<String>)
    ensures
        r is Some <==> vstd::utf8::valid_utf8(bytes@),
        r is Some ==> r->Some_0@ == vstd::utf8::decode_utf8(bytes@),
{
    match core::str::from_utf8(bytes) {
        Ok(s) => Some(s.to_owned()),
        Err(_) => None,
    }
}

} // verus!
