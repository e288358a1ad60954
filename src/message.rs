//! The message schema carried in frame payloads: a protocol-buffer message
//! whose field 1 is a string (`message M { string text = 1; }`),
//! decoded and encoded by prost, and the text rewrite applied to that field.

use vstd::prelude::*;

verus! {

#[verifier::external_type_specification]
#[verifier::external_body]
pub struct ExDecodeError(prost::DecodeError);

/// The text field that prost decodes from `b`, or `None` where `b` is not a
/// valid encoding of the message.
pub uninterp spec fn text_decoded(b: Seq<u8>) -> Option<Seq<char>>;

/// The UTF-8 encoding of one character.
pub open spec fn utf8_char(c: char) -> Seq<u8> {
    let v = c as u32;
    if v < 0x80 {
        seq![v as u8]
    } else if v < 0x800 {
        seq![(0xC0 | (v >> 6u32)) as u8, (0x80 | (v & 0x3F)) as u8]
    } else if v < 0x10000 {
        seq![(0xE0 | (v >> 12u32)) as u8, (0x80 | ((v >> 6u32) & 0x3F)) as u8, (0x80 | (v & 0x3F)) as u8]
    } else {
        seq![
            (0xF0 | (v >> 18u32)) as u8,
            (0x80 | ((v >> 12u32) & 0x3F)) as u8,
            (0x80 | ((v >> 6u32) & 0x3F)) as u8,
            (0x80 | (v & 0x3F)) as u8,
        ]
    }
}

/// The UTF-8 encoding of a text.
pub open spec fn utf8(s: Seq<char>) -> Seq<u8>
    decreases s.len(),
{
    if s.len() == 0 {
        Seq::empty()
    } else {
        utf8(s.drop_last()) + utf8_char(s.last())
    }
}

/// The protobuf varint of `n`: seven bits per byte, least significant first,
/// the high bit set on every byte but the last.
pub open spec fn varint(n: nat) -> Seq<u8>
    decreases n,
{
    if n < 0x80 {
        seq![n as u8]
    } else {
        seq![((n % 0x80) + 0x80) as u8] + varint(n / 0x80)
    }
}

/// The bytes of a message whose text field is `s`: nothing for an empty text,
/// else the key of field 1 with the length-delimited wire type (`0x0A`), the
/// varint byte length of the text, and its UTF-8 bytes.
pub open spec fn text_encoded(s: Seq<char>) -> Seq<u8> {
    if s.len() == 0 {
        Seq::empty()
    } else {
        seq![0x0Au8] + varint(utf8(s).len()) + utf8(s)
    }
}

/// Relies on `<String as prost::Message>::decode`, prost's codec for a message
/// whose only known field is string field 1 (other fields are skipped).
#[verifier::external_body]
pub(crate) fn decode_text(payload: &[u8]) -> (r: Result<String, prost::DecodeError>)
    ensures
        r is Ok <==> text_decoded(payload@) is Some,
        r is Ok ==> text_decoded(payload@) == Some(r->Ok_0@),
{
    <String as prost::Message>::decode(payload)
}

/// Relies on `prost::Message::encode_to_vec` for `String`: an empty text (the
/// default) is not written; otherwise `string::encode` writes the key of field
/// 1, the varint byte length and the UTF-8 bytes of the text.
#[verifier::external_body]
pub(crate) fn encode_text(text: &String) -> (r: Vec<u8>)
    ensures
        r@ == text_encoded(text@),
{
    prost::Message::encode_to_vec(text)
}

/// `s` with every match of `pat` replaced by `rep`, matches taken from the left
/// without overlap. An empty pattern matches before each character and at the end.
pub open spec fn replaced(s: Seq<char>, pat: Seq<char>, rep: Seq<char>) -> Seq<char>
    decreases s.len(),
{
    if pat.len() == 0 {
        if s.len() == 0 {
            rep
        } else {
            rep + seq![s[0]] + replaced(s.skip(1), pat, rep)
        }
    } else if s.len() == 0 {
        Seq::empty()
    } else if s.len() >= pat.len() && s.subrange(0, pat.len() as int) == pat {
        rep + replaced(s.skip(pat.len() as int), pat, rep)
    } else {
        seq![s[0]] + replaced(s.skip(1), pat, rep)
    }
}

/// Relies on `str::replace`: all non-overlapping matches of `pat`, found from
/// the left, are replaced by `rep`.
#[verifier::external_body]
pub(crate) fn replace_all(s: &str, pat: &str, rep: &str) -> (r: String)
    ensures
        r@ == replaced(s@, pat@, rep@),
{
    s.replace(pat, rep)
}

} // verus!
