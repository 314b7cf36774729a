//! Binary data as text: base64 and `data:` URLs.
use vstd::prelude::*;
use crate::text::concat;

verus! {

/// The base64 digit for a 6-bit value (RFC 4648 standard alphabet).
pub open spec fn base64_digit(v: int) -> char {
    if v < 26 {
        (65 + v) as char
    } else if v < 52 {
        (97 + v - 26) as char
    } else if v < 62 {
        (48 + v - 52) as char
    } else if v == 62 {
        '+'
    } else {
        '/'
    }
}

/// The standard base64 encoding (RFC 4648 alphabet, with `=` padding) of
/// `bytes`: each group of three bytes becomes four digits, and a last group
/// of one or two bytes becomes two or three digits padded with `=`.
pub open spec fn spec_base64(bytes: Seq<u8>) -> Seq<char>
    decreases bytes.len(),
{
    if bytes.len() == 0 {
        Seq::<char>::empty()
    } else if bytes.len() == 1 {
        let a = bytes[0] as int;
        seq![base64_digit(a / 4), base64_digit((a % 4) * 16), '=', '=']
    } else if bytes.len() == 2 {
        let a = bytes[0] as int;
        let b = bytes[1] as int;
        seq![
            base64_digit(a / 4),
            base64_digit((a % 4) * 16 + b / 16),
            base64_digit((b % 16) * 4),
            '=',
        ]
    } else {
        let a = bytes[0] as int;
        let b = bytes[1] as int;
        let c = bytes[2] as int;
        seq![
            base64_digit(a / 4),
            base64_digit((a % 4) * 16 + b / 16),
            base64_digit((b % 16) * 4 + c / 64),
            base64_digit(c % 64),
        ] + spec_base64(bytes.skip(3))
    }
}

/// Encodes bytes with `base64::engine::general_purpose::STANDARD`, which
/// writes the standard alphabet with `=` padding.
#[verifier::external_body]
fn base64_standard(bytes: &[u8]) -> (s: String)
    ensures
        s@ == spec_base64(bytes@),
{
    base64::Engine::encode(&base64::engine::general_purpose::STANDARD, bytes)
}

/// `bytes` as a `data:` URL of the given media type, base64-encoded.
pub fn data_url(mime: &str, bytes: &[u8]) -> (s: String)
    ensures
        s@ == "data:"@ + mime@ + ";base64,"@ + spec_base64(bytes@),
{
    let mut s = concat("data:", mime);
    s.append(";base64,");
    let b64 = base64_standard(bytes);
    s.append(b64.as_str());
    s
}

} // verus!
