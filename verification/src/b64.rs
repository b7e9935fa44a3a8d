//! Base64 inline-data encoding of screenshot bytes.

use vstd::prelude::*;
use vstd::string::StringExecFns;

verus! {

/// The 64 digit characters of standard base64, in order.
pub open spec fn base64_digits() -> Seq<char> {
    "ABCDEFGHIJKLMNOPQRSTUVWXYZabcdefghijklmnopqrstuvwxyz0123456789+/"@
}

/// The digit character that stands for the six-bit value `v`.
pub open spec fn base64_digit(v: int) -> char {
    base64_digits()[v]
}

/// Standard base64 of a byte sequence: the RFC 4648 standard alphabet, with
/// `=` padding, four output characters for every group of up to three bytes.
pub open spec fn base64_of(b: Seq<u8>) -> Seq<char>
    decreases b.len(),
{
    if b.len() == 0 {
        Seq::empty()
    } else if b.len() == 1 {
        let x = b[0] as int;
        seq![base64_digit(x / 4), base64_digit((x % 4) * 16), '=', '=']
    } else if b.len() == 2 {
        let x = b[0] as int;
        let y = b[1] as int;
        seq![
            base64_digit(x / 4),
            base64_digit((x % 4) * 16 + y / 16),
            base64_digit((y % 16) * 4),
            '=',
        ]
    } else {
        let x = b[0] as int;
        let y = b[1] as int;
        let z = b[2] as int;
        seq![
            base64_digit(x / 4),
            base64_digit((x % 4) * 16 + y / 16),
            base64_digit((y % 16) * 4 + z / 64),
            base64_digit(z % 64),
        ] + base64_of(b.skip(3))
    }
}

/// Relies on base64's `engine::general_purpose::STANDARD` engine: RFC 4648
/// standard-alphabet base64 with `=` padding, a function of the bytes alone.
#[verifier::external_body]
fn base64_encode(bytes: &Vec<u8>) -> (r: String)
    ensures
        r@ == base64_of(bytes@),
{
    base64::Engine::encode(&base64::engine::general_purpose::STANDARD, bytes.as_slice())
}

/// The inline-data form of screenshot bytes: a data-URI-style header followed
/// by the base64 payload.
pub open spec fn data_uri_of(b: Seq<u8>) -> Seq<char> {
    "data:image/*;base64,"@ + base64_of(b)
}

/// Encode screenshot bytes as the inline-data string handed back to the host.
pub fn screenshot_data_uri(bytes: &Vec<u8>) -> (r: String)
    ensures
        r@ == data_uri_of(bytes@),
{
    let header = String::from_str("data:image/*;base64,");
    let payload = base64_encode(bytes);
    header.concat(payload.as_str())
}

} // verus!
