//! Base64, as the `base64` crate's standard engine writes and reads it,
//! JSON string literals as `serde_json` writes them, and whether the `image`
//! crate decodes some bytes as a picture.

use vstd::prelude::*;

verus! {

/// What standard (padded) base64 decoding gives for `input`, or `None`
/// when `input` is not valid base64.
pub uninterp spec fn base64_standard_decode(input: Seq<char>) -> Option<Seq<u8>>;

/// `base64::engine::general_purpose::STANDARD.decode`: the decoded bytes,
/// or `None` where the crate reports a decode error. Its result depends on
/// `encoded` alone.
#[verifier::external_body]
pub(crate) fn decode_base64(encoded: &str) -> (r: Option<Vec<u8>>)
    ensures
        match r {
            Some(b) => base64_standard_decode(encoded@) == Some(b@),
            None => base64_standard_decode(encoded@) is None,
        },
{
    base64::Engine::decode(&base64::engine::general_purpose::STANDARD, encoded).ok()
}

/// What standard (padded) base64 encoding writes for `input`.
pub uninterp spec fn base64_standard_encode(input: Seq<u8>) -> Seq<char>;

/// `base64::engine::general_purpose::STANDARD.encode`; its result depends on
/// `data` alone.
#[verifier::external_body]
pub(crate) fn encode_base64(data: &Vec<u8>) -> (r: String)
    ensures
        r@ == base64_standard_encode(data@),
{
    base64::Engine::encode(&base64::engine::general_purpose::STANDARD, data)
}

/// What URL-safe base64 without padding writes for `input`.
pub uninterp spec fn base64_url_no_pad_encode(input: Seq<u8>) -> Seq<char>;

/// The length of unpadded base64 for `n` bytes: four characters per three
/// bytes, and two or three for a final one or two.
pub open spec fn unpadded_len(n: nat) -> nat {
    n / 3 * 4 + if n % 3 == 0 {
        0nat
    } else if n % 3 == 1 {
        2nat
    } else {
        3nat
    }
}

/// `base64::engine::general_purpose::URL_SAFE_NO_PAD.encode`: a function of
/// `data` alone, as long as `encoded_len` says.
#[verifier::external_body]
pub(crate) fn encode_base64_url_no_pad(data: &Vec<u8>) -> (r: String)
    ensures
        r@ == base64_url_no_pad_encode(data@),
        r@.len() == unpadded_len(data@.len()),
{
    base64::Engine::encode(&base64::engine::general_purpose::URL_SAFE_NO_PAD, data)
}

/// What `serde_json` writes for a JSON string value holding `s`: the
/// characters in double quotes, with quotes, backslashes and control
/// characters escaped.
pub uninterp spec fn json_quoted(s: Seq<char>) -> Seq<char>;

/// No character of `s` needs an escape in a JSON string.
pub open spec fn json_plain(s: Seq<char>) -> bool {
    forall|i: int| 0 <= i < s.len() ==> {
        let c = #[trigger] s[i];
        c != '"' && c != '\\' && (c as u32) >= 0x20
    }
}

/// `serde_json::Value::String(..)` written out with `Display` (what
/// `format!("{}", json!(s))` gives): a function of `s` alone; where no
/// character needs an escape, `s` between two double quotes.
#[verifier::external_body]
pub(crate) fn json_string_literal(s: &str) -> (r: String)
    ensures
        r@ == json_quoted(s@),
        json_plain(s@) ==> r@ == seq!['"'] + s@ + seq!['"'],
{
    serde_json::Value::String(s.to_string()).to_string()
}

/// Whether `image::load_from_memory` decodes `bytes`: the format guessed
/// from the leading bytes, then the image decoded with the crate's default
/// limits.
pub uninterp spec fn image_decodes(bytes: Seq<u8>) -> bool;

/// `image::load_from_memory(bytes)` succeeded; a function of `bytes` alone.
#[verifier::external_body]
pub(crate) fn decodes_as_image(bytes: &[u8]) -> (r: bool)
    ensures
        r == image_decodes(bytes@),
{
    image::load_from_memory(bytes).is_ok()
}

} // verus!
