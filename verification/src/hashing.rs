//! Digests computed by outside crates, under names for their results.

use vstd::prelude::*;

verus! {

/// The SHA-256 digest of `bytes`.
pub uninterp spec fn sha256_of(bytes: Seq<u8>) -> Seq<u8>;

/// The SHA-256 digest of the UTF-8 encoding of `text`.
pub open spec fn sha256_of_text(text: Seq<char>) -> Seq<u8> {
    sha256_of(vstd::utf8::encode_utf8(text))
}

/// `sha2::Sha256::digest` of `data`; its result depends on `data` alone.
#[verifier::external_body]
pub(crate) fn sha256(data: &[u8]) -> (r: Vec<u8>)
    ensures
        r@ == sha256_of(data@),
{
    <sha2::Sha256 as sha2::Digest>::digest(data).to_vec()
}

/// The SHA-256 digest of the UTF-8 bytes of `text`.
pub(crate) fn sha256_text(text: &str) -> (r: Vec<u8>)
    ensures
        r@ == sha256_of_text(text@),
{
    sha256(text.as_bytes())
}

/// The lower-case hexadecimal digit for `d` (below 16).
pub open spec fn hex_digit(d: int) -> char {
    if d < 10 {
        ('0' as int + d) as char
    } else {
        ('a' as int + d - 10) as char
    }
}

/// `bytes` written as lower-case hexadecimal, two digits per byte, the
/// high half first.
pub open spec fn hex_lower(bytes: Seq<u8>) -> Seq<char>
    decreases bytes.len(),
{
    if bytes.len() == 0 {
        Seq::empty()
    } else {
        let b = bytes.last();
        hex_lower(bytes.drop_last()).push(hex_digit((b / 16) as int)).push(hex_digit((b % 16) as int))
    }
}

fn hex_digit_exec(d: u8) -> (c: char)
    requires
        d < 16,
    ensures
        c == hex_digit(d as int),
{
    if d < 10 {
        (48u8 + d) as char
    } else {
        (87u8 + d) as char
    }
}

/// The lower-case hexadecimal form of `bytes`.
pub fn hex_encode(bytes: &[u8]) -> (r: String)
    ensures
        r@ == hex_lower(bytes@),
{
    let mut out: Vec<char> = Vec::new();
    let n = bytes.len();
    let mut i: usize = 0;
    while i < n
        invariant
            n == bytes@.len(),
            i <= n,
            out@ == hex_lower(bytes@.subrange(0, i as int)),
        decreases n - i,
    {
        let b = bytes[i];
        proof {
            assert(bytes@.subrange(0, i as int + 1).drop_last() =~= bytes@.subrange(0, i as int));
        }
        out.push(hex_digit_exec(b / 16));
        out.push(hex_digit_exec(b % 16));
        i = i + 1;
    }
    assert(bytes@.subrange(0, n as int) =~= bytes@);
    crate::text::string_of(&out)
}

/// The BLAKE3 hash of `bytes`.
pub uninterp spec fn blake3_of(bytes: Seq<u8>) -> Seq<u8>;

/// `blake3::hash` of `bytes`, as its 32 bytes; its result depends on
/// `bytes` alone.
#[verifier::external_body]
pub(crate) fn blake3_hash(bytes: &[u8]) -> (r: [u8; 32])
    ensures
        r@ == blake3_of(bytes@),
{
    *blake3::hash(bytes).as_bytes()
}

} // verus!
