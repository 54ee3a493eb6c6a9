use vstd::prelude::*;
use base64::Engine;

verus! {

/// The SHA-1 digest of a byte string.
pub uninterp spec fn sha1_digest_of(data: Seq<u8>) -> Seq<u8>;

/// Symbol of a six-bit group in the standard base64 alphabet
/// (`A`-`Z`, `a`-`z`, `0`-`9`, `+`, `/`).
pub open spec fn base64_symbol(v: int) -> char {
    if v < 26 {
        (v + 65) as char
    } else if v < 52 {
        (v - 26 + 97) as char
    } else if v < 62 {
        (v - 52 + 48) as char
    } else if v == 62 {
        '+'
    } else {
        '/'
    }
}

/// Standard base64 with `=` padding: each three bytes become four symbols, and a final
/// group of one or two bytes becomes two or three symbols followed by padding.
pub open spec fn base64_of(data: Seq<u8>) -> Seq<char>
    decreases data.len(),
{
    if data.len() == 0 {
        Seq::empty()
    } else if data.len() == 1 {
        let a = data[0] as int;
        seq![base64_symbol(a / 4), base64_symbol((a % 4) * 16), '=', '=']
    } else if data.len() == 2 {
        let a = data[0] as int;
        let b = data[1] as int;
        seq![
            base64_symbol(a / 4),
            base64_symbol((a % 4) * 16 + b / 16),
            base64_symbol((b % 16) * 4),
            '=',
        ]
    } else {
        let a = data[0] as int;
        let b = data[1] as int;
        let c = data[2] as int;
        seq![
            base64_symbol(a / 4),
            base64_symbol((a % 4) * 16 + b / 16),
            base64_symbol((b % 16) * 4 + c / 64),
            base64_symbol(c % 64),
        ] + base64_of(data.subrange(3, data.len() as int))
    }
}

/// Base64 text is four symbols for every three bytes, the last group padded.
pub proof fn lemma_base64_len(data: Seq<u8>)
    ensures
        base64_of(data).len() == (data.len() + 2) / 3 * 4,
    decreases data.len(),
{
    if data.len() > 2 {
        lemma_base64_len(data.subrange(3, data.len() as int));
    }
}

/// Calls `ring::digest::digest` with `SHA1_FOR_LEGACY_USE_ONLY` and copies the digest out.
/// Claimed: the result is the SHA-1 digest of `data`, twenty bytes long. `ring` panics on
/// inputs of 2^61 bytes or more (SHA-1 counts the message length in 64 bits), hence the bound.
#[verifier::external_body]
pub(crate) fn sha1_digest(data: &[u8]) -> (digest: Vec<u8>)
    requires
        data@.len() < 0x2000_0000_0000_0000,
    ensures
        digest@ == sha1_digest_of(data@),
        digest@.len() == 20,
{
    ring::digest::digest(&ring::digest::SHA1_FOR_LEGACY_USE_ONLY, data).as_ref().to_vec()
}

/// Calls `base64::Engine::encode` on `base64::engine::general_purpose::STANDARD`.
/// Claimed: the result is the standard-alphabet, padded base64 text of `data`
/// (RFC 4648, section 4). The crate panics when the encoded length overflows `usize`,
/// hence the bound.
#[verifier::external_body]
pub(crate) fn base64_encode(data: &[u8]) -> (text: String)
    requires
        data@.len() / 3 * 4 + 4 <= usize::MAX,
    ensures
        text@ == base64_of(data@),
{
    base64::engine::general_purpose::STANDARD.encode(data)
}

} // verus!
