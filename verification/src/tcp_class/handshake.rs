use vstd::prelude::*;
use vstd::string::StringExecFns;
use vstd::string::StringSliceAdditionalSpecFns;
use vstd::utf8::encode_utf8;
use crate::digest::{base64_encode, base64_of, lemma_base64_len, sha1_digest, sha1_digest_of};

verus! {

broadcast use vstd::string::group_string_axioms;

/// The GUID that RFC 6455 appends to the client's key.
pub open spec fn magic_key() -> Seq<char> {
    "258EAFA5-E914-47DA-95CA-C5AB0DC85B11"@
}

/// `Sec-WebSocket-Accept` for a client key: base64 of the SHA-1 digest of the UTF-8
/// bytes of the key followed by the GUID.
pub open spec fn spec_accept_key(key: Seq<char>) -> Seq<char> {
    base64_of(sha1_digest_of(encode_utf8(key + magic_key())))
}

/// The response that switches the connection over to WebSocket.
pub open spec fn switch_response(accept: Seq<char>) -> Seq<char> {
    "HTTP/1.1 101 SWITCH\r\nServer: Rust Cgi\r\nConnection: upgrade\r\nUpgrade: websocket\r\nSec-WebSocket-Accept: "@
        + accept + "\r\n\r\n"@
}

/// Keys whose UTF-8 bytes, with the GUID, stay within what SHA-1 can digest.
pub open spec fn digestible_key(key: Seq<char>) -> bool {
    encode_utf8(key).len() + 36 < 0x2000_0000_0000_0000
}

proof fn lemma_encode_utf8_concat(a: Seq<char>, b: Seq<char>)
    ensures
        encode_utf8(a + b) == encode_utf8(a) + encode_utf8(b),
    decreases a.len(),
{
    if a.len() > 0 {
        lemma_encode_utf8_concat(a.drop_first(), b);
        assert((a + b).drop_first() =~= a.drop_first() + b);
        assert((a + b)[0] == a[0]);
        assert(encode_utf8(a + b) =~= encode_utf8(a) + encode_utf8(b));
    } else {
        assert(a + b =~= b);
    }
}

/// Computes `Sec-WebSocket-Accept` for the client's `Sec-WebSocket-Key`.
pub fn accept_key(key: &str) -> (accept: String)
    requires
        digestible_key(key@),
    ensures
        accept@ == spec_accept_key(key@),
        accept@.len() == 28,
{
    let magic = "258EAFA5-E914-47DA-95CA-C5AB0DC85B11";
    proof {
        reveal_strlit("258EAFA5-E914-47DA-95CA-C5AB0DC85B11");
        vstd::utf8::is_ascii_chars_encode_utf8(magic@);
        lemma_encode_utf8_concat(key@, magic@);
    }
    let mut text: String = key.to_owned();
    text.append(magic);
    let bytes = text.as_str().as_bytes();
    let digest = sha1_digest(bytes);
    proof {
        lemma_base64_len(digest@);
    }
    base64_encode(digest.as_slice())
}

/// The switching response for a given accept value.
pub fn switch_response_for(accept: &str) -> (resp: String)
    ensures
        resp@ == switch_response(accept@),
{
    let mut resp = String::from_str(
        "HTTP/1.1 101 SWITCH\r\nServer: Rust Cgi\r\nConnection: upgrade\r\nUpgrade: websocket\r\nSec-WebSocket-Accept: ",
    );
    resp.append(accept);
    resp.append("\r\n\r\n");
    resp
}

} // verus!
