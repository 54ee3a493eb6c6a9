use vstd::prelude::*;
use vstd::string::StringExecFns;
use crate::env::Env;
use crate::tcp_class::handshake::{accept_key, digestible_key, spec_accept_key, switch_response, switch_response_for};
use crate::text::{ascii_lower, is_ascii_text, lowercase_of, to_lowercase};
use crate::tcp_class::frame::{be_bytes, be_value, count_bytes, lemma_be_value_bytes, read_plan, spec_unmask, ReadPlan};

verus! {

/// Reading side of a WebSocket connection over an HTTP request: payload bytes delivered
/// and left in the current frame, and the frame's masking key as a big-endian word.
pub struct Websocket {
    processed: u64,
    remainder: u64,
    payload_mask: u32,
}

/// The four key bytes of a key word, most significant first.
pub fn mask_bytes(word: u32) -> (bytes: [u8; 4])
    ensures
        bytes@ == be_bytes(word as nat, 4),
{
    let bytes: [u8; 4] = [
        (word / 16777216) as u8,
        ((word / 65536) % 256) as u8,
        ((word / 256) % 256) as u8,
        (word % 256) as u8,
    ];
    proof {
        reveal_with_fuel(be_bytes, 5);
        let n = word as nat;
        assert(n / 256 / 256 == n / 65536) by (nonlinear_arith);
        assert(n / 65536 / 256 == n / 16777216) by (nonlinear_arith);
        assert(n / 16777216 < 256) by (nonlinear_arith)
            requires
                n < 0x1_0000_0000,
        ;
        assert((n / 16777216) % 256 == n / 16777216);
    }
    assert(bytes@ =~= be_bytes(word as nat, 4));
    bytes
}

/// The key word of four key bytes read big-endian.
pub fn mask_word(mask: [u8; 4]) -> (word: u32)
    ensures
        word == be_value(mask@),
        be_bytes(word as nat, 4) == mask@,
{
    let v = count_bytes(&mask);
    proof {
        reveal_with_fuel(be_value, 5);
        lemma_be_value_bytes(mask@);
        assert(be_value(mask@) < 0x1_0000_0000) by {
            let s = mask@;
            assert(s.drop_last().drop_last().drop_last().drop_last() =~= Seq::<u8>::empty());
        }
    }
    v as u32
}

impl Websocket {
    #[verifier::type_invariant]
    spec fn fits(&self) -> bool {
        self.processed + self.remainder <= u64::MAX
    }

    /// Payload bytes of the current frame already delivered.
    pub closed spec fn processed(&self) -> nat {
        self.processed as nat
    }

    /// Payload bytes of the current frame still to come.
    pub closed spec fn remaining(&self) -> nat {
        self.remainder as nat
    }

    /// Masking key of the current frame.
    pub closed spec fn key(&self) -> Seq<u8> {
        be_bytes(self.payload_mask as nat, 4)
    }

    /// The state right after the handshake: no frame under way.
    pub fn new() -> (ws: Self)
        ensures
            ws.processed() == 0,
            ws.remaining() == 0,
            ws.key() == seq![0u8, 0u8, 0u8, 0u8],
    {
        let ws = Websocket { processed: 0, remainder: 0, payload_mask: 0 };
        proof {
            reveal_with_fuel(be_bytes, 5);
        }
        assert(ws.key() =~= seq![0u8, 0u8, 0u8, 0u8]);
        ws
    }

    /// A new frame header has to be read before any payload.
    pub fn needs_head(&self) -> (b: bool)
        ensures
            b == (self.remaining() == 0),
    {
        self.remainder == 0
    }

    /// Bytes still to come in the current frame.
    pub fn remainder(&self) -> (n: u64)
        ensures
            n == self.remaining(),
    {
        self.remainder
    }

    /// Starts a frame of `len` payload bytes masked with `mask`.
    pub fn start_frame(&mut self, len: u64, mask: [u8; 4])
        ensures
            final(self).processed() == 0,
            final(self).remaining() == len,
            final(self).key() == mask@,
    {
        let word = mask_word(mask);
        self.processed = 0;
        self.remainder = len;
        self.payload_mask = word;
    }

    /// Plans the next payload read into a caller's buffer of `buf_len` bytes.
    pub fn plan_read(&self, buf_len: usize) -> (plan: ReadPlan)
        ensures
            self.remaining() > buf_len ==> plan == ReadPlan::Direct,
            self.remaining() <= buf_len ==> plan == ReadPlan::Staged(self.remaining() as usize),
    {
        read_plan(self.remainder, buf_len)
    }

    /// XORs the first `len` bytes of `data` with the key, byte `i` with key byte
    /// `(processed + i) % 4`.
    pub fn unmask(&self, data: &mut [u8], len: usize)
        requires
            len <= old(data)@.len(),
        ensures
            final(data)@ == spec_unmask(old(data)@, self.key(), self.processed(), len as nat),
    {
        let mask = mask_bytes(self.payload_mask);
        let ghost start = data@;
        let base = (self.processed % 4) as usize;
        let mut i: usize = 0;
        while i < len
            invariant
                i <= len <= data@.len(),
                start.len() == data@.len(),
                mask@ == self.key(),
                mask@.len() == 4,
                base == self.processed() % 4,
                forall|j: int|
                    0 <= j < data@.len() ==> data@[j] == (if j < i {
                        start[j] ^ self.key()[(self.processed() + j) % 4]
                    } else {
                        start[j]
                    }),
            decreases len - i,
        {
            let k = (base + i % 4) % 4;
            assert(k == (self.processed() + i) % 4) by (nonlinear_arith)
                requires
                    k == (base + i % 4) % 4,
                    base == self.processed() % 4,
            ;
            let b = data[i] ^ mask[k];
            data[i] = b;
            i += 1;
        }
        assert(data@ =~= spec_unmask(start, self.key(), self.processed(), len as nat));
    }

    /// Takes `len` freshly read payload bytes at the front of `data`: unmasks them and
    /// moves the frame position forward.
    pub fn consume(&mut self, data: &mut [u8], len: usize)
        requires
            len <= old(data)@.len(),
            len <= old(self).remaining(),
        ensures
            final(data)@ == spec_unmask(old(data)@, old(self).key(), old(self).processed(), len as nat),
            final(self).processed() == old(self).processed() + len,
            final(self).remaining() == old(self).remaining() - len,
            final(self).key() == old(self).key(),
    {
        proof {
            use_type_invariant(&*self);
        }
        self.unmask(data, len);
        self.remainder = self.remainder - len as u64;
        self.processed = self.processed + len as u64;
    }
}

/// Bytes taken by a sequence of payload reads.
pub open spec fn pieces_total(lens: Seq<nat>) -> nat
    decreases lens.len(),
{
    if lens.len() == 0 {
        0
    } else {
        pieces_total(lens.drop_last()) + lens.last()
    }
}

/// Frame position (delivered, left) after `consume` is called with each of `lens` in
/// turn, starting from `start`.
pub open spec fn position_after(start: (nat, nat), lens: Seq<nat>) -> (nat, nat)
    decreases lens.len(),
{
    if lens.len() == 0 {
        start
    } else {
        let p = position_after(start, lens.drop_last());
        (p.0 + lens.last(), (p.1 - lens.last()) as nat)
    }
}

/// The pieces of `payload` read from `offset` on, `lens[k]` bytes at a time, each
/// unmasked at the frame position it was read at, put one after the other.
pub open spec fn unmasked_pieces(payload: Seq<u8>, key: Seq<u8>, offset: nat, lens: Seq<nat>) -> Seq<u8>
    decreases lens.len(),
{
    if lens.len() == 0 {
        Seq::empty()
    } else {
        spec_unmask(payload.subrange(offset as int, (offset + lens[0]) as int), key, offset, lens[0])
            + unmasked_pieces(payload, key, offset + lens[0], lens.drop_first())
    }
}

proof fn lemma_total_first(lens: Seq<nat>)
    requires
        lens.len() > 0,
    ensures
        pieces_total(lens) == lens[0] + pieces_total(lens.drop_first()),
    decreases lens.len(),
{
    if lens.len() > 1 {
        lemma_total_first(lens.drop_last());
        assert(lens.drop_last().drop_first() =~= lens.drop_first().drop_last());
        assert(lens.drop_first().last() == lens.last());
        assert(pieces_total(lens.drop_first()) == pieces_total(lens.drop_first().drop_last())
            + lens.last());
    } else {
        assert(lens.drop_first().len() == 0);
        assert(lens.drop_last().len() == 0);
        assert(pieces_total(lens.drop_last()) == 0);
    }
}

proof fn lemma_pieces_join(payload: Seq<u8>, key: Seq<u8>, offset: nat, lens: Seq<nat>)
    requires
        offset + pieces_total(lens) <= payload.len(),
    ensures
        unmasked_pieces(payload, key, offset, lens) == spec_unmask(
            payload.subrange(offset as int, (offset + pieces_total(lens)) as int),
            key,
            offset,
            pieces_total(lens),
        ),
    decreases lens.len(),
{
    let t = pieces_total(lens);
    let whole = payload.subrange(offset as int, (offset + t) as int);
    if lens.len() == 0 {
        assert(whole.len() == 0);
        assert(spec_unmask(whole, key, offset, 0) =~= Seq::<u8>::empty());
    } else {
        lemma_total_first(lens);
        let k = lens[0];
        lemma_pieces_join(payload, key, offset + k, lens.drop_first());
        crate::tcp_class::frame::lemma_unmask_split(whole, key, offset, k);
        assert(whole.subrange(0, k as int) =~= payload.subrange(offset as int, (offset + k) as int));
        assert(whole.subrange(k as int, whole.len() as int) =~= payload.subrange(
            (offset + k) as int,
            (offset + k + pieces_total(lens.drop_first())) as int,
        ));
    }
}

/// Reading one frame of `payload` (masked with `key`) in pieces of `lens` bytes, as
/// `start_frame` and then `consume` do, each piece no larger than what is left:
/// - after every read, bytes delivered plus bytes left is the frame's length, and each
///   piece fits in what was left before it, so no byte past the frame is taken;
/// - the unmasked pieces, put together, are the frame's bytes read so far unmasked in
///   one go.
pub proof fn lemma_frame_reads(payload: Seq<u8>, key: Seq<u8>, lens: Seq<nat>)
    requires
        pieces_total(lens) <= payload.len(),
    ensures
        forall|k: int|
            #![trigger lens.take(k)]
            0 <= k <= lens.len() ==> {
                let p = position_after((0nat, payload.len()), lens.take(k));
                &&& p.0 == pieces_total(lens.take(k))
                &&& p.0 + p.1 == payload.len()
                &&& k < lens.len() ==> lens[k] <= p.1
            },
        unmasked_pieces(payload, key, 0, lens) == spec_unmask(
            payload.take(pieces_total(lens) as int),
            key,
            0,
            pieces_total(lens),
        ),
    decreases lens.len(),
{
    lemma_pieces_join(payload, key, 0, lens);
    assert(payload.subrange(0, pieces_total(lens) as int) =~= payload.take(pieces_total(lens) as int));
    if lens.len() > 0 {
        let front = lens.drop_last();
        lemma_frame_reads(payload, key, front);
        assert forall|k: int|
            #![trigger lens.take(k)]
            0 <= k <= lens.len() implies {
                let p = position_after((0nat, payload.len()), lens.take(k));
                &&& p.0 == pieces_total(lens.take(k))
                &&& p.0 + p.1 == payload.len()
                &&& k < lens.len() ==> lens[k] <= p.1
            } by {
            if k < lens.len() {
                assert(lens.take(k) =~= front.take(k));
                if k + 1 < lens.len() {
                    assert(lens[k] == front[k]);
                } else {
                    assert(lens.take(k) =~= front);
                    assert(lens.take(k + 1) =~= lens);
                    assert(lens.drop_last() =~= front);
                }
            } else {
                assert(lens.take(k) =~= lens);
                assert(front.take(front.len() as int) =~= front);
            }
        }
    } else {
        assert(lens.take(0) =~= lens);
    }
}

/// An HTTP request asks for WebSocket when its `upgrade` variable, in lower case,
/// reads `websocket`.
pub fn matches(env: &Env) -> (yes: bool)
    ensures
        yes == (env@.contains_key("upgrade"@) && lowercase_of(env@["upgrade"@]) == "websocket"@),
        env@.contains_key("upgrade"@) && is_ascii_text(env@["upgrade"@]) ==> yes == (
        env@["upgrade"@].map_values(|c: char| ascii_lower(c)) == "websocket"@),
{
    match env.get("upgrade") {
        Some(upgrade) => {
            let lower = to_lowercase(upgrade.as_str());
            let target = String::from_str("websocket");
            lower == target
        },
        None => false,
    }
}

/// The response that completes the upgrade: present when the request carries
/// `sec-websocket-key`.
pub fn handshake(env: &Env) -> (resp: Option<String>)
    requires
        env@.contains_key("sec-websocket-key"@) ==> digestible_key(env@["sec-websocket-key"@]),
    ensures
        resp is Some <==> env@.contains_key("sec-websocket-key"@),
        resp matches Some(r) ==> r@ == switch_response(spec_accept_key(env@["sec-websocket-key"@])),
{
    match env.get("sec-websocket-key") {
        Some(key) => {
            let accept = accept_key(key.as_str());
            Some(switch_response_for(accept.as_str()))
        },
        None => None,
    }
}

/// Copies a staged read of exactly `len` bytes over the front of the caller's buffer.
pub fn copy_staged(data: &mut [u8], staged: &[u8], len: usize)
    requires
        len == staged@.len(),
        len <= old(data)@.len(),
    ensures
        final(data)@ == staged@ + old(data)@.subrange(len as int, old(data)@.len() as int),
{
    let ghost start = data@;
    let mut i: usize = 0;
    while i < len
        invariant
            i <= len <= data@.len(),
            len == staged@.len(),
            data@.len() == start.len(),
            forall|j: int| 0 <= j < data@.len() ==> data@[j] == (if j < i { staged@[j] } else { start[j] }),
        decreases len - i,
    {
        data[i] = staged[i];
        i += 1;
    }
    assert(data@ =~= staged@ + start.subrange(len as int, start.len() as int));
}

} // verus!
