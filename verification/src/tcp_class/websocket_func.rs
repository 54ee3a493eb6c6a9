use vstd::prelude::*;
use crate::env::Env;
use crate::tcp_class::frame::{read_plan, spec_unmask, ReadPlan};
use crate::tcp_class::handshake::{accept_key, digestible_key, spec_accept_key, switch_response, switch_response_for};

verus! {

/// Reading side of a WebSocket connection: how much of the current frame has been
/// delivered, how much is left and the frame's masking key.
pub struct Websocket {
    read: u64,
    residue: u64,
    payload_mask: [u8; 4],
}

impl Websocket {
    #[verifier::type_invariant]
    spec fn fits(&self) -> bool {
        self.read + self.residue <= u64::MAX
    }

    /// Payload bytes of the current frame already delivered.
    pub closed spec fn processed(&self) -> nat {
        self.read as nat
    }

    /// Payload bytes of the current frame still to come.
    pub closed spec fn remaining(&self) -> nat {
        self.residue as nat
    }

    /// Masking key of the current frame.
    pub closed spec fn key(&self) -> Seq<u8> {
        self.payload_mask@
    }

    /// The state right after the upgrade: no frame under way.
    pub fn new() -> (ws: Self)
        ensures
            ws.processed() == 0,
            ws.remaining() == 0,
            ws.key() == seq![0u8, 0u8, 0u8, 0u8],
    {
        let ws = Websocket { read: 0, residue: 0, payload_mask: [0u8; 4] };
        assert(ws.payload_mask@ =~= seq![0u8, 0u8, 0u8, 0u8]);
        ws
    }

    /// A new frame header has to be read before any payload.
    pub fn needs_head(&self) -> (b: bool)
        ensures
            b == (self.remaining() == 0),
    {
        self.residue == 0
    }

    /// Bytes still to come in the current frame.
    pub fn residue(&self) -> (n: u64)
        ensures
            n == self.remaining(),
    {
        self.residue
    }

    /// Starts a frame of `len` payload bytes masked with `mask`.
    pub fn start_frame(&mut self, len: u64, mask: [u8; 4])
        ensures
            final(self).processed() == 0,
            final(self).remaining() == len,
            final(self).key() == mask@,
    {
        self.read = 0;
        self.residue = len;
        self.payload_mask = mask;
    }

    /// Plans the next payload read into a caller's buffer of `buf_len` bytes.
    pub fn plan_read(&self, buf_len: usize) -> (plan: ReadPlan)
        ensures
            self.remaining() > buf_len ==> plan == ReadPlan::Direct,
            self.remaining() <= buf_len ==> plan == ReadPlan::Staged(self.remaining() as usize),
    {
        read_plan(self.residue, buf_len)
    }

    /// XORs the first `len` bytes of `data` with the key, byte `i` with key byte
    /// `(processed + i) % 4`.
    pub fn unmask(&self, data: &mut [u8], len: usize)
        requires
            len <= old(data)@.len(),
            self.processed() + len <= u64::MAX,
        ensures
            final(data)@ == spec_unmask(old(data)@, self.key(), self.processed(), len as nat),
    {
        let ghost start = data@;
        let mut i: usize = 0;
        while i < len
            invariant
                i <= len <= data@.len(),
                start.len() == data@.len(),
                self.processed() + len <= u64::MAX,
                forall|j: int|
                    0 <= j < data@.len() ==> data@[j] == (if j < i {
                        start[j] ^ self.key()[(self.processed() + j) % 4]
                    } else {
                        start[j]
                    }),
            decreases len - i,
        {
            let k = ((self.read + i as u64) % 4) as usize;
            let b = data[i] ^ self.payload_mask[k];
            data[i] = b;
            i += 1;
        }
        assert(data@ =~= spec_unmask(start, self.key(), self.processed(), len as nat));
    }

    /// Takes `len` freshly read payload bytes at the front of `data`: unmasks them and
    /// moves the frame position forward.
    pub fn consume(&mut self, data: &mut [u8], len: usize)
        requires
            len <= old(data)@.len(),
            len <= old(self).remaining(),
        ensures
            final(data)@ == spec_unmask(old(data)@, old(self).key(), old(self).processed(), len as nat),
            final(self).processed() == old(self).processed() + len,
            final(self).remaining() == old(self).remaining() - len,
            final(self).key() == old(self).key(),
    {
        proof {
            use_type_invariant(&*self);
        }
        self.unmask(data, len);
        self.residue = self.residue - len as u64;
        self.read = self.read + len as u64;
    }
}

/// The response that completes the upgrade of an HTTP request whose variables are
/// `env`: present when the request carries `Sec-WebSocket-Key`.
pub fn handshake(env: &Env) -> (resp: Option<String>)
    requires
        env@.contains_key("Sec-WebSocket-Key"@) ==> digestible_key(env@["Sec-WebSocket-Key"@]),
    ensures
        resp is Some <==> env@.contains_key("Sec-WebSocket-Key"@),
        resp matches Some(r) ==> r@ == switch_response(spec_accept_key(env@["Sec-WebSocket-Key"@])),
{
    match env.get("Sec-WebSocket-Key") {
        Some(key) => {
            let accept = accept_key(key.as_str());
            Some(switch_response_for(accept.as_str()))
        },
        None => None,
    }
}

/// Copies a staged read over the front of the caller's buffer.
pub fn copy_staged(data: &mut [u8], staged: &[u8])
    requires
        staged@.len() <= old(data)@.len(),
    ensures
        final(data)@ == staged@ + old(data)@.subrange(staged@.len() as int, old(data)@.len() as int),
{
    let ghost start = data@;
    let mut i: usize = 0;
    while i < staged.len()
        invariant
            i <= staged@.len() <= data@.len(),
            data@.len() == start.len(),
            forall|j: int| 0 <= j < data@.len() ==> data@[j] == (if j < i { staged@[j] } else { start[j] }),
        decreases staged@.len() - i,
    {
        data[i] = staged[i];
        i += 1;
    }
    assert(data@ =~= staged@ + start.subrange(staged@.len() as int, start.len() as int));
}

} // verus!
