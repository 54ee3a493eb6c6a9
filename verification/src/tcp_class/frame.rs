use vstd::prelude::*;

verus! {

/// Opcode byte (FIN set) of a text frame.
pub const OPCODE_TEXT: u8 = 0x81;

/// Opcode byte (FIN set) of a binary frame.
pub const OPCODE_BINARY: u8 = 0x82;

/// Opcode byte (FIN set) of a connection-close control frame.
pub const OPCODE_CLOSE: u8 = 0x88;

/// Opcode byte (FIN set) of a ping control frame.
pub const OPCODE_PING: u8 = 0x89;

/// Opcode byte (FIN set) of a pong control frame.
pub const OPCODE_PONG: u8 = 0x8A;

/// What the first byte of a frame announces.
#[derive(PartialEq, Eq, Structural, Clone, Copy, Debug)]
pub enum FrameKind {
    Text,
    Binary,
    Close,
    Ping,
    Unsupported,
}

/// How the payload length is carried by the second byte of a frame.
#[derive(PartialEq, Eq, Structural, Clone, Copy, Debug)]
pub enum LengthField {
    /// The length itself, below 126.
    Short(u8),
    /// A 16-bit big-endian length follows.
    Ext16,
    /// A 64-bit big-endian length follows.
    Ext64,
}

pub open spec fn spec_frame_kind(first: u8) -> FrameKind {
    if first == OPCODE_TEXT {
        FrameKind::Text
    } else if first == OPCODE_BINARY {
        FrameKind::Binary
    } else if first == OPCODE_CLOSE {
        FrameKind::Close
    } else if first == OPCODE_PING {
        FrameKind::Ping
    } else {
        FrameKind::Unsupported
    }
}

/// Big-endian value of a byte sequence.
pub open spec fn be_value(bytes: Seq<u8>) -> nat
    decreases bytes.len(),
{
    if bytes.len() == 0 {
        0
    } else {
        be_value(bytes.drop_last()) * 256 + bytes.last() as nat
    }
}

/// `256` to the power `k`.
pub open spec fn byte_pow(k: nat) -> nat
    decreases k,
{
    if k == 0 {
        1
    } else {
        256 * byte_pow((k - 1) as nat)
    }
}

/// The `k` low bytes of `n`, most significant first.
pub open spec fn be_bytes(n: nat, k: nat) -> Seq<u8>
    decreases k,
{
    if k == 0 {
        Seq::empty()
    } else {
        be_bytes(n / 256, (k - 1) as nat).push((n % 256) as u8)
    }
}

/// Number of extended-length bytes that follow a second byte.
pub open spec fn ext_len(second: u8) -> nat {
    if second & 0x7f == 126 {
        2
    } else if second & 0x7f == 127 {
        8
    } else {
        0
    }
}

/// Whole header size (opcode, length byte, extended length, mask) given the second byte.
pub open spec fn head_size(second: u8) -> nat {
    2 + ext_len(second) + 4
}

/// The buffer holds a complete frame header.
pub open spec fn head_complete(buf: Seq<u8>) -> bool {
    buf.len() >= 2 && buf.len() >= head_size(buf[1])
}

/// Payload length announced by a complete header.
pub open spec fn payload_len_of(buf: Seq<u8>) -> nat {
    if ext_len(buf[1]) == 0 {
        (buf[1] & 0x7f) as nat
    } else {
        be_value(buf.subrange(2, 2 + ext_len(buf[1]) as int))
    }
}

/// Masking key carried by a complete header.
pub open spec fn mask_of(buf: Seq<u8>) -> Seq<u8> {
    buf.subrange(2 + ext_len(buf[1]) as int, 2 + ext_len(buf[1]) as int + 4)
}

/// Header bytes that announce a frame with first byte `opcode` and a payload of `len` bytes
/// (no masking key: frames sent by the server are not masked).
pub open spec fn spec_encode_head(opcode: u8, len: nat) -> Seq<u8> {
    if len < 126 {
        seq![opcode, len as u8]
    } else if len < 65536 {
        seq![opcode, 126u8] + be_bytes(len, 2)
    } else {
        seq![opcode, 127u8] + be_bytes(len, 8)
    }
}

/// Classifies the first byte of a frame.
pub fn frame_kind(first: u8) -> (kind: FrameKind)
    ensures
        kind == spec_frame_kind(first),
{
    if first == OPCODE_TEXT {
        FrameKind::Text
    } else if first == OPCODE_BINARY {
        FrameKind::Binary
    } else if first == OPCODE_CLOSE {
        FrameKind::Close
    } else if first == OPCODE_PING {
        FrameKind::Ping
    } else {
        FrameKind::Unsupported
    }
}

/// Reads the length field from the second byte of a frame.
pub fn length_field(second: u8) -> (field: LengthField)
    ensures
        match field {
            LengthField::Short(n) => n == second & 0x7f && n < 126 && ext_len(second) == 0,
            LengthField::Ext16 => second & 0x7f == 126 && ext_len(second) == 2,
            LengthField::Ext64 => second & 0x7f == 127 && ext_len(second) == 8,
        },
{
    let n = second & 0x7f;
    assert(n <= 127) by (bit_vector)
        requires
            n == second & 0x7f,
    ;
    if n < 126 {
        LengthField::Short(n)
    } else if n == 126 {
        LengthField::Ext16
    } else {
        LengthField::Ext64
    }
}

proof fn lemma_byte_pow_mono(i: nat, j: nat)
    requires
        i <= j,
    ensures
        1 <= byte_pow(i) <= byte_pow(j),
    decreases j,
{
    if j > i {
        lemma_byte_pow_mono(i, (j - 1) as nat);
    } else if i > 0 {
        lemma_byte_pow_mono((i - 1) as nat, (i - 1) as nat);
    }
}

proof fn lemma_byte_pow_8()
    ensures
        byte_pow(8) == 0x1_0000_0000_0000_0000,
{
    reveal_with_fuel(byte_pow, 9);
}

proof fn lemma_be_value_bound(bytes: Seq<u8>)
    ensures
        be_value(bytes) < byte_pow(bytes.len()),
    decreases bytes.len(),
{
    if bytes.len() > 0 {
        let prefix = bytes.drop_last();
        lemma_be_value_bound(prefix);
        let a = be_value(prefix);
        let p = byte_pow(prefix.len());
        let b = bytes.last() as nat;
        assert(a * 256 + b < 256 * p) by (nonlinear_arith)
            requires
                a < p,
                b < 256,
        ;
    }
}

/// Big-endian value of at most eight bytes.
pub fn count_bytes(bytes: &[u8]) -> (value: u64)
    requires
        bytes@.len() <= 8,
    ensures
        value == be_value(bytes@),
{
    let mut acc: u64 = 0;
    let mut i: usize = 0;
    while i < bytes.len()
        invariant
            i <= bytes@.len() <= 8,
            acc == be_value(bytes@.subrange(0, i as int)),
        decreases bytes@.len() - i,
    {
        let ghost prefix = bytes@.subrange(0, i as int);
        let ghost next = bytes@.subrange(0, i + 1);
        proof {
            assert(next.drop_last() =~= prefix);
            lemma_be_value_bound(next);
            lemma_byte_pow_mono((i + 1) as nat, 8);
            lemma_byte_pow_8();
        }
        acc = acc * 256 + bytes[i] as u64;
        i += 1;
    }
    assert(bytes@.subrange(0, i as int) =~= bytes@);
    acc
}

proof fn lemma_be_bytes_len(n: nat, k: nat)
    ensures
        be_bytes(n, k).len() == k,
    decreases k,
{
    if k > 0 {
        lemma_be_bytes_len(n / 256, (k - 1) as nat);
    }
}

/// Reading back the `k` big-endian bytes of `n` gives `n` when it fits in `k` bytes.
pub proof fn lemma_be_bytes_value(n: nat, k: nat)
    requires
        n < byte_pow(k),
    ensures
        be_bytes(n, k).len() == k,
        be_value(be_bytes(n, k)) == n,
    decreases k,
{
    lemma_be_bytes_len(n, k);
    if k > 0 {
        let p = byte_pow((k - 1) as nat);
        assert(n / 256 < p) by (nonlinear_arith)
            requires
                n < 256 * p,
        ;
        lemma_be_bytes_value(n / 256, (k - 1) as nat);
        assert(be_bytes(n, k).drop_last() =~= be_bytes(n / 256, (k - 1) as nat));
        assert((n / 256) * 256 + n % 256 == n) by (nonlinear_arith);
    }
}

fn push_be_bytes(out: &mut Vec<u8>, n: u64, k: usize)
    ensures
        final(out)@ == old(out)@ + be_bytes(n as nat, k as nat),
    decreases k,
{
    if k > 0 {
        push_be_bytes(out, n / 256, k - 1);
        out.push((n % 256) as u8);
        assert(final(out)@ =~= old(out)@ + be_bytes(n as nat, k as nat));
    } else {
        assert(final(out)@ =~= old(out)@ + be_bytes(n as nat, k as nat));
    }
}

/// Header bytes for a frame whose first byte is `opcode` and whose payload is `len` bytes:
/// the length is inline below 126, a 16-bit big-endian field below 65536 and a
/// 64-bit big-endian field otherwise.
pub fn encode_head(opcode: u8, len: u64) -> (head: Vec<u8>)
    ensures
        head@ == spec_encode_head(opcode, len as nat),
{
    let mut head: Vec<u8> = Vec::new();
    head.push(opcode);
    if len < 126 {
        head.push(len as u8);
        assert(head@ =~= spec_encode_head(opcode, len as nat));
    } else if len < 65536 {
        head.push(126u8);
        push_be_bytes(&mut head, len, 2);
        assert(head@ =~= spec_encode_head(opcode, len as nat));
    } else {
        head.push(127u8);
        push_be_bytes(&mut head, len, 8);
        assert(head@ =~= spec_encode_head(opcode, len as nat));
    }
    head
}

/// A complete frame header.
#[derive(Clone, Copy, Debug)]
pub struct FrameHead {
    pub kind: FrameKind,
    pub payload_len: u64,
    pub mask: [u8; 4],
    /// Number of header bytes, masking key included.
    pub head_len: usize,
}

/// Outcome of reading a frame header from the front of a buffer.
#[derive(Clone, Copy, Debug)]
pub enum HeadParse {
    /// More bytes are needed before the header is complete.
    Incomplete,
    /// The header is complete but its first byte announces a frame that is not handled.
    Unsupported,
    Frame(FrameHead),
}

/// Reads a frame header: the opcode byte, the length byte, the extended length it asks
/// for and the four-byte masking key, which is always read.
pub fn parse_head(buf: &[u8]) -> (res: HeadParse)
    ensures
        res is Incomplete <==> !head_complete(buf@),
        res is Unsupported <==> head_complete(buf@) && spec_frame_kind(buf@[0])
            == FrameKind::Unsupported,
        res matches HeadParse::Frame(h) ==> {
            &&& head_complete(buf@)
            &&& h.kind == spec_frame_kind(buf@[0])
            &&& h.kind != FrameKind::Unsupported
            &&& h.payload_len == payload_len_of(buf@)
            &&& h.mask@ == mask_of(buf@)
            &&& h.head_len == head_size(buf@[1])
        },
{
    if buf.len() < 2 {
        return HeadParse::Incomplete;
    }
    let field = length_field(buf[1]);
    let ext: usize = match field {
        LengthField::Short(_) => 0,
        LengthField::Ext16 => 2,
        LengthField::Ext64 => 8,
    };
    if buf.len() < 2 + ext + 4 {
        return HeadParse::Incomplete;
    }
    let len: u64 = match field {
        LengthField::Short(n) => n as u64,
        _ => count_bytes(vstd::slice::slice_subrange(buf, 2, 2 + ext)),
    };
    let mask: [u8; 4] = [buf[2 + ext], buf[3 + ext], buf[4 + ext], buf[5 + ext]];
    assert(mask@ =~= mask_of(buf@));
    let kind = frame_kind(buf[0]);
    match kind {
        FrameKind::Unsupported => HeadParse::Unsupported,
        _ => HeadParse::Frame(FrameHead { kind, payload_len: len, mask, head_len: 6 + ext }),
    }
}

/// A header built by `encode_head`, followed by a masking key, reads back as the same
/// frame kind, payload length and key, whatever bytes come after it.
pub proof fn lemma_encode_parse_roundtrip(opcode: u8, len: u64, mask: Seq<u8>, rest: Seq<u8>)
    requires
        mask.len() == 4,
    ensures
        ({
            let head = spec_encode_head(opcode, len as nat);
            let buf = head + mask + rest;
            &&& head_complete(buf)
            &&& spec_frame_kind(buf[0]) == spec_frame_kind(opcode)
            &&& payload_len_of(buf) == len
            &&& mask_of(buf) == mask
            &&& head_size(buf[1]) == head.len() + 4
        }),
{
    let head = spec_encode_head(opcode, len as nat);
    let buf = head + mask + rest;
    if len < 126 {
        let b = len as u8;
        assert(b & 0x7f == b) by (bit_vector)
            requires
                b < 126,
        ;
        assert(buf[1] == b);
        assert(mask_of(buf) =~= mask);
    } else if len < 65536 {
        assert(126u8 & 0x7f == 126) by (bit_vector);
        reveal_with_fuel(byte_pow, 3);
        lemma_be_bytes_value(len as nat, 2);
        assert(buf.subrange(2, 4) =~= be_bytes(len as nat, 2));
        assert(mask_of(buf) =~= mask);
    } else {
        assert(127u8 & 0x7f == 127) by (bit_vector);
        lemma_byte_pow_8();
        lemma_be_bytes_value(len as nat, 8);
        assert(buf.subrange(2, 10) =~= be_bytes(len as nat, 8));
        assert(mask_of(buf) =~= mask);
    }
}

/// What a complete header asks of the reader: the payload length it hands on
/// (`None` ends the stream) and the control frame to send back, if any.
#[derive(Clone, Copy, Debug)]
pub struct HeadAction {
    pub payload: Option<u64>,
    pub reply: Option<u8>,
}

/// Text and binary frames hand their length on; a close frame ends the stream and is
/// answered by a close frame; a ping is answered by a pong and reads as an empty payload.
pub fn head_action(kind: FrameKind, payload_len: u64) -> (action: HeadAction)
    requires
        kind != FrameKind::Unsupported,
    ensures
        kind == FrameKind::Text || kind == FrameKind::Binary ==> action.payload == Some(payload_len)
            && action.reply is None,
        kind == FrameKind::Close ==> action.payload is None && action.reply == Some(OPCODE_CLOSE),
        kind == FrameKind::Ping ==> action.payload == Some(0u64) && action.reply == Some(
            OPCODE_PONG,
        ),
{
    match kind {
        FrameKind::Close => HeadAction { payload: None, reply: Some(OPCODE_CLOSE) },
        FrameKind::Ping => HeadAction { payload: Some(0), reply: Some(OPCODE_PONG) },
        _ => HeadAction { payload: Some(payload_len), reply: None },
    }
}

/// A whole unmasked frame: the header for `data.len()` bytes followed by `data`.
pub fn encode_frame(opcode: u8, data: &[u8]) -> (frame: Vec<u8>)
    ensures
        frame@ == spec_encode_head(opcode, data@.len()) + data@,
{
    let mut frame = encode_head(opcode, data.len() as u64);
    let mut i: usize = 0;
    while i < data.len()
        invariant
            i <= data@.len(),
            frame@ == spec_encode_head(opcode, data@.len()) + data@.subrange(0, i as int),
        decreases data@.len() - i,
    {
        frame.push(data[i]);
        i += 1;
        assert(frame@ =~= spec_encode_head(opcode, data@.len()) + data@.subrange(0, i as int));
    }
    assert(data@.subrange(0, i as int) =~= data@);
    frame
}

/// Payload bytes `data` after XOR with the masking key, starting at payload offset
/// `offset`; only the first `len` bytes change.
pub open spec fn spec_unmask(data: Seq<u8>, mask: Seq<u8>, offset: nat, len: nat) -> Seq<u8> {
    Seq::new(
        data.len(),
        |i: int|
            if i < len {
                data[i] ^ mask[(offset + i) % 4]
            } else {
                data[i]
            },
    )
}

/// Unmasking twice with the same key and offset gives the bytes back.
pub proof fn lemma_unmask_involution(data: Seq<u8>, mask: Seq<u8>, offset: nat, len: nat)
    ensures
        spec_unmask(spec_unmask(data, mask, offset, len), mask, offset, len) == data,
{
    let once = spec_unmask(data, mask, offset, len);
    let twice = spec_unmask(once, mask, offset, len);
    assert forall|i: int| 0 <= i < data.len() implies twice[i] == data[i] by {
        if i < len {
            let a = data[i];
            let b = mask[(offset + i) % 4];
            assert((a ^ b) ^ b == a) by (bit_vector);
        }
    }
    assert(twice =~= data);
}

/// Unmasking a payload in two pieces, the second one at an offset advanced by the
/// length of the first, gives the same bytes as unmasking it in one go.
pub proof fn lemma_unmask_split(payload: Seq<u8>, mask: Seq<u8>, offset: nat, k: nat)
    requires
        k <= payload.len(),
    ensures
        spec_unmask(payload.subrange(0, k as int), mask, offset, k) + spec_unmask(
            payload.subrange(k as int, payload.len() as int),
            mask,
            offset + k,
            (payload.len() - k) as nat,
        ) == spec_unmask(payload, mask, offset, payload.len()),
{
    let left = spec_unmask(payload.subrange(0, k as int), mask, offset, k);
    let right = spec_unmask(
        payload.subrange(k as int, payload.len() as int),
        mask,
        offset + k,
        (payload.len() - k) as nat,
    );
    let whole = spec_unmask(payload, mask, offset, payload.len());
    assert forall|i: int| 0 <= i < payload.len() implies (left + right)[i] == whole[i] by {
        if i >= k {
            assert((offset + k + (i - k)) == offset + i);
        }
    }
    assert(left + right =~= whole);
}

/// The bytes of `s` read as a big-endian number and written back in as many bytes are `s`.
pub proof fn lemma_be_value_bytes(s: Seq<u8>)
    ensures
        be_bytes(be_value(s), s.len()) == s,
    decreases s.len(),
{
    if s.len() > 0 {
        let prefix = s.drop_last();
        lemma_be_value_bytes(prefix);
        let v = be_value(s);
        let pv = be_value(prefix);
        let b = s.last() as nat;
        assert(v / 256 == pv && v % 256 == b) by (nonlinear_arith)
            requires
                v == pv * 256 + b,
                b < 256,
        ;
        assert(be_bytes(v, s.len()) =~= s);
    }
}

/// How the next read of payload bytes is to be made.
#[derive(Clone, Copy, Debug, PartialEq, Eq, Structural)]
pub enum ReadPlan {
    /// Read straight into the caller's buffer (the frame has more bytes left than it holds).
    Direct,
    /// Read the rest of the frame, this many bytes, into a buffer of its own, then copy it over.
    Staged(usize),
}

/// Plans a payload read for a caller's buffer of `buf_len` bytes when `remaining` payload
/// bytes of the frame are left.
pub fn read_plan(remaining: u64, buf_len: usize) -> (plan: ReadPlan)
    ensures
        remaining > buf_len ==> plan == ReadPlan::Direct,
        remaining <= buf_len ==> plan == ReadPlan::Staged(remaining as usize),
{
    if remaining > buf_len as u64 {
        ReadPlan::Direct
    } else {
        ReadPlan::Staged(remaining as usize)
    }
}

/// How a failed read while taking a frame header is reported.
#[derive(Clone, Copy, Debug, PartialEq, Eq, Structural)]
pub enum HeadFailure {
    /// The stream has ended: no more frames.
    Closed,
    /// An error, handed on to the reader.
    Failed,
}

/// A read that fails while a frame header is taken: the connection ending during the
/// first two bytes of a header ends the stream; any other failure (a later part of the
/// header, or an error other than the end of the input) is an error.
pub fn head_failure(first_bytes: bool, end_of_input: bool) -> (f: HeadFailure)
    ensures
        f == (if first_bytes && end_of_input {
            HeadFailure::Closed
        } else {
            HeadFailure::Failed
        }),
{
    if first_bytes && end_of_input {
        HeadFailure::Closed
    } else {
        HeadFailure::Failed
    }
}

/// Number of header bytes a frame whose second byte is `second` has, masking key
/// included.
pub fn header_len(second: u8) -> (n: usize)
    ensures
        n == head_size(second),
{
    match length_field(second) {
        LengthField::Short(_) => 6,
        LengthField::Ext16 => 8,
        LengthField::Ext64 => 14,
    }
}

} // verus!
