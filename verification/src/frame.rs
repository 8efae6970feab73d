//! The WebSocket frame codec: decoding a masked frame received from a client
//! and encoding an unmasked frame to send back.
//!
//! A frame on the wire is one byte of flags and opcode, one byte of mask flag
//! and length indicator, an extended length of 0, 2 or 8 bytes (big-endian),
//! a 4-byte mask key where the frame is masked, and the payload.

use crate::primitives::is_utf8;
use vstd::prelude::*;
use vstd::slice::slice_subrange;
use vstd::utf8::valid_utf8;

verus! {

/// What a frame is for: the 4-bit tag in its first byte.
#[derive(Clone, Copy, Debug, PartialEq, Eq, Structural)]
pub enum Opcode {
    Continuation,
    Text,
    Binary,
    Close,
    Ping,
    Pong,
    /// Any code the protocol has not assigned.
    Reserved,
}

/// Why a frame could not be taken from a buffer.
#[derive(Clone, Copy, Debug, PartialEq, Eq, Structural)]
pub enum DecodeError {
    /// The buffer ends before the header or the declared payload does.
    TruncatedFrame,
    /// A text frame whose payload is not UTF-8.
    InvalidUtf8,
    /// A frame of a kind that is not handled.
    UnsupportedOpcode,
}

/// A decoded frame.
#[derive(Clone, Debug, PartialEq, Eq)]
pub struct WebSocketFrame {
    /// Final fragment of its message. Fragmentation is not handled, so every
    /// decoded frame is taken to be final.
    pub fin: bool,
    pub opcode: Opcode,
    /// The mask flag as received.
    pub masked: bool,
    /// The payload, unmasked.
    pub payload: Vec<u8>,
}

/// The mathematical value of a `WebSocketFrame`.
pub struct FrameView {
    pub fin: bool,
    pub opcode: Opcode,
    pub masked: bool,
    pub payload: Seq<u8>,
}

impl View for WebSocketFrame {
    type V = FrameView;

    open spec fn view(&self) -> FrameView {
        FrameView { fin: self.fin, opcode: self.opcode, masked: self.masked, payload: self.payload@ }
    }
}

impl Opcode {
    /// The opcode that a 4-bit code stands for.
    pub open spec fn of_code(code: int) -> Opcode {
        if code == 0 {
            Opcode::Continuation
        } else if code == 1 {
            Opcode::Text
        } else if code == 2 {
            Opcode::Binary
        } else if code == 8 {
            Opcode::Close
        } else if code == 9 {
            Opcode::Ping
        } else if code == 10 {
            Opcode::Pong
        } else {
            Opcode::Reserved
        }
    }

    /// The code written for an opcode. `Reserved` is written as 3, the first
    /// unassigned code.
    pub open spec fn spec_code(self) -> u8 {
        match self {
            Opcode::Continuation => 0,
            Opcode::Text => 1,
            Opcode::Binary => 2,
            Opcode::Close => 8,
            Opcode::Ping => 9,
            Opcode::Pong => 10,
            Opcode::Reserved => 3,
        }
    }

    /// The opcode that `code` stands for.
    pub fn from_code(code: u8) -> (opcode: Opcode)
        ensures
            opcode == Opcode::of_code(code as int),
    {
        if code == 0 {
            Opcode::Continuation
        } else if code == 1 {
            Opcode::Text
        } else if code == 2 {
            Opcode::Binary
        } else if code == 8 {
            Opcode::Close
        } else if code == 9 {
            Opcode::Ping
        } else if code == 10 {
            Opcode::Pong
        } else {
            Opcode::Reserved
        }
    }

    /// The code written for this opcode.
    #[verifier::when_used_as_spec(spec_code)]
    pub fn code(self) -> (code: u8)
        ensures
            code == self.spec_code(),
            code < 16,
    {
        match self {
            Opcode::Continuation => 0,
            Opcode::Text => 1,
            Opcode::Binary => 2,
            Opcode::Close => 8,
            Opcode::Ping => 9,
            Opcode::Pong => 10,
            Opcode::Reserved => 3,
        }
    }
}

/// Reading an opcode's code back gives the opcode.
pub proof fn lemma_opcode_code_round_trip(opcode: Opcode)
    ensures
        Opcode::of_code(opcode.spec_code() as int) == opcode,
        0 <= opcode.spec_code() < 16,
{
}

/// `data` with byte `i` XORed with byte `i mod 4` of `key`. Masking and
/// unmasking are this same operation.
pub open spec fn masked(data: Seq<u8>, key: Seq<u8>) -> Seq<u8> {
    Seq::new(data.len(), |i: int| data[i] ^ key[i % 4])
}

/// Masking is an involution: applying the same key twice gives the data back.
pub proof fn lemma_mask_involutive(data: Seq<u8>, key: Seq<u8>)
    ensures
        masked(masked(data, key), key) == data,
{
    assert forall|i: int| 0 <= i < data.len() implies masked(masked(data, key), key)[i]
        == data[i] by {
        let d = data[i];
        let k = key[i % 4];
        assert((d ^ k) ^ k == d) by (bit_vector);
    }
    assert(masked(masked(data, key), key) =~= data);
}

/// XORs `data` with `key`, repeated every 4 bytes.
pub fn apply_mask(data: &[u8], key: &[u8; 4]) -> (out: Vec<u8>)
    ensures
        out@ == masked(data@, key@),
{
    let mut out: Vec<u8> = Vec::with_capacity(data.len());
    let mut i: usize = 0;
    while i < data.len()
        invariant
            i <= data.len(),
            out@.len() == i,
            forall|j: int| 0 <= j < i ==> out@[j] == data@[j] ^ key@[j % 4],
        decreases data.len() - i,
    {
        out.push(data[i] ^ key[i % 4]);
        i += 1;
    }
    assert(out@ =~= masked(data@, key@));
    out
}

/// The 16-bit big-endian number at offset `at`.
pub open spec fn be16(s: Seq<u8>, at: int) -> int {
    s[at] * 0x100 + s[at + 1]
}

/// The 64-bit big-endian number at offset `at`.
pub open spec fn be64(s: Seq<u8>, at: int) -> int {
    be16(s, at) * 0x1_0000_0000_0000 + be16(s, at + 2) * 0x1_0000_0000 + be16(s, at + 4) * 0x1_0000
        + be16(s, at + 6)
}

/// The two bytes of `n`, most significant first.
pub open spec fn be16_bytes(n: int) -> Seq<u8> {
    seq![(n / 0x100 % 0x100) as u8, (n % 0x100) as u8]
}

/// The eight bytes of `n`, most significant first.
pub open spec fn be64_bytes(n: int) -> Seq<u8> {
    be16_bytes(n / 0x1_0000_0000_0000) + be16_bytes(n / 0x1_0000_0000) + be16_bytes(n / 0x1_0000)
        + be16_bytes(n)
}

/// The length indicator: the low 7 bits of the second byte.
pub open spec fn length_indicator(bytes: Seq<u8>) -> int {
    (bytes[1] % 0x80) as int
}

/// Where the payload of a masked frame starts: after the two fixed bytes, the
/// extended length that the indicator announces, and the mask key.
pub open spec fn payload_offset(bytes: Seq<u8>) -> int {
    if length_indicator(bytes) < 126 {
        6
    } else if length_indicator(bytes) == 126 {
        8
    } else {
        14
    }
}

/// The payload length that the header declares.
pub open spec fn declared_len(bytes: Seq<u8>) -> int {
    if length_indicator(bytes) < 126 {
        length_indicator(bytes)
    } else if length_indicator(bytes) == 126 {
        be16(bytes, 2)
    } else {
        be64(bytes, 2)
    }
}

/// The buffer ends before the frame that its header declares.
pub open spec fn is_truncated(bytes: Seq<u8>) -> bool {
    ||| bytes.len() < 2
    ||| bytes.len() < payload_offset(bytes)
    ||| bytes.len() < payload_offset(bytes) + declared_len(bytes)
}

/// The payload of the frame at the start of `bytes`, unmasked with the key
/// that precedes it.
pub open spec fn unmasked_payload(bytes: Seq<u8>) -> Seq<u8> {
    let start = payload_offset(bytes);
    masked(bytes.subrange(start, start + declared_len(bytes)), bytes.subrange(start - 4, start))
}

/// What decoding `bytes` gives. The frame is taken from the start of the
/// buffer; bytes after it are ignored. The mask key is read whether or not
/// the mask flag is set, and the flag is reported as it was received.
pub open spec fn decoded(bytes: Seq<u8>) -> Result<FrameView, DecodeError> {
    if is_truncated(bytes) {
        Err(DecodeError::TruncatedFrame)
    } else {
        let opcode = Opcode::of_code((bytes[0] % 0x10) as int);
        let payload = unmasked_payload(bytes);
        if opcode == Opcode::Text && !valid_utf8(payload) {
            Err(DecodeError::InvalidUtf8)
        } else {
            Ok(FrameView { fin: true, opcode, masked: bytes[1] >= 0x80, payload })
        }
    }
}

/// The first two bytes and the extended length of a frame.
pub open spec fn frame_header(opcode: Opcode, len: int, mask_flag: bool) -> Seq<u8> {
    let first = (0x80 + opcode.spec_code()) as u8;
    let flag: int = if mask_flag {
        0x80
    } else {
        0
    };
    if len < 126 {
        seq![first, (flag + len) as u8]
    } else if len < 0x1_0000 {
        seq![first, (flag + 126) as u8] + be16_bytes(len)
    } else {
        seq![first, (flag + 127) as u8] + be64_bytes(len)
    }
}

/// The bytes of a frame: unmasked where `key` is `None` (server to client),
/// masked with `key` where it is given (client to server). The length takes
/// the shortest of the three forms that holds it.
pub open spec fn frame_bytes(opcode: Opcode, payload: Seq<u8>, key: Option<Seq<u8>>) -> Seq<u8> {
    match key {
        None => frame_header(opcode, payload.len() as int, false) + payload,
        Some(k) => frame_header(opcode, payload.len() as int, true) + k + masked(payload, k),
    }
}

fn read_be16(bytes: &[u8], at: usize) -> (n: u64)
    requires
        at + 2 <= bytes.len(),
    ensures
        n == be16(bytes@, at as int),
        n < 0x1_0000,
{
    (bytes[at] as u64) * 0x100 + (bytes[at + 1] as u64)
}

fn read_be64(bytes: &[u8], at: usize) -> (n: u64)
    requires
        at + 8 <= bytes.len(),
    ensures
        n == be64(bytes@, at as int),
{
    read_be16(bytes, at) * 0x1_0000_0000_0000 + read_be16(bytes, at + 2) * 0x1_0000_0000
        + read_be16(bytes, at + 4) * 0x1_0000 + read_be16(bytes, at + 6)
}

fn push_be16(out: &mut Vec<u8>, n: u64)
    ensures
        final(out)@ == old(out)@ + be16_bytes(n as int),
{
    out.push((n / 0x100 % 0x100) as u8);
    out.push((n % 0x100) as u8);
    assert(out@ =~= old(out)@ + be16_bytes(n as int));
}

fn push_be64(out: &mut Vec<u8>, n: u64)
    ensures
        final(out)@ == old(out)@ + be64_bytes(n as int),
{
    push_be16(out, n / 0x1_0000_0000_0000);
    push_be16(out, n / 0x1_0000_0000);
    push_be16(out, n / 0x1_0000);
    push_be16(out, n);
    assert(out@ =~= old(out)@ + be64_bytes(n as int));
}

fn push_header(out: &mut Vec<u8>, opcode: Opcode, len: usize, mask_flag: bool)
    ensures
        final(out)@ == old(out)@ + frame_header(opcode, len as int, mask_flag),
{
    let flag: u8 = if mask_flag {
        0x80
    } else {
        0
    };
    out.push(0x80 + opcode.code());
    if len < 126 {
        out.push(flag + len as u8);
    } else if len < 0x1_0000 {
        out.push(flag + 126);
        push_be16(out, len as u64);
    } else {
        out.push(flag + 127);
        push_be64(out, len as u64);
    }
    assert(out@ =~= old(out)@ + frame_header(opcode, len as int, mask_flag));
}

/// Decodes the frame at the start of `bytes`.
///
/// Fails with `TruncatedFrame` exactly when the buffer is shorter than the
/// header or than the header and the payload length it declares, and with
/// `InvalidUtf8` exactly when a complete text frame holds a payload that is
/// not UTF-8. Never fails with `UnsupportedOpcode`: every opcode decodes.
pub fn decode(bytes: &[u8]) -> (result: Result<WebSocketFrame, DecodeError>)
    ensures
        match result {
            Ok(frame) => decoded(bytes@) == Ok::<FrameView, DecodeError>(frame@),
            Err(e) => decoded(bytes@) == Err::<FrameView, DecodeError>(e),
        },
        is_truncated(bytes@) <==> result == Err::<WebSocketFrame, DecodeError>(
            DecodeError::TruncatedFrame,
        ),
        !(result matches Err(DecodeError::UnsupportedOpcode)),
        result matches Ok(frame) ==> {
            &&& frame.fin
            &&& frame.payload@.len() == declared_len(bytes@)
            &&& frame.payload@ == unmasked_payload(bytes@)
        },
{
    if bytes.len() < 2 {
        return Err(DecodeError::TruncatedFrame);
    }
    let indicator: u8 = bytes[1] % 0x80;
    let start: usize = if indicator < 126 {
        6
    } else if indicator == 126 {
        8
    } else {
        14
    };
    if bytes.len() < start {
        return Err(DecodeError::TruncatedFrame);
    }
    let declared: u64 = if indicator < 126 {
        indicator as u64
    } else if indicator == 126 {
        read_be16(bytes, 2)
    } else {
        read_be64(bytes, 2)
    };
    if declared > (bytes.len() - start) as u64 {
        return Err(DecodeError::TruncatedFrame);
    }
    let len: usize = declared as usize;
    let key: [u8; 4] = [bytes[start - 4], bytes[start - 3], bytes[start - 2], bytes[start - 1]];
    assert(key@ =~= bytes@.subrange(start - 4, start as int));
    let payload = apply_mask(slice_subrange(bytes, start, start + len), &key);
    let opcode = Opcode::from_code(bytes[0] % 0x10);
    if opcode == Opcode::Text && !is_utf8(payload.as_slice()) {
        return Err(DecodeError::InvalidUtf8);
    }
    Ok(WebSocketFrame { fin: true, opcode, masked: bytes[1] >= 0x80, payload })
}

/// Encodes an unmasked frame, as a server sends it.
pub fn encode(opcode: Opcode, payload: &[u8]) -> (bytes: Vec<u8>)
    ensures
        bytes@ == frame_bytes(opcode, payload@, None),
{
    let mut out: Vec<u8> = Vec::new();
    push_header(&mut out, opcode, payload.len(), false);
    out.extend_from_slice(payload);
    assert(out@ =~= frame_bytes(opcode, payload@, None));
    out
}

/// Encodes a frame masked with `key`, as a client sends it.
pub fn encode_masked(opcode: Opcode, payload: &[u8], key: &[u8; 4]) -> (bytes: Vec<u8>)
    ensures
        bytes@ == frame_bytes(opcode, payload@, Some(key@)),
{
    let mut out: Vec<u8> = Vec::new();
    push_header(&mut out, opcode, payload.len(), true);
    out.extend_from_slice(key.as_slice());
    let body = apply_mask(payload, key);
    out.extend_from_slice(body.as_slice());
    assert(out@ =~= frame_bytes(opcode, payload@, Some(key@)));
    out
}

/// The two bytes written for a number hold its low 16 bits.
proof fn lemma_be16_value(n: u64)
    by (bit_vector)
    ensures
        (n / 0x100 % 0x100) * 0x100 + n % 0x100 == n % 0x1_0000,
        n / 0x100 % 0x100 < 0x100,
        n % 0x100 < 0x100,
{
}

/// A 64-bit number is the sum of its four 16-bit parts.
proof fn lemma_be64_value(n: u64)
    by (bit_vector)
    ensures
        (n / 0x1_0000_0000_0000) % 0x1_0000 * 0x1_0000_0000_0000 + (n / 0x1_0000_0000) % 0x1_0000
            * 0x1_0000_0000 + (n / 0x1_0000) % 0x1_0000 * 0x1_0000 + n % 0x1_0000 == n,
{
}

/// Reading back the bytes written for a 16-bit length gives the length.
proof fn lemma_be16_round_trip(n: int, prefix: Seq<u8>, suffix: Seq<u8>)
    requires
        0 <= n <= u64::MAX,
    ensures
        be16(prefix + be16_bytes(n) + suffix, prefix.len() as int) == n % 0x1_0000,
{
    let s = prefix + be16_bytes(n) + suffix;
    let at = prefix.len() as int;
    assert(s[at] == be16_bytes(n)[0]);
    assert(s[at + 1] == be16_bytes(n)[1]);
    lemma_be16_value(n as u64);
}

/// Reading back the bytes written for a 64-bit length gives the length.
proof fn lemma_be64_round_trip(n: int, prefix: Seq<u8>, suffix: Seq<u8>)
    requires
        0 <= n <= u64::MAX,
    ensures
        be64(prefix + be64_bytes(n) + suffix, prefix.len() as int) == n,
{
    let s = prefix + be64_bytes(n) + suffix;
    let at = prefix.len() as int;
    let top = be16_bytes(n / 0x1_0000_0000_0000);
    let upper = be16_bytes(n / 0x1_0000_0000);
    let lower = be16_bytes(n / 0x1_0000);
    let bottom = be16_bytes(n);
    assert(s =~= prefix + top + (upper + lower + bottom + suffix));
    lemma_be16_round_trip(n / 0x1_0000_0000_0000, prefix, upper + lower + bottom + suffix);
    assert(s =~= (prefix + top) + upper + (lower + bottom + suffix));
    lemma_be16_round_trip(n / 0x1_0000_0000, prefix + top, lower + bottom + suffix);
    assert(s =~= (prefix + top + upper) + lower + (bottom + suffix));
    lemma_be16_round_trip(n / 0x1_0000, prefix + top + upper, bottom + suffix);
    assert(s =~= (prefix + top + upper + lower) + bottom + suffix);
    lemma_be16_round_trip(n, prefix + top + upper + lower, suffix);
    lemma_be64_value(n as u64);
}

/// What the header of a frame says, whatever follows it: its opcode, its mask
/// flag, the length it declares and, for a masked frame, where the payload
/// starts.
pub proof fn lemma_header_is_read_back(opcode: Opcode, len: int, mask_flag: bool, tail: Seq<u8>)
    requires
        0 <= len <= u64::MAX,
    ensures
        ({
            let header = frame_header(opcode, len, mask_flag);
            let bytes = header + tail;
            &&& header.len() == if len < 126 {
                2int
            } else if len < 0x1_0000 {
                4int
            } else {
                10int
            }
            &&& Opcode::of_code((bytes[0] % 0x10) as int) == opcode
            &&& (bytes[1] >= 0x80) == mask_flag
            &&& payload_offset(bytes) == header.len() + 4
            &&& declared_len(bytes) == len
        }),
{
    let header = frame_header(opcode, len, mask_flag);
    let bytes = header + tail;
    let fixed = seq![header[0], header[1]];
    assert(bytes[0] == header[0] && bytes[1] == header[1]);
    if len < 126 {
    } else if len < 0x1_0000 {
        assert(bytes =~= fixed + be16_bytes(len) + tail);
        lemma_be16_round_trip(len, fixed, tail);
    } else {
        assert(bytes =~= fixed + be64_bytes(len) + tail);
        lemma_be64_round_trip(len, fixed, tail);
    }
}

/// The two directions differ in the mask alone: a masked frame is the
/// unmasked frame of the same opcode and payload with the mask flag set, the
/// key put in after the length, and the payload masked.
pub proof fn lemma_masked_frame_of_unmasked(opcode: Opcode, payload: Seq<u8>, key: Seq<u8>)
    ensures
        ({
            let plain = frame_bytes(opcode, payload, None);
            let start = plain.len() - payload.len();
            frame_bytes(opcode, payload, Some(key)) == plain.subrange(0, start).update(
                1,
                (plain[1] + 0x80) as u8,
            ) + key + masked(plain.subrange(start, plain.len() as int), key)
        }),
{
    let len = payload.len() as int;
    let plain = frame_bytes(opcode, payload, None);
    let start = plain.len() - payload.len();
    let header = frame_header(opcode, len, false);
    assert(plain.subrange(0, start) =~= header);
    assert(plain.subrange(start, plain.len() as int) =~= payload);
    assert(frame_header(opcode, len, true) =~= header.update(1, (header[1] + 0x80) as u8));
}

/// Encoding and decoding are inverse, once the difference between the two
/// directions is accounted for: a frame built from an opcode and a payload
/// and masked with a 4-byte key decodes to that opcode and payload, whatever
/// the length of the payload and whatever follows the frame in the buffer.
/// The payload of a text frame has to be UTF-8, and a length has to fit the
/// 64 bits of its field.
pub proof fn lemma_decode_inverts_encode(
    opcode: Opcode,
    payload: Seq<u8>,
    key: Seq<u8>,
    rest: Seq<u8>,
)
    requires
        key.len() == 4,
        payload.len() <= u64::MAX,
        opcode == Opcode::Text ==> valid_utf8(payload),
    ensures
        decoded(frame_bytes(opcode, payload, Some(key)) + rest) == Ok::<FrameView, DecodeError>(
            FrameView { fin: true, opcode, masked: true, payload },
        ),
{
    let len = payload.len() as int;
    let header = frame_header(opcode, len, true);
    let body = masked(payload, key);
    let bytes = frame_bytes(opcode, payload, Some(key)) + rest;
    let start = header.len() as int + 4;
    assert(bytes =~= header + (key + body + rest));
    lemma_header_is_read_back(opcode, len, true, key + body + rest);
    assert(bytes.subrange(start - 4, start) =~= key);
    assert(bytes.subrange(start, start + len) =~= body);
    lemma_mask_involutive(payload, key);
}

} // verus!
