//! Framing of the TCP command protocol: every message is one type byte, a
//! little-endian 16-bit payload length, and the payload.
use vstd::prelude::*;

verus! {

/// Client greeting, carrying the protocol version.
pub const MSG_HELLO: u8 = 0x01;
/// Text command sent by the client.
pub const MSG_CMD: u8 = 0x02;
/// Raw RGB frame sent by the client.
pub const MSG_PIXEL_FRAME: u8 = 0x03;
/// Controller status report.
pub const MSG_STATUS: u8 = 0x81;
/// Controller reply to a text command.
pub const MSG_CMD_RESP: u8 = 0x82;
/// Controller framebuffer preview.
pub const MSG_PREVIEW_FRAME: u8 = 0x83;
/// Protocol version announced in the greeting.
pub const PROTOCOL_VERSION: u8 = 1;
/// Number of bytes of a frame header.
pub const HEADER_LEN: usize = 3;

/// The length field that a frame carrying `n` payload bytes announces:
/// the length as a 16-bit integer, so it wraps past 65535.
pub open spec fn announced_len(n: nat) -> nat {
    n % 65536
}

/// The three header bytes of a frame of type `msg_type` announcing `len`.
pub open spec fn header_bytes(msg_type: u8, len: nat) -> Seq<u8> {
    seq![msg_type, (len % 256) as u8, ((len / 256) % 256) as u8]
}

/// The bytes written for a frame: header, then payload.
pub open spec fn frame_bytes(msg_type: u8, payload: Seq<u8>) -> Seq<u8> {
    header_bytes(msg_type, announced_len(payload.len())) + payload
}

/// Reads a header: the message type and the little-endian length.
pub open spec fn header_fields(header: Seq<u8>) -> (u8, nat) {
    (header[0], (header[1] + 256 * header[2]) as nat)
}

/// Encodes a frame as it goes on the wire.
pub fn encode_frame(msg_type: u8, payload: &[u8]) -> (out: Vec<u8>)
    ensures
        out@ == frame_bytes(msg_type, payload@),
{
    let n: usize = payload.len();
    let len: usize = n % 65536;
    let lo: u8 = (len % 256) as u8;
    let hi: u8 = (len / 256) as u8;
    let mut out: Vec<u8> = Vec::new();
    out.push(msg_type);
    out.push(lo);
    out.push(hi);
    let ghost head = out@;
    assert(head =~= header_bytes(msg_type, announced_len(payload@.len())));
    let mut i: usize = 0;
    while i < n
        invariant
            n == payload@.len(),
            i <= n,
            head == header_bytes(msg_type, announced_len(payload@.len())),
            out@ =~= head + payload@.take(i as int),
        decreases n - i,
    {
        out.push(payload[i]);
        i = i + 1;
    }
    assert(payload@.take(n as int) =~= payload@);
    out
}

/// Decodes a frame header into the message type and the payload length.
pub fn decode_header(header: [u8; 3]) -> (out: (u8, usize))
    ensures
        out.0 == header_fields(header@).0,
        out.1 as nat == header_fields(header@).1,
{
    let lo: usize = header[1] as usize;
    let hi: usize = header[2] as usize;
    (header[0], lo + 256 * hi)
}

/// The greeting frame that opens a session.
pub fn hello_frame() -> (out: Vec<u8>)
    ensures
        out@ == frame_bytes(MSG_HELLO, seq![PROTOCOL_VERSION]),
{
    let payload: [u8; 1] = [PROTOCOL_VERSION];
    encode_frame(MSG_HELLO, &payload)
}

/// A frame header decodes to the type and length of the frame that was
/// encoded, and the payload follows it unchanged, for every payload that
/// fits the 16-bit length field.
pub proof fn lemma_frame_roundtrip(msg_type: u8, payload: Seq<u8>)
    requires
        payload.len() <= 65535,
    ensures
        frame_bytes(msg_type, payload).len() == payload.len() + 3,
        header_fields(frame_bytes(msg_type, payload).take(3)) == (msg_type, payload.len()),
        frame_bytes(msg_type, payload).skip(3) == payload,
{
    let f = frame_bytes(msg_type, payload);
    let n = payload.len();
    assert(f.take(3) =~= header_bytes(msg_type, n));
    assert(f.skip(3) =~= payload);
    assert((n % 256) + 256 * ((n / 256) % 256) == n);
}

} // verus!
