//! Frames of the socket protocol: a 32-bit little-endian length, then the body.
use crate::entry::AppEntry;
use crate::text::{append_str, chars_of, decimal, decimal_chars, string_of};
use vstd::prelude::*;

verus! {

/// Where the daemon listens.
pub const SOCKET_PATH: &'static str = "/tmp/hiren.socket";

/// The largest body that is accepted: ten mebibytes.
pub const MAX_FRAME_SIZE: usize = 10485760;

/// Messages between client and daemon.
#[derive(Debug)]
pub enum IPCMessage {
    /// What the client looks for.
    RequestSearch(String),
    /// What the daemon found, best first.
    ResponseApps(Vec<AppEntry>),
}

/// The number written by four bytes, least significant first.
pub open spec fn from_le(b: Seq<u8>) -> int {
    b[0] + 256 * b[1] + 65536 * b[2] + 16777216 * b[3]
}

/// The length field of a body: its length modulo `2^32`.
pub open spec fn length_field(len: nat) -> int {
    len as int % 4294967296
}

/// The four bytes of a number, least significant first.
pub open spec fn le_bytes(n: int) -> Seq<u8> {
    seq![
        (n % 256) as u8,
        (n / 256 % 256) as u8,
        (n / 65536 % 256) as u8,
        (n / 16777216 % 256) as u8,
    ]
}

/// A body with its length in front.
pub open spec fn framed(body: Seq<u8>) -> Seq<u8> {
    le_bytes(length_field(body.len())) + body
}

/// Put the length in front of a body.
pub fn encode_frame(body: &[u8]) -> (r: Vec<u8>)
    ensures
        r@ == framed(body@),
{
    let total: usize = body.len();
    let n: u64 = total as u64 % 4294967296;
    let mut out: Vec<u8> = Vec::new();
    out.push((n % 256) as u8);
    out.push((n / 256 % 256) as u8);
    out.push((n / 65536 % 256) as u8);
    out.push((n / 16777216 % 256) as u8);
    proof {
        assert(out@ =~= le_bytes(length_field(body@.len())));
    }
    let ghost head = out@;
    let mut i: usize = 0;
    while i < total
        invariant
            total == body@.len(),
            i <= total,
            out@ == head + body@.take(i as int),
        decreases total - i,
    {
        out.push(body[i]);
        i += 1;
        proof {
            assert(head + body@.take(i as int) =~= (head + body@.take(i - 1)).push(body@[i - 1]));
        }
    }
    proof {
        assert(body@.take(total as int) =~= body@);
    }
    out
}

/// Read the length field of a frame.
pub fn read_frame_length(buf: &[u8; 4]) -> (r: u32)
    ensures
        r == from_le(buf@),
{
    buf[0] as u32 + 256 * (buf[1] as u32) + 65536 * (buf[2] as u32) + 16777216 * (buf[3] as u32)
}

/// The length field gives back the number it was made from.
pub proof fn length_round_trip(n: int)
    requires
        0 <= n < 4294967296,
    ensures
        from_le(le_bytes(n)) == n,
{
}

/// What a reader takes off a frame is the body that went in: the length field
/// tells its length, and it follows the field.
pub proof fn frame_round_trip(body: Seq<u8>)
    requires
        body.len() < 4294967296,
    ensures
        from_le(framed(body).take(4)) == body.len(),
        framed(body).skip(4) == body,
{
    let n = body.len() as int;
    length_round_trip(n);
    assert(framed(body).take(4) =~= le_bytes(n));
    assert(framed(body).skip(4) =~= body);
}

/// Two frames sent one after the other are told apart by the first one's length.
pub proof fn frames_are_separable(a: Seq<u8>, b: Seq<u8>)
    requires
        a.len() < 4294967296,
    ensures
        ({
            let stream = framed(a) + framed(b);
            let n = from_le(stream.take(4));
            &&& n == a.len()
            &&& stream.subrange(4, 4 + n) == a
            &&& stream.skip(4 + n) == framed(b)
        }),
{
    frame_round_trip(a);
    let stream = framed(a) + framed(b);
    assert(stream.take(4) =~= framed(a).take(4));
    assert(stream.subrange(4, 4 + a.len() as int) =~= framed(a).skip(4));
    assert(stream.skip(4 + a.len() as int) =~= framed(b));
}

/// Whether an announced body is read at all.
pub fn frame_allowed(len: u32) -> (r: bool)
    ensures
        r == (len <= MAX_FRAME_SIZE),
{
    len as usize <= MAX_FRAME_SIZE
}

/// The refusal of a body that is too large.
pub open spec fn too_large(len: nat) -> Seq<char> {
    "Frame too large: "@ + decimal(len) + " bytes (max 10485760)"@
}

/// Accept a body for decoding, or refuse it for its size.
pub fn decode_frame(data: &[u8]) -> (r: Result<&[u8], String>)
    ensures
        r is Ok <==> data@.len() <= MAX_FRAME_SIZE,
        r matches Ok(body) ==> body@ == data@,
        r matches Err(e) ==> e@ == too_large(data@.len()),
{
    let n: usize = data.len();
    if n > MAX_FRAME_SIZE {
        let mut t = chars_of("Frame too large: ");
        let d = decimal_chars(n as u128);
        crate::text::append(&mut t, d.as_slice());
        append_str(&mut t, " bytes (max 10485760)");
        Err(string_of(t.as_slice()))
    } else {
        Ok(data)
    }
}

} // verus!
