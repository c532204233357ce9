//! Decoding of the hand tracker's binary frames.

use vstd::prelude::*;

verus! {

/// The little-endian value of the first four bytes, or 0 when there are fewer than four.
pub open spec fn u32_le(s: Seq<u8>) -> int {
    if s.len() >= 4 {
        s[0] + 256 * s[1] + 65536 * s[2] + 16777216 * s[3]
    } else {
        0
    }
}

/// Reads a little-endian `u32` from the start of a byte slice, without panicking: 0 when the
/// slice holds fewer than four bytes.
pub fn read_u32_le(slice: &[u8]) -> (v: u32)
    ensures
        v == u32_le(slice@),
{
    if slice.len() >= 4 {
        let b0 = slice[0] as u32;
        let b1 = slice[1] as u32;
        let b2 = slice[2] as u32;
        let b3 = slice[3] as u32;
        b0 + 256 * b1 + 65536 * b2 + 16777216 * b3
    } else {
        0
    }
}

/// The global header of a tracker packet: frame size, frame byte count, number of hand blocks.
pub struct PacketHeader {
    pub width: u32,
    pub height: u32,
    pub frame_len: u32,
    pub hands_count: u8,
}

/// Why a packet header is refused.
#[derive(Debug, Clone, Copy, PartialEq, Eq, Structural)]
pub enum HeaderError {
    /// The packet does not start with the bytes "HAND".
    BadMagic,
}

/// Whether the bytes start with "HAND".
pub open spec fn has_magic(h: Seq<u8>) -> bool {
    h.len() >= 4 && h[0] == 72 && h[1] == 65 && h[2] == 78 && h[3] == 68
}

/// Decodes the 21-byte global header of a packet: "HAND", then the width, height and frame
/// length as little-endian `u32`, then the number of hand blocks (four reserved bytes follow).
pub fn parse_packet_header(h: &[u8]) -> (r: Result<PacketHeader, HeaderError>)
    requires
        h@.len() == 21,
    ensures
        r is Ok <==> has_magic(h@),
        r is Err ==> r == Err::<PacketHeader, HeaderError>(HeaderError::BadMagic),
        r matches Ok(p) ==> (p.width == u32_le(h@.subrange(4, 8)) && p.height == u32_le(h@.subrange(8, 12))
            && p.frame_len == u32_le(h@.subrange(12, 16)) && p.hands_count == h@[16]),
{
    if !(h[0] == 72 && h[1] == 65 && h[2] == 78 && h[3] == 68) {
        return Err(HeaderError::BadMagic);
    }
    let width = read_u32_le(slice_of(h, 4).as_slice());
    let height = read_u32_le(slice_of(h, 8).as_slice());
    let frame_len = read_u32_le(slice_of(h, 12).as_slice());
    Ok(PacketHeader { width, height, frame_len, hands_count: h[16] })
}

/// The four bytes from `start`.
fn slice_of(h: &[u8], start: usize) -> (v: Vec<u8>)
    requires
        start + 4 <= h@.len(),
    ensures
        v@ == h@.subrange(start as int, start + 4),
{
    let v = vec![h[start], h[start + 1], h[start + 2], h[start + 3]];
    assert(v@ =~= h@.subrange(start as int, start + 4));
    v
}

} // verus!
