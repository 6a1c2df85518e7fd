//! A scan of the `.aseprite` frame and chunk framing for the user-data
//! chunks that the `aseprite-loader` parser cannot read safely.
//!
//! The file is a 128-byte header followed by frames. A frame is a `u32`
//! size (counting itself), a 12-byte frame header whose words at offsets 2
//! and 8 give the chunk count (the `u32` one when it is not 0), then its
//! chunks. A chunk is a `u32` size (counting itself), a `u16` type and its
//! payload. A user-data chunk (type `0x2020`) holds a `u32` flag set, then a
//! text (a `u16` length and that many bytes) when bit 0 is set, a 4-byte
//! color when bit 1 is set, and a properties block when bit 2 is set, whose
//! first `u32` is the block's size in bytes (counting the 8-byte block head).
//!
//! The parser subtracts 8 from that size unchecked, and it reads the
//! property values inside the block by recursion, one call per nesting
//! level. Every level reads at least [`MIN_LEVEL_BYTES`] bytes of the block
//! before it descends (a vector's element count and element type), so a
//! block of at most [`MAX_PROPERTIES_BLOCK`] bytes lets the recursion descend
//! at most [`MAX_PROPERTY_DEPTH`] times. The scan walks the framing as far as
//! it can be read and refuses a properties block whose size is below 8 or
//! above [`MAX_PROPERTIES_BLOCK`]. Every integer is little-endian.
use vstd::prelude::*;

verus! {

/// The fewest bytes a nesting level of property values reads before it
/// descends into the next.
pub const MIN_LEVEL_BYTES: u64 = 6;

/// The most times the reader lets the parser's recursion over property
/// values descend.
pub const MAX_PROPERTY_DEPTH: u64 = 256;

/// The largest properties block the reader lets the parser meet: the block
/// head and [`MAX_PROPERTY_DEPTH`] levels of [`MIN_LEVEL_BYTES`] bytes.
pub const MAX_PROPERTIES_BLOCK: u64 = 1544;

/// The little-endian `u16` at `i`.
pub open spec fn le16(b: Seq<u8>, i: int) -> int {
    b[i] as int + b[i + 1] as int * 256
}

/// The little-endian `u32` at `i`.
pub open spec fn le32(b: Seq<u8>, i: int) -> int {
    le16(b, i) + le16(b, i + 2) * 65536
}

/// The user-data payload held in `b[p..e]` has its properties flag set and
/// a properties block whose size field, with the map count after it, can be
/// read and is below 8 or above [`MAX_PROPERTIES_BLOCK`].
pub open spec fn payload_refused(b: Seq<u8>, p: int, e: int) -> bool {
    if p + 4 > e {
        false
    } else {
        let flags = le32(b, p);
        let q1 = p + 4;
        if flags % 2 == 1 && (q1 + 2 > e || q1 + 2 + le16(b, q1) > e) {
            false
        } else {
            let q2 = if flags % 2 == 1 {
                q1 + 2 + le16(b, q1)
            } else {
                q1
            };
            let q3 = if (flags / 2) % 2 == 1 {
                q2 + 4
            } else {
                q2
            };
            &&& (flags / 4) % 2 == 1
            &&& q3 + 8 <= e
            &&& (le32(b, q3) < 8 || le32(b, q3) > MAX_PROPERTIES_BLOCK)
        }
    }
}

/// The chunk body `b[s..e]` (type and payload) is a user-data chunk whose
/// properties block the parser cannot read safely.
pub open spec fn chunk_refused(b: Seq<u8>, s: int, e: int) -> bool {
    &&& s + 2 <= e
    &&& le16(b, s) == 0x2020
    &&& payload_refused(b, s + 2, e)
}

/// One of the (at most) `n` chunks framed from `pos` up to `end` is such a
/// user-data chunk; the walk stops at a size below 4 or past `end`.
pub open spec fn chunks_refused(b: Seq<u8>, pos: int, end: int, n: nat) -> bool
    decreases n,
{
    if n == 0 || pos + 4 > end {
        false
    } else {
        let size = le32(b, pos);
        if size < 4 || pos + size > end {
            false
        } else {
            chunk_refused(b, pos + 4, pos + size) || chunks_refused(
                b,
                pos + size,
                end,
                (n - 1) as nat,
            )
        }
    }
}

/// The frame body `b[s..e]` holds such a user-data chunk.
pub open spec fn frame_refused(b: Seq<u8>, s: int, e: int) -> bool {
    &&& s + 12 <= e
    &&& {
        let w = le16(b, s + 2);
        let d = le32(b, s + 8);
        let n = if d == 0 {
            w
        } else {
            d
        };
        chunks_refused(b, s + 12, e, n as nat)
    }
}

/// One of the frames framed from `pos` to the end of `b` holds such a
/// user-data chunk; the walk stops at a size below 4 or past the end.
pub open spec fn frames_refused(b: Seq<u8>, pos: int) -> bool
    decreases b.len() - pos,
{
    if pos < 0 || pos + 4 > b.len() {
        false
    } else {
        let size = le32(b, pos);
        if size < 4 || pos + size > b.len() {
            false
        } else {
            frame_refused(b, pos + 4, pos + size) || frames_refused(b, pos + size)
        }
    }
}

/// The file framed in `b` holds a user-data chunk whose properties block
/// the parser cannot read safely.
pub open spec fn user_data_refused(b: Seq<u8>) -> bool {
    b.len() >= 128 && frames_refused(b, 128)
}

fn le16_at(b: &[u8], i: usize) -> (v: u64)
    requires
        i + 2 <= b@.len(),
    ensures
        v == le16(b@, i as int),
{
    b[i] as u64 + (b[i + 1] as u64) * 256
}

fn le32_at(b: &[u8], i: usize) -> (v: u64)
    requires
        i + 4 <= b@.len(),
    ensures
        v == le32(b@, i as int),
{
    let lo = le16_at(b, i);
    let n = b.len();
    assert(i + 2 < n);
    let j = i + 2;
    lo + le16_at(b, j) * 65536
}

fn payload_refused_at(b: &[u8], p: usize, e: usize) -> (r: bool)
    requires
        p <= e <= b@.len(),
    ensures
        r == payload_refused(b@, p as int, e as int),
{
    if e - p < 4 {
        return false;
    }
    let flags = le32_at(b, p);
    let q1 = p + 4;
    let mut q2 = q1;
    if flags % 2 == 1 {
        if e - q1 < 2 {
            return false;
        }
        let len = le16_at(b, q1);
        if len > (e - (q1 + 2)) as u64 {
            return false;
        }
        q2 = q1 + 2 + len as usize;
    }
    let mut q3 = q2;
    if (flags / 2) % 2 == 1 {
        if e - q2 < 4 {
            return false;
        }
        q3 = q2 + 4;
    }
    if (flags / 4) % 2 != 1 {
        return false;
    }
    if e - q3 < 8 {
        return false;
    }
    let size = le32_at(b, q3);
    size < 8 || size > MAX_PROPERTIES_BLOCK
}

fn chunk_refused_at(b: &[u8], s: usize, e: usize) -> (r: bool)
    requires
        s <= e <= b@.len(),
    ensures
        r == chunk_refused(b@, s as int, e as int),
{
    if e - s < 2 {
        return false;
    }
    if le16_at(b, s) != 0x2020 {
        return false;
    }
    payload_refused_at(b, s + 2, e)
}

fn chunks_refused_at(b: &[u8], start: usize, end: usize, n: u64) -> (r: bool)
    requires
        start <= end <= b@.len(),
    ensures
        r == chunks_refused(b@, start as int, end as int, n as nat),
{
    let mut pos = start;
    let mut k = n;
    while k > 0
        invariant
            start <= pos <= end <= b@.len(),
            chunks_refused(b@, start as int, end as int, n as nat) == chunks_refused(
                b@,
                pos as int,
                end as int,
                k as nat,
            ),
        decreases k,
    {
        if end - pos < 4 {
            return false;
        }
        let size = le32_at(b, pos);
        if size < 4 || size > (end - pos) as u64 {
            return false;
        }
        let s = size as usize;
        if chunk_refused_at(b, pos + 4, pos + s) {
            return true;
        }
        pos = pos + s;
        k = k - 1;
    }
    false
}

fn frame_refused_at(b: &[u8], s: usize, e: usize) -> (r: bool)
    requires
        s <= e <= b@.len(),
    ensures
        r == frame_refused(b@, s as int, e as int),
{
    if e - s < 12 {
        return false;
    }
    let w = le16_at(b, s + 2);
    let d = le32_at(b, s + 8);
    let n = if d == 0 {
        w
    } else {
        d
    };
    chunks_refused_at(b, s + 12, e, n)
}

/// Whether the file framed in `bytes` holds a user-data chunk whose
/// properties block the parser cannot read safely.
pub fn has_refused_user_data(bytes: &[u8]) -> (r: bool)
    ensures
        r == user_data_refused(bytes@),
{
    let len = bytes.len();
    if len < 128 {
        return false;
    }
    let mut pos: usize = 128;
    while pos <= len
        invariant
            128 <= pos,
            len == bytes@.len(),
            frames_refused(bytes@, 128) == frames_refused(bytes@, pos as int),
        decreases len - pos,
    {
        if len - pos < 4 {
            return false;
        }
        let size = le32_at(bytes, pos);
        if size < 4 || size > (len - pos) as u64 {
            return false;
        }
        let s = size as usize;
        if frame_refused_at(bytes, pos + 4, pos + s) {
            return true;
        }
        pos = pos + s;
    }
    false
}

} // verus!
