//! Bounds-checked reads of little-endian fields from a byte buffer.

use byteorder::{LittleEndian, ReadBytesExt};
use vstd::prelude::*;
use vstd::slice::{slice_subrange, slice_to_vec};

verus! {

/// Whether a field of `width` bytes that starts at `at` lies inside `data`.
pub open spec fn fits(data: Seq<u8>, at: int, width: int) -> bool {
    0 <= at && 0 <= width && at + width <= data.len()
}

/// The byte at `at`, as a number.
pub open spec fn byte_at(data: Seq<u8>, at: int) -> int {
    data[at] as int
}

/// The little-endian value of the two bytes that start at `at`.
pub open spec fn le_u16_at(data: Seq<u8>, at: int) -> u16 {
    (byte_at(data, at) + 0x100 * byte_at(data, at + 1)) as u16
}

/// The little-endian value of the four bytes that start at `at`.
pub open spec fn le_u32_at(data: Seq<u8>, at: int) -> u32 {
    (le_u16_at(data, at) + 0x1_0000 * le_u16_at(data, at + 2)) as u32
}

/// The little-endian value of the eight bytes that start at `at`.
pub open spec fn le_u64_at(data: Seq<u8>, at: int) -> u64 {
    (le_u32_at(data, at) + 0x1_0000_0000 * le_u32_at(data, at + 4)) as u64
}

/// `byteorder::ReadBytesExt::read_u16::<LittleEndian>` on a byte slice.
///
/// Trusted: the call fails when the slice holds fewer than two bytes, and
/// otherwise gives the little-endian value of its first two bytes.
#[verifier::external_body]
fn read_u16_le(bytes: &[u8]) -> (r: Option<u16>)
    ensures
        r == (if bytes@.len() >= 2 {
            Some(le_u16_at(bytes@, 0))
        } else {
            None
        }),
{
    let mut reader = bytes;
    reader.read_u16::<LittleEndian>().ok()
}

/// `byteorder::ReadBytesExt::read_u32::<LittleEndian>` on a byte slice.
///
/// Trusted: the call fails when the slice holds fewer than four bytes, and
/// otherwise gives the little-endian value of its first four bytes.
#[verifier::external_body]
fn read_u32_le(bytes: &[u8]) -> (r: Option<u32>)
    ensures
        r == (if bytes@.len() >= 4 {
            Some(le_u32_at(bytes@, 0))
        } else {
            None
        }),
{
    let mut reader = bytes;
    reader.read_u32::<LittleEndian>().ok()
}

/// `byteorder::ReadBytesExt::read_u64::<LittleEndian>` on a byte slice.
///
/// Trusted: the call fails when the slice holds fewer than eight bytes, and
/// otherwise gives the little-endian value of its first eight bytes.
#[verifier::external_body]
fn read_u64_le(bytes: &[u8]) -> (r: Option<u64>)
    ensures
        r == (if bytes@.len() >= 8 {
            Some(le_u64_at(bytes@, 0))
        } else {
            None
        }),
{
    let mut reader = bytes;
    reader.read_u64::<LittleEndian>().ok()
}

/// What a read of a two-byte field at `at` gives.
pub open spec fn u16_field(data: Seq<u8>, at: int) -> Option<u16> {
    if fits(data, at, 2) {
        Some(le_u16_at(data, at))
    } else {
        None
    }
}

/// What a read of a four-byte field at `at` gives.
pub open spec fn u32_field(data: Seq<u8>, at: int) -> Option<u32> {
    if fits(data, at, 4) {
        Some(le_u32_at(data, at))
    } else {
        None
    }
}

/// What a read of an eight-byte field at `at` gives.
pub open spec fn u64_field(data: Seq<u8>, at: int) -> Option<u64> {
    if fits(data, at, 8) {
        Some(le_u64_at(data, at))
    } else {
        None
    }
}

/// What a read of `width` raw bytes at `at` gives.
pub open spec fn bytes_field(data: Seq<u8>, at: int, width: int) -> Option<Seq<u8>> {
    if fits(data, at, width) {
        Some(data.subrange(at, at + width))
    } else {
        None
    }
}

/// The part of `data` from `at` on, or nothing where `at` lies beyond the end.
fn tail(data: &[u8], at: usize) -> (r: Option<&[u8]>)
    ensures
        r matches Some(t) ==> at <= data@.len() && t@ == data@.subrange(
            at as int,
            data@.len() as int,
        ),
        r is None <==> at > data@.len(),
{
    if at > data.len() {
        None
    } else {
        Some(slice_subrange(data, at, data.len()))
    }
}

/// Reads the single byte at `at`.
pub fn read_u8(data: &[u8], at: usize) -> (r: Option<u8>)
    ensures
        r == (if fits(data@, at as int, 1) {
            Some(data@[at as int])
        } else {
            None
        }),
{
    if at < data.len() {
        Some(data[at])
    } else {
        None
    }
}

/// Reads the little-endian two-byte field at `at`.
pub fn read_u16(data: &[u8], at: usize) -> (r: Option<u16>)
    ensures
        r == u16_field(data@, at as int),
{
    match tail(data, at) {
        Some(rest) => read_u16_le(rest),
        None => None,
    }
}

/// Reads the little-endian four-byte field at `at`.
pub fn read_u32(data: &[u8], at: usize) -> (r: Option<u32>)
    ensures
        r == u32_field(data@, at as int),
{
    match tail(data, at) {
        Some(rest) => read_u32_le(rest),
        None => None,
    }
}

/// Reads the little-endian eight-byte field at `at`.
pub fn read_u64(data: &[u8], at: usize) -> (r: Option<u64>)
    ensures
        r == u64_field(data@, at as int),
{
    match tail(data, at) {
        Some(rest) => read_u64_le(rest),
        None => None,
    }
}

/// Copies the `width` bytes that start at `at`.
pub fn read_bytes(data: &[u8], at: usize, width: usize) -> (r: Option<Vec<u8>>)
    ensures
        match r {
            Some(v) => bytes_field(data@, at as int, width as int) == Some(v@),
            None => bytes_field(data@, at as int, width as int) is None,
        },
{
    if at > data.len() || data.len() - at < width {
        None
    } else {
        Some(slice_to_vec(slice_subrange(data, at, at + width)))
    }
}

} // verus!
