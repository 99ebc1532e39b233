//! Little-endian integers in byte sequences.

use vstd::prelude::*;

use crate::format::{ErrorView, IrError};

verus! {

/// The u16 stored at `pos`.
pub open spec fn u16_at(data: Seq<u8>, pos: int) -> u16 {
    (data[pos] + 0x100 * data[pos + 1]) as u16
}

/// The u32 stored at `pos`.
pub open spec fn u32_at(data: Seq<u8>, pos: int) -> u32 {
    (data[pos] + 0x100 * data[pos + 1] + 0x1_0000 * data[pos + 2] + 0x100_0000 * data[pos
        + 3]) as u32
}

/// The u64 stored at `pos`.
pub open spec fn u64_at(data: Seq<u8>, pos: int) -> u64 {
    (u32_at(data, pos) + 0x1_0000_0000 * u32_at(data, pos + 4)) as u64
}

/// A byte position as far as `usize` reaches. Positions inside a buffer are
/// never affected; only a length that runs past the address space is.
pub open spec fn clamped(pos: int) -> int {
    if pos > usize::MAX {
        usize::MAX as int
    } else {
        pos
    }
}

/// The error for a read up to `end` in a buffer of `len` bytes.
pub open spec fn too_short(end: int, len: nat) -> ErrorView {
    ErrorView::BufferTooShort { expected: clamped(end), actual: len as int }
}

/// Read the u16 at `pos`, which lies in the buffer.
pub fn get_u16(data: &[u8], pos: usize) -> (res: u16)
    requires
        pos + 2 <= data@.len(),
    ensures
        res == u16_at(data@, pos as int),
{
    assert(data.len() == data@.len());
    data[pos] as u16 + 0x100 * data[pos + 1] as u16
}

/// Read the u32 at `pos`, which lies in the buffer.
pub fn get_u32(data: &[u8], pos: usize) -> (res: u32)
    requires
        pos + 4 <= data@.len(),
    ensures
        res == u32_at(data@, pos as int),
{
    assert(data.len() == data@.len());
    data[pos] as u32 + 0x100 * data[pos + 1] as u32 + 0x1_0000 * data[pos + 2] as u32 + 0x100_0000
        * data[pos + 3] as u32
}

/// Read the u64 at `pos`, which lies in the buffer.
pub fn get_u64(data: &[u8], pos: usize) -> (res: u64)
    requires
        pos + 8 <= data@.len(),
    ensures
        res == u64_at(data@, pos as int),
{
    assert(data.len() == data@.len());
    get_u32(data, pos) as u64 + 0x1_0000_0000 * get_u32(data, pos + 4) as u64
}

/// The outcome of reading a u16 at `pos`.
pub open spec fn u16_read(data: Seq<u8>, pos: int) -> Result<u16, ErrorView> {
    if pos + 2 > data.len() {
        Err(too_short(pos + 2, data.len()))
    } else {
        Ok(u16_at(data, pos))
    }
}

/// The outcome of reading a u32 at `pos`.
pub open spec fn u32_read(data: Seq<u8>, pos: int) -> Result<u32, ErrorView> {
    if pos + 4 > data.len() {
        Err(too_short(pos + 4, data.len()))
    } else {
        Ok(u32_at(data, pos))
    }
}

/// Read a little-endian u16 from `data` at `pos`.
pub fn read_u16(data: &[u8], pos: usize) -> (res: Result<u16, IrError>)
    ensures
        match res {
            Ok(v) => u16_read(data@, pos as int) == Ok::<u16, ErrorView>(v),
            Err(e) => u16_read(data@, pos as int) == Err::<u16, ErrorView>(e@),
        },
        res is Ok ==> pos + 2 <= data@.len() <= usize::MAX,
{
    if pos > data.len() || data.len() - pos < 2 {
        return Err(
            IrError::BufferTooShort { expected: pos.saturating_add(2), actual: data.len() },
        );
    }
    Ok(get_u16(data, pos))
}

/// Read a little-endian u32 from `data` at `pos`.
pub fn read_u32(data: &[u8], pos: usize) -> (res: Result<u32, IrError>)
    ensures
        match res {
            Ok(v) => u32_read(data@, pos as int) == Ok::<u32, ErrorView>(v),
            Err(e) => u32_read(data@, pos as int) == Err::<u32, ErrorView>(e@),
        },
        res is Ok ==> pos + 4 <= data@.len() <= usize::MAX,
{
    if pos > data.len() || data.len() - pos < 4 {
        return Err(
            IrError::BufferTooShort { expected: pos.saturating_add(4), actual: data.len() },
        );
    }
    Ok(get_u32(data, pos))
}

/// The two bytes of a u16, low byte first.
pub open spec fn u16_bytes(v: u16) -> Seq<u8> {
    seq![(v % 0x100) as u8, (v / 0x100) as u8]
}

/// The four bytes of a u32, low byte first.
pub open spec fn u32_bytes(v: u32) -> Seq<u8> {
    seq![
        (v % 0x100) as u8,
        (v / 0x100 % 0x100) as u8,
        (v / 0x1_0000 % 0x100) as u8,
        (v / 0x100_0000) as u8,
    ]
}

/// Append a u16, low byte first.
pub fn push_u16(buf: &mut Vec<u8>, v: u16)
    ensures
        final(buf)@ == old(buf)@ + u16_bytes(v),
{
    buf.push((v % 0x100) as u8);
    buf.push((v / 0x100) as u8);
    proof {
        assert(buf@ =~= old(buf)@ + u16_bytes(v));
    }
}

/// Append a u32, low byte first.
pub fn push_u32(buf: &mut Vec<u8>, v: u32)
    ensures
        final(buf)@ == old(buf)@ + u32_bytes(v),
{
    buf.push((v % 0x100) as u8);
    buf.push((v / 0x100 % 0x100) as u8);
    buf.push((v / 0x1_0000 % 0x100) as u8);
    buf.push((v / 0x100_0000) as u8);
    proof {
        assert(buf@ =~= old(buf)@ + u32_bytes(v));
    }
}

/// Append a run of bytes.
pub fn push_bytes(buf: &mut Vec<u8>, more: &[u8])
    ensures
        final(buf)@ == old(buf)@ + more@,
{
    let mut i: usize = 0;
    while i < more.len()
        invariant
            i <= more@.len(),
            buf@ == old(buf)@ + more@.take(i as int),
        decreases more.len() - i,
    {
        buf.push(more[i]);
        i += 1;
        proof {
            assert(more@.take(i as int) =~= more@.take(i - 1).push(more@[i - 1]));
        }
    }
    proof {
        assert(more@.take(more@.len() as int) =~= more@);
    }
}

/// Copy a run of bytes out of a buffer.
pub fn copy_range(data: &[u8], start: usize, end: usize) -> (res: Vec<u8>)
    requires
        start <= end <= data@.len(),
    ensures
        res@ == data@.subrange(start as int, end as int),
{
    let mut res: Vec<u8> = Vec::with_capacity(end - start);
    let mut i: usize = start;
    while i < end
        invariant
            start <= i <= end <= data@.len(),
            res@ == data@.subrange(start as int, i as int),
        decreases end - i,
    {
        res.push(data[i]);
        i += 1;
        proof {
            assert(data@.subrange(start as int, i as int) =~= data@.subrange(
                start as int,
                i - 1,
            ).push(data@[i - 1]));
        }
    }
    res
}

/// A u16 is read back from its bytes, wherever they stand.
pub proof fn u16_round_trip(data: Seq<u8>, pos: int, v: u16)
    requires
        0 <= pos,
        pos + 2 <= data.len(),
        data.subrange(pos, pos + 2) == u16_bytes(v),
    ensures
        u16_at(data, pos) == v,
{
    let part = data.subrange(pos, pos + 2);
    assert(part[0] == data[pos] && part[1] == data[pos + 1]);
}

/// A u32 is read back from its bytes, wherever they stand.
pub proof fn u32_round_trip(data: Seq<u8>, pos: int, v: u32)
    requires
        0 <= pos,
        pos + 4 <= data.len(),
        data.subrange(pos, pos + 4) == u32_bytes(v),
    ensures
        u32_at(data, pos) == v,
{
    let part = data.subrange(pos, pos + 4);
    assert(part[0] == data[pos] && part[1] == data[pos + 1] && part[2] == data[pos + 2]
        && part[3] == data[pos + 3]);
}

} // verus!
