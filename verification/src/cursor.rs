use vstd::prelude::*;
use vstd::slice::slice_subrange;
use byteorder::{ByteOrder, LittleEndian};
use crate::error::FormatError;

verus! {

/// Whether `n` bytes can be read from `b` starting at offset `p`.
pub open spec fn can_read(b: Seq<u8>, p: int, n: int) -> bool {
    0 <= p && 0 <= n && p + n <= b.len()
}

/// The unsigned 16-bit value stored at `p`, least significant byte first.
pub open spec fn u16_at(b: Seq<u8>, p: int) -> u16 {
    (b[p] as int + 0x100 * (b[p + 1] as int)) as u16
}

/// The unsigned 32-bit value stored at `p`, least significant byte first.
pub open spec fn u32_at(b: Seq<u8>, p: int) -> u32 {
    (b[p] as int + 0x100 * (b[p + 1] as int) + 0x1_0000 * (b[p + 2] as int) + 0x100_0000 * (b[p
        + 3] as int)) as u32
}

/// The two's-complement 16-bit value stored at `p`, least significant byte first.
pub open spec fn i16_at(b: Seq<u8>, p: int) -> i16 {
    let v = u16_at(b, p) as int;
    if v < 0x8000 {
        v as i16
    } else {
        (v - 0x1_0000) as i16
    }
}

/// The two's-complement 32-bit value stored at `p`, least significant byte first.
pub open spec fn i32_at(b: Seq<u8>, p: int) -> i32 {
    let v = u32_at(b, p) as int;
    if v < 0x8000_0000 {
        v as i32
    } else {
        (v - 0x1_0000_0000) as i32
    }
}

/// `byteorder::LittleEndian::read_u16`: the value of the first two bytes of
/// `buf`, least significant first. The call panics on a shorter slice.
#[verifier::external_body]
fn le_u16(buf: &[u8]) -> (v: u16)
    requires
        buf@.len() >= 2,
    ensures
        v == u16_at(buf@, 0),
{
    LittleEndian::read_u16(buf)
}

/// `byteorder::LittleEndian::read_u32`: the value of the first four bytes of
/// `buf`, least significant first. The call panics on a shorter slice.
#[verifier::external_body]
fn le_u32(buf: &[u8]) -> (v: u32)
    requires
        buf@.len() >= 4,
    ensures
        v == u32_at(buf@, 0),
{
    LittleEndian::read_u32(buf)
}

/// `byteorder::LittleEndian::read_i16`: the first two bytes of `buf` read as
/// an unsigned value, least significant first, and reinterpreted in two's
/// complement. The call panics on a shorter slice.
#[verifier::external_body]
fn le_i16(buf: &[u8]) -> (v: i16)
    requires
        buf@.len() >= 2,
    ensures
        v == i16_at(buf@, 0),
{
    LittleEndian::read_i16(buf)
}

/// `byteorder::LittleEndian::read_i32`: the first four bytes of `buf` read as
/// an unsigned value, least significant first, and reinterpreted in two's
/// complement. The call panics on a shorter slice.
#[verifier::external_body]
fn le_i32(buf: &[u8]) -> (v: i32)
    requires
        buf@.len() >= 4,
    ensures
        v == i32_at(buf@, 0),
{
    LittleEndian::read_i32(buf)
}

/// A sequential little-endian reader over an immutable byte buffer.
///
/// The position never leaves the buffer: a read, skip or seek that would end
/// past the last byte fails with `Truncated` and leaves the position where
/// it was.
pub struct ByteCursor<'a> {
    data: &'a [u8],
    pos: usize,
}

impl<'a> ByteCursor<'a> {
    #[verifier::type_invariant]
    spec fn in_bounds(self) -> bool {
        self.pos <= self.data@.len()
    }

    /// The bytes of the underlying buffer.
    pub closed spec fn bytes(self) -> Seq<u8> {
        self.data@
    }

    /// The offset of the next byte to read.
    pub closed spec fn pos(self) -> nat {
        self.pos as nat
    }

    /// A cursor at the start of `data`.
    pub fn new(data: &'a [u8]) -> (c: Self)
        ensures
            c.bytes() == data@,
            c.pos() == 0,
    {
        ByteCursor { data, pos: 0 }
    }

    /// The offset of the next byte to read.
    pub fn position(&self) -> (p: usize)
        ensures
            p == self.pos(),
            p <= self.bytes().len(),
    {
        proof {
            use_type_invariant(self);
        }
        self.pos
    }

    /// The length of the underlying buffer.
    pub fn len(&self) -> (n: usize)
        ensures
            n == self.bytes().len(),
    {
        self.data.len()
    }

    /// The number of bytes between the position and the end of the buffer.
    pub fn remaining(&self) -> (n: usize)
        ensures
            n == self.bytes().len() - self.pos(),
    {
        proof {
            use_type_invariant(self);
        }
        self.data.len() - self.pos
    }

    /// Whether every byte has been consumed.
    pub fn is_at_end(&self) -> (b: bool)
        ensures
            b == (self.pos() == self.bytes().len()),
    {
        proof {
            use_type_invariant(self);
        }
        self.pos >= self.data.len()
    }

    /// Moves to the absolute offset `target`.
    pub fn seek(&mut self, target: usize) -> (r: Result<(), FormatError>)
        ensures
            final(self).bytes() == old(self).bytes(),
            target <= old(self).bytes().len() ==> r is Ok && final(self).pos() == target,
            target > old(self).bytes().len() ==> r == Err::<(), FormatError>(FormatError::Truncated)
                && final(self).pos() == old(self).pos(),
    {
        if target <= self.data.len() {
            self.pos = target;
            Ok(())
        } else {
            Err(FormatError::Truncated)
        }
    }

    /// Moves `n` bytes forward without looking at them.
    pub fn skip(&mut self, n: usize) -> (r: Result<(), FormatError>)
        ensures
            reads(*old(self), *final(self), n as int, (), r),
    {
        proof {
            use_type_invariant(&*self);
        }
        if n <= self.data.len() - self.pos {
            self.pos = self.pos + n;
            Ok(())
        } else {
            Err(FormatError::Truncated)
        }
    }

    /// Reads one byte.
    pub fn read_u8(&mut self) -> (r: Result<u8, FormatError>)
        ensures
            reads(*old(self), *final(self), 1, old(self).bytes()[old(self).pos() as int], r),
    {
        proof {
            use_type_invariant(&*self);
        }
        if self.pos < self.data.len() {
            let v: u8 = self.data[self.pos];
            self.pos = self.pos + 1;
            Ok(v)
        } else {
            Err(FormatError::Truncated)
        }
    }

    /// Reads an unsigned 16-bit value, least significant byte first.
    pub fn read_u16(&mut self) -> (r: Result<u16, FormatError>)
        ensures
            reads(*old(self), *final(self), 2, u16_at(old(self).bytes(), old(self).pos() as int), r),
    {
        proof {
            use_type_invariant(&*self);
        }
        if 2 <= self.data.len() - self.pos {
            let v: u16 = le_u16(slice_subrange(self.data, self.pos, self.pos + 2));
            self.pos = self.pos + 2;
            Ok(v)
        } else {
            Err(FormatError::Truncated)
        }
    }

    /// Reads a signed 16-bit value, least significant byte first.
    pub fn read_i16(&mut self) -> (r: Result<i16, FormatError>)
        ensures
            reads(*old(self), *final(self), 2, i16_at(old(self).bytes(), old(self).pos() as int), r),
    {
        proof {
            use_type_invariant(&*self);
        }
        if 2 <= self.data.len() - self.pos {
            let v: i16 = le_i16(slice_subrange(self.data, self.pos, self.pos + 2));
            self.pos = self.pos + 2;
            Ok(v)
        } else {
            Err(FormatError::Truncated)
        }
    }

    /// Reads an unsigned 32-bit value, least significant byte first.
    pub fn read_u32(&mut self) -> (r: Result<u32, FormatError>)
        ensures
            reads(*old(self), *final(self), 4, u32_at(old(self).bytes(), old(self).pos() as int), r),
    {
        proof {
            use_type_invariant(&*self);
        }
        if 4 <= self.data.len() - self.pos {
            let v: u32 = le_u32(slice_subrange(self.data, self.pos, self.pos + 4));
            self.pos = self.pos + 4;
            Ok(v)
        } else {
            Err(FormatError::Truncated)
        }
    }

    /// Reads a signed 32-bit value, least significant byte first.
    pub fn read_i32(&mut self) -> (r: Result<i32, FormatError>)
        ensures
            reads(*old(self), *final(self), 4, i32_at(old(self).bytes(), old(self).pos() as int), r),
    {
        proof {
            use_type_invariant(&*self);
        }
        if 4 <= self.data.len() - self.pos {
            let v: i32 = le_i32(slice_subrange(self.data, self.pos, self.pos + 4));
            self.pos = self.pos + 4;
            Ok(v)
        } else {
            Err(FormatError::Truncated)
        }
    }
}

/// What a sequential read of `n` bytes does to a cursor: where the bytes are
/// there it yields `value` and moves `n` bytes on, and where they are not it
/// fails with `Truncated` and stays where it was. The buffer is never changed.
pub open spec fn reads<T>(
    before: ByteCursor,
    after: ByteCursor,
    n: int,
    value: T,
    r: Result<T, FormatError>,
) -> bool {
    &&& after.bytes() == before.bytes()
    &&& before.pos() <= before.bytes().len()
    &&& if can_read(before.bytes(), before.pos() as int, n) {
        r == Ok::<T, FormatError>(value) && after.pos() == before.pos() + n
    } else {
        r == Err::<T, FormatError>(FormatError::Truncated) && after.pos() == before.pos()
    }
}

} // verus!
