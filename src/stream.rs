//! An owned, seekable byte stream and the little-endian integers read from it.

use byteorder::{ByteOrder, LittleEndian};
use vstd::prelude::*;
use vstd::slice::{slice_subrange, slice_to_vec};

verus! {

/// The little-endian `u16` held by `d[p]`, `d[p + 1]`.
pub open spec fn u16_le(d: Seq<u8>, p: int) -> u16 {
    (d[p] as int + d[p + 1] as int * 0x100) as u16
}

/// The little-endian `u32` held by the four bytes of `d` from `p` on.
pub open spec fn u32_le(d: Seq<u8>, p: int) -> u32 {
    (d[p] as int + d[p + 1] as int * 0x100 + d[p + 2] as int * 0x10000 + d[p + 3] as int
        * 0x1000000) as u32
}

/// The little-endian `u64` held by the eight bytes of `d` from `p` on.
pub open spec fn u64_le(d: Seq<u8>, p: int) -> u64 {
    (u32_le(d, p) as int + u32_le(d, p + 4) as int * 0x1_0000_0000) as u64
}

/// Whether `n` bytes can be read from position `p` of `d`.
pub open spec fn fits(d: Seq<u8>, p: int, n: int) -> bool {
    0 <= p && p + n <= d.len()
}

/// What `String::from_utf8_lossy` makes of `b`: the UTF-8 text of `b`, each
/// invalid sequence replaced by U+FFFD.
pub uninterp spec fn utf8_lossy(b: Seq<u8>) -> Seq<char>;

/// Relies on std's `String::from_utf8_lossy`: it never fails, and its result
/// depends on the bytes alone.
#[verifier::external_body]
fn decode_lossy(b: &[u8]) -> (r: String)
    ensures
        r@ == utf8_lossy(b@),
{
    String::from_utf8_lossy(b).into_owned()
}

/// Relies on byteorder's `LittleEndian::read_u16`: the first two bytes,
/// least significant first (it panics on fewer than two).
#[verifier::external_body]
fn le_u16(buf: &[u8]) -> (r: u16)
    requires
        buf@.len() >= 2,
    ensures
        r == u16_le(buf@, 0),
{
    LittleEndian::read_u16(buf)
}

/// Relies on byteorder's `LittleEndian::read_u32`: the first four bytes,
/// least significant first (it panics on fewer than four).
#[verifier::external_body]
fn le_u32(buf: &[u8]) -> (r: u32)
    requires
        buf@.len() >= 4,
    ensures
        r == u32_le(buf@, 0),
{
    LittleEndian::read_u32(buf)
}

/// Relies on byteorder's `LittleEndian::read_u64`: the first eight bytes,
/// least significant first (it panics on fewer than eight).
#[verifier::external_body]
fn le_u64(buf: &[u8]) -> (r: u64)
    requires
        buf@.len() >= 8,
    ensures
        r == u64_le(buf@, 0),
{
    LittleEndian::read_u64(buf)
}

/// The `u16` stored little-endian at `p` in `b`.
pub fn u16_at(b: &[u8], p: usize) -> (r: u16)
    requires
        fits(b@, p as int, 2),
    ensures
        r == u16_le(b@, p as int),
{
    let len = b.len();
    let s = slice_subrange(b, p, len);
    assert(s@[0] == b@[p as int] && s@[1] == b@[p + 1]);
    le_u16(s)
}

/// The `u32` stored little-endian at `p` in `b`.
pub fn u32_at(b: &[u8], p: usize) -> (r: u32)
    requires
        fits(b@, p as int, 4),
    ensures
        r == u32_le(b@, p as int),
{
    let len = b.len();
    let s = slice_subrange(b, p, len);
    assert(s@[0] == b@[p as int] && s@[1] == b@[p + 1] && s@[2] == b@[p + 2] && s@[3] == b@[p
        + 3]);
    le_u32(s)
}

/// The `u64` stored little-endian at `p` in `b`.
pub fn u64_at(b: &[u8], p: usize) -> (r: u64)
    requires
        fits(b@, p as int, 8),
    ensures
        r == u64_le(b@, p as int),
{
    let len = b.len();
    let s = slice_subrange(b, p, len);
    assert(forall|i: int| 0 <= i < 8 ==> s@[i] == b@[p + i]);
    assert(u32_le(s@, 0) == u32_le(b@, p as int));
    assert(u32_le(s@, 4) == u32_le(b@, p + 4));
    le_u64(s)
}

/// Why a read from a stream failed.
#[derive(Clone, Copy, Debug, PartialEq, Eq, Structural)]
pub enum IoError {
    /// The stream ended before the bytes asked for.
    UnexpectedEof,
}

/// Bytes held in memory with a read position, as a seekable file would be
/// read. The position may stand past the end: reads from there fail.
#[derive(Debug)]
pub struct ByteStream {
    data: Vec<u8>,
    pos: usize,
}

impl ByteStream {
    /// The bytes of the stream.
    pub closed spec fn bytes(&self) -> Seq<u8> {
        self.data@
    }

    /// The read position.
    pub closed spec fn pos(&self) -> int {
        self.pos as int
    }

    /// A stream over `data`, positioned at its start.
    pub fn new(data: Vec<u8>) -> (r: ByteStream)
        ensures
            r.bytes() == data@,
            r.pos() == 0,
    {
        ByteStream { data, pos: 0 }
    }

    /// The read position.
    pub fn position(&self) -> (r: usize)
        ensures
            r as int == self.pos(),
    {
        self.pos
    }

    /// Moves the read position to `pos`, counted from the start.
    pub fn seek(&mut self, pos: usize)
        ensures
            final(self).bytes() == old(self).bytes(),
            final(self).pos() == pos as int,
    {
        self.pos = pos;
    }

    /// Reads exactly `n` bytes; fails, and stays where it is, if fewer are left.
    pub fn read_exact(&mut self, n: usize) -> (r: Result<Vec<u8>, IoError>)
        ensures
            final(self).bytes() == old(self).bytes(),
            fits(old(self).bytes(), old(self).pos(), n as int) ==> r is Ok && r->Ok_0@
                == old(self).bytes().subrange(old(self).pos(), old(self).pos() + n)
                && final(self).pos() == old(self).pos() + n,
            !fits(old(self).bytes(), old(self).pos(), n as int) ==> r == Err::<Vec<u8>, IoError>(
                IoError::UnexpectedEof,
            ) && final(self).pos() == old(self).pos(),
    {
        let len = self.data.len();
        if self.pos > len || len - self.pos < n {
            return Err(IoError::UnexpectedEof);
        }
        let s = slice_subrange(self.data.as_slice(), self.pos, self.pos + n);
        let v = slice_to_vec(s);
        self.pos = self.pos + n;
        Ok(v)
    }

    /// Reads exactly `n` bytes and decodes them as UTF-8, replacing invalid
    /// sequences; fails, and stays where it is, if fewer are left.
    pub fn read_lossy(&mut self, n: usize) -> (r: Result<String, IoError>)
        ensures
            final(self).bytes() == old(self).bytes(),
            fits(old(self).bytes(), old(self).pos(), n as int) ==> r is Ok && r->Ok_0@
                == utf8_lossy(old(self).bytes().subrange(old(self).pos(), old(self).pos() + n))
                && final(self).pos() == old(self).pos() + n,
            !fits(old(self).bytes(), old(self).pos(), n as int) ==> r == Err::<String, IoError>(
                IoError::UnexpectedEof,
            ) && final(self).pos() == old(self).pos(),
    {
        let len = self.data.len();
        if self.pos > len || len - self.pos < n {
            return Err(IoError::UnexpectedEof);
        }
        let s = slice_subrange(self.data.as_slice(), self.pos, self.pos + n);
        let v = decode_lossy(s);
        self.pos = self.pos + n;
        Ok(v)
    }

    /// Reads a little-endian `u32`.
    pub fn read_u32(&mut self) -> (r: Result<u32, IoError>)
        ensures
            final(self).bytes() == old(self).bytes(),
            fits(old(self).bytes(), old(self).pos(), 4) ==> r == Ok::<u32, IoError>(
                u32_le(old(self).bytes(), old(self).pos()),
            ) && final(self).pos() == old(self).pos() + 4,
            !fits(old(self).bytes(), old(self).pos(), 4) ==> r == Err::<u32, IoError>(
                IoError::UnexpectedEof,
            ) && final(self).pos() == old(self).pos(),
    {
        let len = self.data.len();
        if self.pos > len || len - self.pos < 4 {
            return Err(IoError::UnexpectedEof);
        }
        let v = u32_at(self.data.as_slice(), self.pos);
        self.pos = self.pos + 4;
        Ok(v)
    }

    /// Reads a little-endian `u64`.
    pub fn read_u64(&mut self) -> (r: Result<u64, IoError>)
        ensures
            final(self).bytes() == old(self).bytes(),
            fits(old(self).bytes(), old(self).pos(), 8) ==> r == Ok::<u64, IoError>(
                u64_le(old(self).bytes(), old(self).pos()),
            ) && final(self).pos() == old(self).pos() + 8,
            !fits(old(self).bytes(), old(self).pos(), 8) ==> r == Err::<u64, IoError>(
                IoError::UnexpectedEof,
            ) && final(self).pos() == old(self).pos(),
    {
        let len = self.data.len();
        if self.pos > len || len - self.pos < 8 {
            return Err(IoError::UnexpectedEof);
        }
        let v = u64_at(self.data.as_slice(), self.pos);
        self.pos = self.pos + 8;
        Ok(v)
    }
}

} // verus!
