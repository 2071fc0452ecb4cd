use crate::error::Error;
use vstd::prelude::*;

verus! {

/// A read position over a whole message buffer. Name decompression needs the
/// buffer itself, so the cursor keeps it alongside the offset.
pub struct Cursor<'a> {
    pub buf: &'a [u8],
    pub pos: usize,
}

impl<'a> Cursor<'a> {
    pub fn new(buf: &'a [u8]) -> (r: Cursor<'a>)
        ensures
            r.buf@ == buf@,
            r.pos == 0,
    {
        Cursor { buf, pos: 0 }
    }

    /// A cursor over `buf` positioned at `pos`, which may lie past its end.
    pub fn at(buf: &'a [u8], pos: usize) -> (r: Cursor<'a>)
        ensures
            r.buf@ == buf@,
            r.pos == pos,
    {
        Cursor { buf, pos }
    }
}

/// The `n` bytes of `b` that start at `p`, when that many remain.
pub open spec fn take(b: Seq<u8>, p: int, n: int) -> Option<Seq<u8>> {
    if 0 <= p && 0 <= n && p + n <= b.len() {
        Some(b.subrange(p, p + n))
    } else {
        None
    }
}

/// The big-endian value of two bytes.
pub open spec fn be16(hi: u8, lo: u8) -> u16 {
    (hi as int * 256 + lo as int) as u16
}

/// The big-endian value of four bytes.
pub open spec fn be32(b: Seq<u8>) -> u32 {
    (((b[0] as int * 256 + b[1] as int) * 256 + b[2] as int) * 256 + b[3] as int) as u32
}

/// The two big-endian bytes of `x`.
pub open spec fn be16_bytes(x: u16) -> Seq<u8> {
    seq![(x / 256) as u8, (x % 256) as u8]
}

/// The four big-endian bytes of `x`.
pub open spec fn be32_bytes(x: u32) -> Seq<u8> {
    seq![
        (x / 0x100_0000) as u8,
        (x / 0x1_0000 % 256) as u8,
        (x / 256 % 256) as u8,
        (x % 256) as u8,
    ]
}

/// What a read of `n` bytes does to a cursor at `pos` over `b`: the bytes and
/// the new position, or the end-of-buffer error with the position kept.
pub open spec fn read_spec(b: Seq<u8>, pos: int, n: int) -> Result<(Seq<u8>, int), Error> {
    match take(b, pos, n) {
        Some(bytes) => Ok((bytes, pos + n)),
        None => Err(Error::UnexpectedEnd),
    }
}

/// Whether `r` and `c1` are what a read of `n` bytes from `c0` gives.
pub open spec fn read_outcome(c0: Cursor, c1: Cursor, n: int, r: Result<Seq<u8>, Error>) -> bool {
    &&& c1.buf@ == c0.buf@
    &&& match read_spec(c0.buf@, c0.pos as int, n) {
        Ok((bytes, p)) => r == Ok::<Seq<u8>, Error>(bytes) && c1.pos == p,
        Err(e) => r == Err::<Seq<u8>, Error>(e) && c1.pos == c0.pos,
    }
}

pub open spec fn view_u8(r: Result<u8, Error>) -> Result<Seq<u8>, Error> {
    match r {
        Ok(b) => Ok(seq![b]),
        Err(e) => Err(e),
    }
}

pub open spec fn view_array2(r: Result<[u8; 2], Error>) -> Result<Seq<u8>, Error> {
    match r {
        Ok(b) => Ok(b@),
        Err(e) => Err(e),
    }
}

pub open spec fn view_array4(r: Result<[u8; 4], Error>) -> Result<Seq<u8>, Error> {
    match r {
        Ok(b) => Ok(b@),
        Err(e) => Err(e),
    }
}

pub open spec fn view_vec(r: Result<Vec<u8>, Error>) -> Result<Seq<u8>, Error> {
    match r {
        Ok(b) => Ok(b@),
        Err(e) => Err(e),
    }
}

/// Reads one byte, failing when the buffer has ended.
pub fn read_1_byte(r: &mut Cursor) -> (res: Result<u8, Error>)
    ensures
        read_outcome(*old(r), *final(r), 1, view_u8(res)),
        old(r).pos < old(r).buf@.len() ==> res == Ok::<u8, Error>(old(r).buf@[old(r).pos as int]),
{
    if r.pos < r.buf.len() {
        let b = r.buf[r.pos];
        r.pos = r.pos + 1;
        proof {
            assert(seq![b] =~= old(r).buf@.subrange(old(r).pos as int, old(r).pos + 1));
        }
        Ok(b)
    } else {
        Err(Error::UnexpectedEnd)
    }
}

/// Reads two bytes, failing when fewer remain.
pub fn read_2_bytes(r: &mut Cursor) -> (res: Result<[u8; 2], Error>)
    ensures
        read_outcome(*old(r), *final(r), 2, view_array2(res)),
{
    if r.pos < r.buf.len() && 2 <= r.buf.len() - r.pos {
        let out = [r.buf[r.pos], r.buf[r.pos + 1]];
        r.pos = r.pos + 2;
        proof {
            assert(out@ =~= old(r).buf@.subrange(old(r).pos as int, old(r).pos + 2));
        }
        Ok(out)
    } else {
        Err(Error::UnexpectedEnd)
    }
}

/// Reads four bytes, failing when fewer remain.
pub fn read_4_bytes(r: &mut Cursor) -> (res: Result<[u8; 4], Error>)
    ensures
        read_outcome(*old(r), *final(r), 4, view_array4(res)),
{
    if r.pos < r.buf.len() && 4 <= r.buf.len() - r.pos {
        let p = r.pos;
        let out = [r.buf[p], r.buf[p + 1], r.buf[p + 2], r.buf[p + 3]];
        r.pos = p + 4;
        proof {
            assert(out@ =~= old(r).buf@.subrange(p as int, p + 4));
        }
        Ok(out)
    } else {
        Err(Error::UnexpectedEnd)
    }
}

/// Reads `n` bytes, failing when fewer remain.
pub fn read_n_bytes(r: &mut Cursor, n: usize) -> (res: Result<Vec<u8>, Error>)
    ensures
        read_outcome(*old(r), *final(r), n as int, view_vec(res)),
{
    if r.pos <= r.buf.len() && n <= r.buf.len() - r.pos {
        let p = r.pos;
        let len = r.buf.len();
        let mut out: Vec<u8> = Vec::new();
        let mut i: usize = 0;
        while i < n
            invariant
                len == r.buf@.len(),
                p + n <= len,
                i <= n,
                out@ =~= r.buf@.subrange(p as int, p + i),
            decreases n - i,
        {
            out.push(r.buf[p + i]);
            i = i + 1;
        }
        r.pos = p + n;
        Ok(out)
    } else {
        Err(Error::UnexpectedEnd)
    }
}

/// The big-endian value of a two-byte array.
pub fn u16_from_be(b: [u8; 2]) -> (r: u16)
    ensures
        r == be16(b[0], b[1]),
{
    (b[0] as u16) * 256 + (b[1] as u16)
}

/// The big-endian value of a four-byte array.
pub fn u32_from_be(b: [u8; 4]) -> (r: u32)
    ensures
        r == be32(b@),
{
    (((b[0] as u32) * 256 + (b[1] as u32)) * 256 + (b[2] as u32)) * 256 + (b[3] as u32)
}

/// The two big-endian bytes of `x`.
pub fn u16_to_be(x: u16) -> (r: [u8; 2])
    ensures
        r@ == be16_bytes(x),
{
    let r = [(x / 256) as u8, (x % 256) as u8];
    assert(r@ =~= be16_bytes(x));
    r
}

/// The four big-endian bytes of `x`.
pub fn u32_to_be(x: u32) -> (r: [u8; 4])
    ensures
        r@ == be32_bytes(x),
{
    let r = [(x / 0x100_0000) as u8, (x / 0x1_0000 % 256) as u8, (x / 256 % 256) as u8, (x % 256) as u8];
    assert(r@ =~= be32_bytes(x));
    r
}

} // verus!
