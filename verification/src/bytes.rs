//! Big and little endian integers over byte sequences, a reading cursor over
//! a byte slice, and sequential writes into a byte slice.
use vstd::prelude::*;
use crate::error::Error;

verus! {

// ---------------------------------------------------------------------------
// Decoding integers from byte sequences
// ---------------------------------------------------------------------------

pub open spec fn be_u16(s: Seq<u8>, i: int) -> u16 {
    (s[i] as int * 0x100 + s[i + 1] as int) as u16
}

pub open spec fn be_u24(s: Seq<u8>, i: int) -> u32 {
    (s[i] as int * 0x10000 + s[i + 1] as int * 0x100 + s[i + 2] as int) as u32
}

pub open spec fn be_u32(s: Seq<u8>, i: int) -> u32 {
    (s[i] as int * 0x1000000 + s[i + 1] as int * 0x10000 + s[i + 2] as int * 0x100
        + s[i + 3] as int) as u32
}

pub open spec fn be_u64(s: Seq<u8>, i: int) -> u64 {
    (be_u32(s, i) as int * 0x1_0000_0000 + be_u32(s, i + 4) as int) as u64
}

pub open spec fn le_u16(s: Seq<u8>, i: int) -> u16 {
    (s[i + 1] as int * 0x100 + s[i] as int) as u16
}

pub open spec fn le_u32(s: Seq<u8>, i: int) -> u32 {
    (s[i + 3] as int * 0x1000000 + s[i + 2] as int * 0x10000 + s[i + 1] as int * 0x100
        + s[i] as int) as u32
}

// ---------------------------------------------------------------------------
// Encoding integers as byte sequences
// ---------------------------------------------------------------------------

pub open spec fn enc_u8(v: u8) -> Seq<u8> {
    seq![v]
}

pub open spec fn enc_u16(v: u16) -> Seq<u8> {
    seq![(v / 0x100) as u8, (v % 0x100) as u8]
}

/// The low 24 bits of `v`, most significant byte first.
pub open spec fn enc_u24(v: u32) -> Seq<u8> {
    seq![((v / 0x10000) % 0x100) as u8, ((v / 0x100) % 0x100) as u8, (v % 0x100) as u8]
}

pub open spec fn enc_u32(v: u32) -> Seq<u8> {
    seq![(v / 0x1000000) as u8, ((v / 0x10000) % 0x100) as u8, ((v / 0x100) % 0x100) as u8,
        (v % 0x100) as u8]
}

pub open spec fn enc_u64(v: u64) -> Seq<u8> {
    enc_u32((v / 0x1_0000_0000) as u32) + enc_u32((v % 0x1_0000_0000) as u32)
}

pub proof fn lemma_u16_roundtrip(v: u16, s: Seq<u8>, i: int)
    requires
        0 <= i,
        i + 2 <= s.len(),
        s.subrange(i, i + 2) == enc_u16(v),
    ensures
        be_u16(s, i) == v,
{
    assert(s[i] == s.subrange(i, i + 2)[0]);
    assert(s[i + 1] == s.subrange(i, i + 2)[1]);
}

pub proof fn lemma_u24_roundtrip(v: u32, s: Seq<u8>, i: int)
    requires
        0 <= i,
        i + 3 <= s.len(),
        v < 0x1000000,
        s.subrange(i, i + 3) == enc_u24(v),
    ensures
        be_u24(s, i) == v,
{
    assert(s[i] == s.subrange(i, i + 3)[0]);
    assert(s[i + 1] == s.subrange(i, i + 3)[1]);
    assert(s[i + 2] == s.subrange(i, i + 3)[2]);
}

pub proof fn lemma_u32_roundtrip(v: u32, s: Seq<u8>, i: int)
    requires
        0 <= i,
        i + 4 <= s.len(),
        s.subrange(i, i + 4) == enc_u32(v),
    ensures
        be_u32(s, i) == v,
{
    assert(s[i] == s.subrange(i, i + 4)[0]);
    assert(s[i + 1] == s.subrange(i, i + 4)[1]);
    assert(s[i + 2] == s.subrange(i, i + 4)[2]);
    assert(s[i + 3] == s.subrange(i, i + 4)[3]);
}

pub proof fn lemma_u64_roundtrip(v: u64, s: Seq<u8>, i: int)
    requires
        0 <= i,
        i + 8 <= s.len(),
        s.subrange(i, i + 8) == enc_u64(v),
    ensures
        be_u64(s, i) == v,
{
    let hi = (v / 0x1_0000_0000) as u32;
    let lo = (v % 0x1_0000_0000) as u32;
    assert(s.subrange(i, i + 4) =~= s.subrange(i, i + 8).subrange(0, 4));
    assert(s.subrange(i + 4, i + 8) =~= s.subrange(i, i + 8).subrange(4, 8));
    assert(enc_u64(v).subrange(0, 4) =~= enc_u32(hi));
    assert(enc_u64(v).subrange(4, 8) =~= enc_u32(lo));
    lemma_u32_roundtrip(hi, s, i);
    lemma_u32_roundtrip(lo, s, i + 4);
}

// ---------------------------------------------------------------------------
// Reading
// ---------------------------------------------------------------------------

/// A read position within a byte slice.
pub struct ByteReader<'a> {
    buffer: &'a [u8],
    position: usize,
}

impl<'a> ByteReader<'a> {
    #[verifier::type_invariant]
    spec fn inv(&self) -> bool {
        self.position <= self.buffer@.len()
    }

    /// The whole underlying input.
    pub closed spec fn data(&self) -> Seq<u8> {
        self.buffer@
    }

    /// The number of bytes consumed so far.
    pub closed spec fn pos(&self) -> int {
        self.position as int
    }

    /// The bytes not yet consumed.
    pub closed spec fn rest(&self) -> Seq<u8> {
        self.buffer@.skip(self.position as int)
    }

    pub fn new(buffer: &'a [u8]) -> (r: Self)
        ensures
            r.data() == buffer@,
            r.pos() == 0,
            r.rest() == buffer@,
    {
        let r = ByteReader { buffer, position: 0 };
        assert(r.rest() =~= buffer@);
        r
    }

    pub fn position(&self) -> (p: usize)
        ensures
            p == self.pos(),
            self.rest().len() == self.data().len() - p,
    {
        proof { use_type_invariant(self); }
        self.position
    }

    /// The number of bytes not yet consumed.
    pub fn remaining(&self) -> (n: usize)
        ensures
            n == self.rest().len(),
    {
        proof { use_type_invariant(self); }
        self.buffer.len() - self.position
    }

    /// Consume `n` bytes, giving them back as a slice.
    pub fn read_slice(&mut self, n: usize) -> (r: Result<&'a [u8], Error>)
        ensures
            final(self).data() == old(self).data(),
            n <= old(self).rest().len() ==> r is Ok && r->Ok_0@ == old(self).rest().take(n as int)
                && final(self).rest() == old(self).rest().skip(n as int)
                && final(self).pos() == old(self).pos() + n,
            n > old(self).rest().len() ==> r == Err::<&[u8], Error>(Error::UnexpectedEof)
                && final(self).rest() == old(self).rest() && final(self).pos() == old(self).pos(),
    {
        proof { use_type_invariant(&*self); }
        if n <= self.buffer.len() - self.position {
            let start = self.position;
            let out = vstd::slice::slice_subrange(self.buffer, start, start + n);
            self.position = start + n;
            assert(out@ =~= old(self).rest().take(n as int));
            assert(self.rest() =~= old(self).rest().skip(n as int));
            Ok(out)
        } else {
            Err(Error::UnexpectedEof)
        }
    }

    /// Consume `n` bytes into a new vector.
    pub fn read_vec(&mut self, n: usize) -> (r: Result<Vec<u8>, Error>)
        ensures
            final(self).data() == old(self).data(),
            n <= old(self).rest().len() ==> r is Ok && r->Ok_0@ == old(self).rest().take(n as int)
                && final(self).rest() == old(self).rest().skip(n as int)
                && final(self).pos() == old(self).pos() + n,
            n > old(self).rest().len() ==> r == Err::<Vec<u8>, Error>(Error::UnexpectedEof)
                && final(self).rest() == old(self).rest() && final(self).pos() == old(self).pos(),
    {
        let s = self.read_slice(n)?;
        Ok(vstd::slice::slice_to_vec(s))
    }

    pub fn read_u8(&mut self) -> (r: Result<u8, Error>)
        ensures
            final(self).data() == old(self).data(),
            1 <= old(self).rest().len() ==> r == Ok::<u8, Error>(old(self).rest()[0])
                && final(self).rest() == old(self).rest().skip(1)
                && final(self).pos() == old(self).pos() + 1,
            1 > old(self).rest().len() ==> r == Err::<u8, Error>(Error::UnexpectedEof)
                && final(self).rest() == old(self).rest() && final(self).pos() == old(self).pos(),
    {
        let s = self.read_slice(1)?;
        Ok(s[0])
    }

    pub fn read_u16_be(&mut self) -> (r: Result<u16, Error>)
        ensures
            final(self).data() == old(self).data(),
            2 <= old(self).rest().len() ==> r == Ok::<u16, Error>(be_u16(old(self).rest(), 0))
                && final(self).rest() == old(self).rest().skip(2)
                && final(self).pos() == old(self).pos() + 2,
            2 > old(self).rest().len() ==> r == Err::<u16, Error>(Error::UnexpectedEof)
                && final(self).rest() == old(self).rest() && final(self).pos() == old(self).pos(),
    {
        let s = self.read_slice(2)?;
        Ok((s[0] as u16) * 0x100 + s[1] as u16)
    }

    pub fn read_u16_le(&mut self) -> (r: Result<u16, Error>)
        ensures
            final(self).data() == old(self).data(),
            2 <= old(self).rest().len() ==> r == Ok::<u16, Error>(le_u16(old(self).rest(), 0))
                && final(self).rest() == old(self).rest().skip(2)
                && final(self).pos() == old(self).pos() + 2,
            2 > old(self).rest().len() ==> r == Err::<u16, Error>(Error::UnexpectedEof)
                && final(self).rest() == old(self).rest() && final(self).pos() == old(self).pos(),
    {
        let s = self.read_slice(2)?;
        Ok((s[1] as u16) * 0x100 + s[0] as u16)
    }

    pub fn read_u24_be(&mut self) -> (r: Result<u32, Error>)
        ensures
            final(self).data() == old(self).data(),
            3 <= old(self).rest().len() ==> r == Ok::<u32, Error>(be_u24(old(self).rest(), 0))
                && final(self).rest() == old(self).rest().skip(3)
                && final(self).pos() == old(self).pos() + 3,
            3 > old(self).rest().len() ==> r == Err::<u32, Error>(Error::UnexpectedEof)
                && final(self).rest() == old(self).rest() && final(self).pos() == old(self).pos(),
    {
        let s = self.read_slice(3)?;
        Ok((s[0] as u32) * 0x10000 + (s[1] as u32) * 0x100 + s[2] as u32)
    }

    pub fn read_u32_be(&mut self) -> (r: Result<u32, Error>)
        ensures
            final(self).data() == old(self).data(),
            4 <= old(self).rest().len() ==> r == Ok::<u32, Error>(be_u32(old(self).rest(), 0))
                && final(self).rest() == old(self).rest().skip(4)
                && final(self).pos() == old(self).pos() + 4,
            4 > old(self).rest().len() ==> r == Err::<u32, Error>(Error::UnexpectedEof)
                && final(self).rest() == old(self).rest() && final(self).pos() == old(self).pos(),
    {
        let s = self.read_slice(4)?;
        Ok((s[0] as u32) * 0x1000000 + (s[1] as u32) * 0x10000 + (s[2] as u32) * 0x100
            + s[3] as u32)
    }

    pub fn read_u32_le(&mut self) -> (r: Result<u32, Error>)
        ensures
            final(self).data() == old(self).data(),
            4 <= old(self).rest().len() ==> r == Ok::<u32, Error>(le_u32(old(self).rest(), 0))
                && final(self).rest() == old(self).rest().skip(4)
                && final(self).pos() == old(self).pos() + 4,
            4 > old(self).rest().len() ==> r == Err::<u32, Error>(Error::UnexpectedEof)
                && final(self).rest() == old(self).rest() && final(self).pos() == old(self).pos(),
    {
        let s = self.read_slice(4)?;
        Ok((s[3] as u32) * 0x1000000 + (s[2] as u32) * 0x10000 + (s[1] as u32) * 0x100
            + s[0] as u32)
    }

    pub fn read_u64_be(&mut self) -> (r: Result<u64, Error>)
        ensures
            final(self).data() == old(self).data(),
            8 <= old(self).rest().len() ==> r == Ok::<u64, Error>(be_u64(old(self).rest(), 0))
                && final(self).rest() == old(self).rest().skip(8)
                && final(self).pos() == old(self).pos() + 8,
            8 > old(self).rest().len() ==> r == Err::<u64, Error>(Error::UnexpectedEof)
                && final(self).rest() == old(self).rest() && final(self).pos() == old(self).pos(),
    {
        let s = self.read_slice(8)?;
        let hi = (s[0] as u32) * 0x1000000 + (s[1] as u32) * 0x10000 + (s[2] as u32) * 0x100
            + s[3] as u32;
        let lo = (s[4] as u32) * 0x1000000 + (s[5] as u32) * 0x10000 + (s[6] as u32) * 0x100
            + s[7] as u32;
        assert(hi == be_u32(old(self).rest(), 0));
        assert(lo == be_u32(old(self).rest(), 4));
        Ok((hi as u64) * 0x1_0000_0000 + lo as u64)
    }
}

// ---------------------------------------------------------------------------
// Writing
// ---------------------------------------------------------------------------

/// The contents of `buf` after `data` has been written at `pos`, where
/// writing stops at the end of the buffer.
pub open spec fn written(buf: Seq<u8>, pos: int, data: Seq<u8>) -> Seq<u8> {
    if pos + data.len() <= buf.len() {
        buf.take(pos) + data + buf.skip(pos + data.len())
    } else {
        buf.take(pos) + data.take(buf.len() - pos)
    }
}

/// The outcome of writing `data` at `pos` into a buffer of `len` bytes.
pub open spec fn write_result(len: int, pos: int, data: Seq<u8>) -> Result<usize, Error> {
    if pos + data.len() <= len {
        Ok((pos + data.len()) as usize)
    } else {
        Err(Error::WriteZero)
    }
}

/// `after` is `before` with `data` written at `pos`, and `r` is how that
/// write ended.
pub open spec fn writes(before: Seq<u8>, after: Seq<u8>, pos: int, data: Seq<u8>, r: Result<usize, Error>) -> bool {
    &&& after == written(before, pos, data)
    &&& r == write_result(before.len() as int, pos, data)
    &&& (r matches Ok(p) ==> p == pos + data.len())
}

/// Writing `a` and then `b` is writing `a + b`, whether or not the first
/// write reached the end of the buffer.
pub proof fn lemma_written_concat(buf: Seq<u8>, pos: int, a: Seq<u8>, b: Seq<u8>)
    requires
        0 <= pos <= buf.len(),
    ensures
        pos + a.len() <= buf.len() ==> written(written(buf, pos, a), pos + a.len(), b) == written(
            buf,
            pos,
            a + b,
        ),
        pos + a.len() <= buf.len() ==> write_result(buf.len() as int, pos + a.len(), b)
            == write_result(buf.len() as int, pos, a + b),
        pos + a.len() > buf.len() ==> written(buf, pos, a) == written(buf, pos, a + b),
        written(buf, pos, a).len() == buf.len(),
{
    if pos + a.len() <= buf.len() {
        let w = written(buf, pos, a);
        assert(w.len() == buf.len());
        assert(w.take(pos + a.len()) =~= buf.take(pos) + a);
        assert(w.skip(pos + a.len()) =~= buf.skip(pos + a.len()));
        if pos + a.len() + b.len() <= buf.len() {
            assert(written(w, pos + a.len(), b) =~= written(buf, pos, a + b));
        } else {
            assert(written(w, pos + a.len(), b) =~= written(buf, pos, a + b));
        }
    } else {
        assert(written(buf, pos, a) =~= written(buf, pos, a + b));
    }
}

pub proof fn lemma_written_empty(buf: Seq<u8>, pos: int)
    requires
        0 <= pos <= buf.len(),
    ensures
        written(buf, pos, Seq::empty()) == buf,
        write_result(buf.len() as int, pos, Seq::empty()) == Ok::<usize, Error>(pos as usize),
{
    assert(written(buf, pos, Seq::empty()) =~= buf);
}

/// Write `data` at `pos`, stopping at the end of the buffer.
pub fn write_bytes(buf: &mut [u8], pos: usize, data: &[u8]) -> (r: Result<usize, Error>)
    requires
        pos <= old(buf)@.len(),
    ensures
        writes(old(buf)@, final(buf)@, pos as int, data@, r),
{
    let len = buf.len();
    let mut i: usize = 0;
    while i < data.len() && pos + i < len
        invariant
            pos <= len,
            len == old(buf)@.len(),
            buf@.len() == len,
            i <= data@.len(),
            pos + i <= len,
            buf@ == written(old(buf)@, pos as int, data@.take(i as int)),
        decreases data@.len() - i,
    {
        proof {
            lemma_written_concat(old(buf)@, pos as int, data@.take(i as int), seq![data@[i as int]]);
            assert(data@.take(i as int) + seq![data@[i as int]] =~= data@.take(i + 1));
        }
        buf[pos + i] = data[i];
        proof {
            let w = written(old(buf)@, pos as int, data@.take(i as int));
            assert(buf@ =~= written(w, (pos + i) as int, seq![data@[i as int]]));
        }
        i = i + 1;
    }
    proof {
        if i == data@.len() {
            assert(data@.take(i as int) =~= data@);
        } else {
            lemma_written_concat(old(buf)@, pos as int, data@.take(i as int), data@.skip(i as int));
            assert(data@.take(i as int) + data@.skip(i as int) =~= data@);
            let w = written(old(buf)@, pos as int, data@.take(i as int));
            assert(written(w, (pos + i) as int, data@.skip(i as int)) =~= w);
        }
    }
    if i == data.len() {
        Ok(pos + i)
    } else {
        Err(Error::WriteZero)
    }
}

/// Write as much of `data` at `pos` as fits, giving back the new position.
pub fn write_some(buf: &mut [u8], pos: usize, data: &[u8]) -> (r: usize)
    requires
        pos <= old(buf)@.len(),
    ensures
        final(buf)@ == written(old(buf)@, pos as int, data@),
        r == if pos + data@.len() <= old(buf)@.len() { pos + data@.len() } else { old(buf)@.len() as int },
{
    let len = buf.len();
    match write_bytes(buf, pos, data) {
        Ok(p) => p,
        Err(_) => len,
    }
}

pub fn write_u8(buf: &mut [u8], pos: usize, v: u8) -> (r: Result<usize, Error>)
    requires
        pos <= old(buf)@.len(),
    ensures
        writes(old(buf)@, final(buf)@, pos as int, enc_u8(v), r),
{
    let a = [v];
    assert(a@ =~= enc_u8(v));
    write_bytes(buf, pos, &a)
}

pub fn write_u16(buf: &mut [u8], pos: usize, v: u16) -> (r: Result<usize, Error>)
    requires
        pos <= old(buf)@.len(),
    ensures
        writes(old(buf)@, final(buf)@, pos as int, enc_u16(v), r),
{
    let a = [(v / 0x100) as u8, (v % 0x100) as u8];
    assert(a@ =~= enc_u16(v));
    write_bytes(buf, pos, &a)
}

pub fn write_u24(buf: &mut [u8], pos: usize, v: u32) -> (r: Result<usize, Error>)
    requires
        pos <= old(buf)@.len(),
    ensures
        writes(old(buf)@, final(buf)@, pos as int, enc_u24(v), r),
{
    let a = [((v / 0x10000) % 0x100) as u8, ((v / 0x100) % 0x100) as u8, (v % 0x100) as u8];
    assert(a@ =~= enc_u24(v));
    write_bytes(buf, pos, &a)
}

pub fn write_u32(buf: &mut [u8], pos: usize, v: u32) -> (r: Result<usize, Error>)
    requires
        pos <= old(buf)@.len(),
    ensures
        writes(old(buf)@, final(buf)@, pos as int, enc_u32(v), r),
{
    let a = [(v / 0x1000000) as u8, ((v / 0x10000) % 0x100) as u8, ((v / 0x100) % 0x100) as u8,
        (v % 0x100) as u8];
    assert(a@ =~= enc_u32(v));
    write_bytes(buf, pos, &a)
}

pub fn write_u64(buf: &mut [u8], pos: usize, v: u64) -> (r: Result<usize, Error>)
    requires
        pos <= old(buf)@.len(),
    ensures
        writes(old(buf)@, final(buf)@, pos as int, enc_u64(v), r),
{
    let hi = (v / 0x1_0000_0000) as u32;
    let lo = (v % 0x1_0000_0000) as u32;
    let a = [(hi / 0x1000000) as u8, ((hi / 0x10000) % 0x100) as u8, ((hi / 0x100) % 0x100) as u8,
        (hi % 0x100) as u8, (lo / 0x1000000) as u8, ((lo / 0x10000) % 0x100) as u8,
        ((lo / 0x100) % 0x100) as u8, (lo % 0x100) as u8];
    assert(a@ =~= enc_u64(v));
    write_bytes(buf, pos, &a)
}

} // verus!

verus! {

// ---------------------------------------------------------------------------
// Building encodings
// ---------------------------------------------------------------------------

pub fn push_u8(out: &mut Vec<u8>, v: u8)
    ensures
        final(out)@ == old(out)@ + enc_u8(v),
{
    out.push(v);
    assert(out@ =~= old(out)@ + enc_u8(v));
}

pub fn push_u16(out: &mut Vec<u8>, v: u16)
    ensures
        final(out)@ == old(out)@ + enc_u16(v),
{
    out.push((v / 0x100) as u8);
    out.push((v % 0x100) as u8);
    assert(out@ =~= old(out)@ + enc_u16(v));
}

pub fn push_u24(out: &mut Vec<u8>, v: u32)
    ensures
        final(out)@ == old(out)@ + enc_u24(v),
{
    out.push(((v / 0x10000) % 0x100) as u8);
    out.push(((v / 0x100) % 0x100) as u8);
    out.push((v % 0x100) as u8);
    assert(out@ =~= old(out)@ + enc_u24(v));
}

pub fn push_u32(out: &mut Vec<u8>, v: u32)
    ensures
        final(out)@ == old(out)@ + enc_u32(v),
{
    out.push((v / 0x1000000) as u8);
    out.push(((v / 0x10000) % 0x100) as u8);
    out.push(((v / 0x100) % 0x100) as u8);
    out.push((v % 0x100) as u8);
    assert(out@ =~= old(out)@ + enc_u32(v));
}

pub fn push_u64(out: &mut Vec<u8>, v: u64)
    ensures
        final(out)@ == old(out)@ + enc_u64(v),
{
    push_u32(out, (v / 0x1_0000_0000) as u32);
    push_u32(out, (v % 0x1_0000_0000) as u32);
    assert(out@ =~= old(out)@ + enc_u64(v));
}

pub fn push_bytes(out: &mut Vec<u8>, data: &[u8])
    ensures
        final(out)@ == old(out)@ + data@,
{
    let mut i: usize = 0;
    while i < data.len()
        invariant
            i <= data@.len(),
            out@ == old(out)@ + data@.take(i as int),
        decreases data@.len() - i,
    {
        out.push(data[i]);
        assert(data@.take(i + 1) =~= data@.take(i as int).push(data@[i as int]));
        assert(out@ =~= old(out)@ + data@.take(i + 1));
        i = i + 1;
    }
    assert(data@.take(i as int) =~= data@);
}

} // verus!

verus! {

/// A decoding step gave back `r` where the specification says `expected`:
/// on success the values agree by view and `after` lies the consumed
/// number of bytes behind `before`; on failure the errors agree.
pub open spec fn parse_outcome<T: View>(r: Result<T, Error>, expected: Result<(T::V, int), Error>, before: Seq<u8>, after: Seq<u8>) -> bool {
    match (r, expected) {
        (Ok(v), Ok((w, n))) => v@ == w && 0 <= n <= before.len() && after == before.skip(n),
        (Err(e), Err(f)) => e == f,
        _ => false,
    }
}

} // verus!
