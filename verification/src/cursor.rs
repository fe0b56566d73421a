//! A right-to-left writer over a byte buffer.
//!
//! The applier's back-to-front rewrite works through a cursor that starts at
//! the end of the enlarged buffer and moves left: already-written output
//! lies at and beyond the cursor, not-yet-consumed original bytes lie below
//! it. Each write lands immediately before the previous one.

use vstd::prelude::*;

use crate::patch::{is_triple_at, pad_bytes};

verus! {

/// A cursor that fills `buf` from its end towards its start.
pub struct BackwardCursor {
    buf: Vec<u8>,
    pos: usize,
}

impl BackwardCursor {
    /// The buffer being filled.
    pub closed spec fn bytes(self) -> Seq<u8> {
        self.buf@
    }

    /// The write position: everything at and beyond it is already written.
    pub closed spec fn position(self) -> int {
        self.pos as int
    }

    /// A cursor over `buf`, positioned at its end.
    pub fn new(buf: Vec<u8>) -> (r: BackwardCursor)
        ensures
            r.bytes() == buf@,
            r.position() == buf@.len(),
    {
        let pos = buf.len();
        BackwardCursor { buf, pos }
    }

    /// Take the filled buffer back out.
    pub fn into_buf(self) -> (r: Vec<u8>)
        ensures
            r@ == self.bytes(),
    {
        self.buf
    }

    /// Write one byte just below the cursor.
    pub fn write_byte(&mut self, data: u8)
        requires
            1 <= old(self).position() <= old(self).bytes().len(),
        ensures
            final(self).position() == old(self).position() - 1,
            final(self).bytes() == old(self).bytes().update(old(self).position() - 1, data),
    {
        self.pos = self.pos - 1;
        let mut work: Vec<u8> = Vec::new();
        core::mem::swap(&mut work, &mut self.buf);
        let p = self.pos;
        work[p] = data;
        core::mem::swap(&mut work, &mut self.buf);
    }

    /// Write a slice just below the cursor.
    pub fn write(&mut self, src: &[u8])
        requires
            src@.len() <= old(self).position() <= old(self).bytes().len(),
        ensures
            final(self).position() == old(self).position() - src@.len(),
            final(self).bytes().len() == old(self).bytes().len(),
            final(self).bytes() == old(self).bytes().subrange(
                0,
                old(self).position() - src@.len(),
            ) + src@ + old(self).bytes().skip(old(self).position()),
    {
        let n = src.len();
        let mut k: usize = n;
        while k > 0
            invariant
                k <= n == src@.len(),
                n <= self.pos + (n - k),
                self.pos + (n - k) == old(self).pos,
                self.pos as int == old(self).position() - (n - k),
                old(self).position() <= old(self).bytes().len(),
                self.buf@.len() == old(self).bytes().len(),
                forall|i: int|
                    0 <= i < self.pos as int ==> self.buf@[i] == old(self).bytes()[i],
                forall|i: int|
                    old(self).position() <= i < self.buf@.len() ==> self.buf@[i] == old(
                        self,
                    ).bytes()[i],
                forall|i: int|
                    self.pos as int <= i < old(self).position() ==> self.buf@[i] == src@[i - (old(
                        self,
                    ).position() - n)],
            decreases k,
    {
            k = k - 1;
            self.write_byte(src[k]);
        }
        proof {
            assert(final(self).bytes() =~= old(self).bytes().subrange(
                0,
                old(self).position() - src@.len(),
            ) + src@ + old(self).bytes().skip(old(self).position()));
        }
    }

    /// Copy the buffer's own range `[start, end)` to just below the cursor,
    /// moving right-to-left; the destination must not lie left of the
    /// source.
    pub fn write_within(&mut self, start: usize, end: usize)
        requires
            start <= end <= old(self).bytes().len(),
            end - start <= old(self).position() <= old(self).bytes().len(),
            start <= old(self).position() - (end - start),
        ensures
            final(self).position() == old(self).position() - (end - start),
            final(self).bytes().len() == old(self).bytes().len(),
            final(self).bytes().subrange(final(self).position(), old(self).position()) == old(
                self,
            ).bytes().subrange(start as int, end as int),
            forall|i: int|
                0 <= i < final(self).position() ==> final(self).bytes()[i] == old(self).bytes()[i],
            forall|i: int|
                old(self).position() <= i < old(self).bytes().len() ==> final(self).bytes()[i]
                    == old(self).bytes()[i],
    {
        let n = end - start;
        let mut k: usize = n;
        while k > 0
            invariant
                k <= n == end - start,
                start <= end <= old(self).bytes().len(),
                n <= old(self).position() <= old(self).bytes().len(),
                start <= old(self).position() - n,
                self.pos + (n - k) == old(self).position(),
                self.buf@.len() == old(self).bytes().len(),
                forall|i: int|
                    0 <= i < self.pos as int ==> self.buf@[i] == old(self).bytes()[i],
                forall|i: int|
                    old(self).position() <= i < self.buf@.len() ==> self.buf@[i] == old(
                        self,
                    ).bytes()[i],
                forall|i: int|
                    self.pos as int <= i < old(self).position() ==> self.buf@[i] == old(
                        self,
                    ).bytes()[start + (i - (old(self).position() - n))],
            decreases k,
        {
            k = k - 1;
            let b: u8 = self.buf[start + k];
            proof {
                assert(start + k < self.pos as int);
                assert(self.buf@[start + k] == old(self).bytes()[start + k]);
            }
            self.write_byte(b);
        }
        proof {
            assert(final(self).bytes().subrange(final(self).position(), old(self).position())
                =~= old(self).bytes().subrange(start as int, end as int));
        }
    }

    /// Replace the buffer's own range `[start, end)`, writing just below
    /// the cursor: every line terminator wholly inside the range is kept
    /// byte-for-byte, every other byte becomes a space. The range must hold
    /// original bytes, below the cursor.
    pub fn write_whitespaces_preserving_newlines(&mut self, start: usize, end: usize)
        requires
            start <= end <= old(self).bytes().len(),
            end - start <= old(self).position() <= old(self).bytes().len(),
            start <= old(self).position() - (end - start),
        ensures
            final(self).position() == old(self).position() - (end - start),
            final(self).bytes().len() == old(self).bytes().len(),
            final(self).bytes().subrange(final(self).position(), old(self).position())
                == pad_bytes(old(self).bytes(), start as int, end as int, true),
            forall|i: int|
                0 <= i < final(self).position() ==> final(self).bytes()[i] == old(self).bytes()[i],
            forall|i: int|
                old(self).position() <= i < old(self).bytes().len() ==> final(self).bytes()[i]
                    == old(self).bytes()[i],
    {
        let mut work: Vec<u8> = Vec::new();
        let mut i: usize = start;
        while i < end
            invariant
                start <= i <= end <= old(self).bytes().len(),
                self.buf@ == old(self).bytes(),
                self.pos == old(self).position(),
                pad_bytes(old(self).bytes(), start as int, end as int, true) == work@ + pad_bytes(
                    old(self).bytes(),
                    i as int,
                    end as int,
                    true,
                ),
                work@.len() == i - start,
            decreases end - i,
        {
            let ghost work0 = work@;
            let b: u8 = self.buf[i];
            if b == 10 || b == 13 {
                work.push(b);
                proof {
                    assert(work0 + pad_bytes(old(self).bytes(), i as int, end as int, true)
                        =~= work@ + pad_bytes(old(self).bytes(), i + 1, end as int, true));
                }
                i = i + 1;
            } else if b == 226 && end - i >= 3 && self.buf[i + 1] == 128 && (self.buf[i + 2]
                == 168 || self.buf[i + 2] == 169) {
                work.push(226);
                work.push(128);
                work.push(self.buf[i + 2]);
                proof {
                    assert(is_triple_at(old(self).bytes(), i as int, end as int));
                    assert(work0 + pad_bytes(old(self).bytes(), i as int, end as int, true)
                        =~= work@ + pad_bytes(old(self).bytes(), i + 3, end as int, true));
                }
                i = i + 3;
            } else {
                work.push(32);
                proof {
                    assert(!is_triple_at(old(self).bytes(), i as int, end as int));
                    assert(work0 + pad_bytes(old(self).bytes(), i as int, end as int, true)
                        =~= work@ + pad_bytes(old(self).bytes(), i + 1, end as int, true));
                }
                i = i + 1;
            }
        }
        proof {
            assert(pad_bytes(old(self).bytes(), i as int, end as int, true) =~= Seq::<
                u8,
            >::empty());
            assert(work@ + pad_bytes(old(self).bytes(), i as int, end as int, true) =~= work@);
        }
        self.write(work.as_slice());
        proof {
            assert(final(self).bytes().subrange(final(self).position(), old(self).position())
                =~= pad_bytes(old(self).bytes(), start as int, end as int, true));
        }
    }
}

} // verus!
