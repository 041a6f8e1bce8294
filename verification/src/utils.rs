//! A reader over the bytes of a file, and in [`xml`] the events that the bytes hold.
use vstd::prelude::*;
use vstd::slice::*;

pub mod xml;

verus! {

/// The error type of `std::io`; no value of it is ever made here.
#[verifier::external_type_specification]
#[verifier::external_body]
pub struct ExIoError(std::io::Error);

/// A byte buffer that is read from front to back.
#[derive(Debug)]
pub struct VecReadWrapper {
    buf: Vec<u8>,
    start: usize,
}

impl VecReadWrapper {
    /// The position never passes the end of the buffer.
    #[verifier::type_invariant]
    pub closed spec fn well_formed(&self) -> bool {
        self.start <= self.buf@.len()
    }

    /// All the bytes that the wrapper was made with.
    pub closed spec fn contents(&self) -> Seq<u8> {
        self.buf@
    }

    /// How many bytes have been read so far.
    pub closed spec fn position(&self) -> nat {
        self.start as nat
    }

    /// The bytes that have not been read yet.
    pub open spec fn remaining(&self) -> Seq<u8> {
        self.contents().skip(self.position() as int)
    }

    /// Wraps `buf`, with nothing read yet.
    pub fn new(buf: Vec<u8>) -> (r: Self)
        ensures
            r.contents() == buf@,
            r.position() == 0,
    {
        Self { buf, start: 0 }
    }

    /// The bytes that are left, without reading them.
    pub fn unread(&self) -> (r: &[u8])
        ensures
            r@ == self.remaining(),
            self.position() <= self.contents().len(),
    {
        proof {
            use_type_invariant(self);
        }
        let r = slice_subrange(self.buf.as_slice(), self.start, self.buf.len());
        assert(r@ =~= self.remaining());
        r
    }

    /// Passes over `amt` bytes, or over all that are left where there are fewer.
    pub fn advance(&mut self, amt: usize)
        ensures
            final(self).contents() == old(self).contents(),
            final(self).position() == if old(self).position() + amt <= old(self).contents().len() {
                old(self).position() + amt
            } else {
                old(self).contents().len() as int
            },
    {
        proof {
            use_type_invariant(&*self);
        }
        if amt <= self.buf.len() - self.start {
            self.start = self.start + amt;
        } else {
            self.start = self.buf.len();
        }
    }

    /// Copies the next bytes into `out`, as many as it has room for, and passes over them.
    pub fn read_into(&mut self, out: &mut [u8]) -> (n: usize)
        ensures
            final(self).contents() == old(self).contents(),
            n == if old(out)@.len() <= old(self).remaining().len() {
                old(out)@.len()
            } else {
                old(self).remaining().len()
            },
            final(self).position() == old(self).position() + n,
            final(out)@.len() == old(out)@.len(),
            final(out)@.take(n as int) == old(self).remaining().take(n as int),
            final(out)@.skip(n as int) == old(out)@.skip(n as int),
    {
        proof {
            use_type_invariant(&*self);
        }
        let len = self.buf.len();
        let left = len - self.start;
        let n = if out.len() <= left {
            out.len()
        } else {
            left
        };
        let mut i: usize = 0;
        while i < n
            invariant
                i <= n,
                n <= out@.len(),
                self.start + n <= self.buf@.len() == len,
                out@.len() == old(out)@.len(),
                self.buf == old(self).buf,
                self.start == old(self).start,
                forall|j: int| 0 <= j < i ==> out@[j] == self.buf@[self.start + j],
                forall|j: int| i <= j < out@.len() ==> out@[j] == old(out)@[j],
            decreases n - i,
        {
            out[i] = self.buf[self.start + i];
            i += 1;
        }
        self.start = self.start + n;
        assert(out@.take(n as int) =~= old(self).remaining().take(n as int));
        assert(out@.skip(n as int) =~= old(out)@.skip(n as int));
        n
    }
}

impl std::io::Read for VecReadWrapper {
    /// Copies the next bytes into `buf`, as many as it has room for; it never fails.
    fn read(&mut self, buf: &mut [u8]) -> (r: std::io::Result<usize>)
        ensures
            r is Ok,
            (*final(self)).contents() == (*old(self)).contents(),
            (*final(self)).position() == (*old(self)).position() + r->Ok_0,
            (*final(buf))@.len() == (*old(buf))@.len(),
            (*final(buf))@.take(r->Ok_0 as int) == (*old(self)).remaining().take(r->Ok_0 as int),
            (*final(buf))@.skip(r->Ok_0 as int) == (*old(buf))@.skip(r->Ok_0 as int),
            r->Ok_0 == if (*old(buf))@.len() <= (*old(self)).remaining().len() {
                (*old(buf))@.len()
            } else {
                (*old(self)).remaining().len()
            },
    {
        Ok(self.read_into(buf))
    }
}

impl std::io::BufRead for VecReadWrapper {
    /// The bytes that are left; it never fails and reads nothing.
    fn fill_buf(&mut self) -> (r: std::io::Result<&[u8]>)
        ensures
            r is Ok,
            r->Ok_0@ == (*old(self)).remaining(),
    {
        Ok(self.unread())
    }

    /// Passes over `amt` bytes, or over all that are left where there are fewer.
    fn consume(&mut self, amt: usize)
        ensures
            (*final(self)).contents() == (*old(self)).contents(),
            (*final(self)).position() == if (*old(self)).position() + amt <= (*old(self)).contents().len() {
                (*old(self)).position() + amt
            } else {
                (*old(self)).contents().len() as int
            },
    {
        self.advance(amt)
    }
}

} // verus!
