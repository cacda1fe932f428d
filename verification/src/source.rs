//! Byte sources: the pull interface decoders read from, and an in-memory
//! source. A source reads exactly the requested number of bytes and reports
//! clean end-of-stream distinctly from other failures.

use vstd::prelude::*;

verus! {

/// The outcome of one exact read.
pub enum ReadOutcome {
    /// All requested bytes were read.
    Filled,
    /// The source ran out of bytes before the request was satisfied; any
    /// partial bytes are discarded.
    EndOfStream,
    /// The read failed for a reason other than running out of bytes.
    Failed(String),
}

/// A source of bytes that can satisfy exact-length reads.
///
/// `remaining()` is the mathematical content the source will yield from its
/// current position on; each successful read consumes a prefix of it.
pub trait ByteSource: Sized {
    /// The bytes the source will yield from its current position on.
    spec fn remaining(&self) -> Seq<u8>;

    /// Whether reads can only succeed or end cleanly, never otherwise fail.
    spec fn infallible(&self) -> bool;

    /// Reads exactly `n` bytes into `buf[start..start + n]`.
    fn read_into(&mut self, buf: &mut Vec<u8>, start: usize, n: usize) -> (r: ReadOutcome)
        requires
            start + n <= old(buf)@.len(),
        ensures
            final(buf)@.len() == old(buf)@.len(),
            forall|i: int|
                0 <= i < old(buf)@.len() && !(start <= i < start + n) ==> final(buf)@[i]
                    == old(buf)@[i],
            final(self).infallible() == old(self).infallible(),
            r is Filled ==> old(self).remaining().len() >= n && final(buf)@.subrange(
                start as int,
                start + n,
            ) == old(self).remaining().take(n as int) && final(self).remaining() == old(
                self,
            ).remaining().skip(n as int),
            r is EndOfStream ==> old(self).remaining().len() < n && final(self).remaining().len()
                == 0,
            old(self).infallible() ==> !(r is Failed),
            old(self).infallible() && old(self).remaining().len() >= n ==> r is Filled,
    ;
}

/// An in-memory byte source: a buffer and a cursor over it.
pub struct BufSource {
    data: Vec<u8>,
    pos: usize,
}

impl BufSource {
    #[verifier::type_invariant]
    spec fn inv(self) -> bool {
        self.pos <= self.data@.len()
    }

    /// A source yielding exactly `data`.
    pub fn new(data: Vec<u8>) -> (s: BufSource)
        ensures
            s.remaining() == data@,
            s.infallible(),
    {
        let s = BufSource { data, pos: 0 };
        proof {
            assert(s.remaining() =~= s.data@);
        }
        s
    }
}

impl ByteSource for BufSource {
    closed spec fn remaining(&self) -> Seq<u8> {
        self.data@.skip(self.pos as int)
    }

    closed spec fn infallible(&self) -> bool {
        true
    }

    fn read_into(&mut self, buf: &mut Vec<u8>, start: usize, n: usize) -> (r: ReadOutcome) {
        proof {
            use_type_invariant(&*self);
        }
        let data_len = self.data.len();
        let buf_len = buf.len();
        if n <= data_len - self.pos {
            let mut k: usize = 0;
            while k < n
                invariant
                    k <= n,
                    self == old(self),
                    self.pos + n <= data_len,
                    data_len == self.data@.len(),
                    start + n <= buf_len,
                    buf_len == buf@.len(),
                    buf@.len() == old(buf)@.len(),
                    forall|i: int|
                        0 <= i < buf@.len() && !(start <= i < start + n) ==> buf@[i] == old(
                            buf,
                        )@[i],
                    forall|j: int|
                        0 <= j < k ==> #[trigger] buf@[start + j] == self.data@[self.pos + j],
                decreases n - k,
            {
                buf[start + k] = self.data[self.pos + k];
                k = k + 1;
            }
            proof {
                assert forall|j: int|
                    0 <= j < n implies buf@.subrange(start as int, start + n)[j] == old(
                    self,
                ).remaining().take(n as int)[j] by {
                    assert(buf@[start + j] == self.data@[self.pos + j]);
                    assert(old(self).remaining().take(n as int)[j] == self.data@[self.pos + j]);
                }
                assert(buf@.subrange(start as int, start + n) =~= old(self).remaining().take(
                    n as int,
                ));
            }
            self.pos = self.pos + n;
            proof {
                assert(self.remaining() =~= old(self).remaining().skip(n as int));
            }
            ReadOutcome::Filled
        } else {
            self.pos = self.data.len();
            proof {
                assert(self.remaining() =~= Seq::<u8>::empty());
            }
            ReadOutcome::EndOfStream
        }
    }
}

} // verus!
