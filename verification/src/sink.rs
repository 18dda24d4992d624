use vstd::prelude::*;

verus! {

/// The single failure kind of this layer: the sink rejected an append.
///
/// Every other component propagates this value unchanged; nothing here
/// retries, wraps, or recovers.
#[derive(Clone, Copy, Debug, PartialEq, Eq, Structural)]
pub struct IoFailure;

/// An append-only byte destination with a fixed total capacity.
///
/// A write either appends its whole block or fails and leaves the contents
/// untouched; there is no read-back, seek, or truncate.  Failure is
/// manufactured only here (the destination is out of space); every failure
/// reported by the encoding layers above is a propagation of this one.
pub struct ByteSink {
    buf: Vec<u8>,
    cap: usize,
}

impl View for ByteSink {
    type V = Seq<u8>;

    closed spec fn view(&self) -> Seq<u8> {
        self.buf@
    }
}

impl ByteSink {
    /// Total number of bytes this sink will ever accept.
    pub closed spec fn capacity(&self) -> int {
        self.cap as int
    }

    /// Well-formedness: a sink never holds more bytes than its capacity.
    pub open spec fn wf(&self) -> bool {
        self@.len() <= self.capacity()
    }

    /// A fresh sink that accepts as many bytes as the machine can address.
    pub fn unbounded() -> (s: ByteSink)
        ensures
            s.wf(),
            s@ == Seq::<u8>::empty(),
            s.capacity() == usize::MAX as int,
    {
        ByteSink { buf: Vec::new(), cap: usize::MAX }
    }

    /// A fresh sink that fails any write which would bring its contents
    /// past `cap` bytes in total.
    pub fn bounded(cap: usize) -> (s: ByteSink)
        ensures
            s.wf(),
            s@ == Seq::<u8>::empty(),
            s.capacity() == cap as int,
    {
        ByteSink { buf: Vec::new(), cap }
    }

    /// Append `block` in full, or fail leaving the contents untouched.
    ///
    /// The write succeeds exactly when the whole block still fits.
    pub fn write(&mut self, block: &[u8]) -> (r: Result<(), IoFailure>)
        requires
            old(self).wf(),
        ensures
            final(self).wf(),
            final(self).capacity() == old(self).capacity(),
            (r is Ok) <==> old(self)@.len() + block@.len() <= old(self).capacity(),
            r is Ok ==> final(self)@ == old(self)@ + block@,
            r is Err ==> final(self)@ == old(self)@,
    {
        if block.len() <= self.cap - self.buf.len() {
            let n = block.len();
            let mut i: usize = 0;
            while i < n
                invariant
                    i <= n,
                    n == block@.len(),
                    self.buf@ == old(self)@ + block@.take(i as int),
                    self.cap == old(self).cap,
                    old(self)@.len() + block@.len() <= self.cap,
                decreases n - i,
            {
                self.buf.push(block[i]);
                proof {
                    assert(block@.take(i + 1) =~= block@.take(i as int).push(block@[i as int]));
                }
                i = i + 1;
            }
            proof {
                assert(block@.take(n as int) =~= block@);
            }
            Ok(())
        } else {
            Err(IoFailure)
        }
    }

    /// The bytes appended so far, in order.
    pub fn bytes(&self) -> (r: &Vec<u8>)
        ensures
            r@ == self@,
    {
        &self.buf
    }

    /// How many bytes have been appended so far.
    pub fn len(&self) -> (n: usize)
        ensures
            n == self@.len(),
    {
        self.buf.len()
    }
}

} // verus!
