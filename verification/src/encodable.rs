use crate::sink::{ByteSink, IoFailure};
use vstd::bytes::{spec_u32_to_le_bytes, spec_u64_to_le_bytes};
use vstd::prelude::*;

verus! {

/// The encoder interface: the capability every encodable field type offers.
///
/// A conforming type names its canonical byte representation (`canon`) and
/// appends exactly those bytes to a sink in one atomic step: on success the
/// sink has grown by `canon`, on failure it is untouched and the sink's own
/// failure is reported unmodified.  Success is owed exactly when the bytes
/// still fit in the sink, so that any two conforming implementations produce
/// byte-identical output for the same logical value.
pub trait Encodable {
    /// The values this type can encode (for example, a text whose length
    /// still fits in its fixed-width length prefix).
    spec fn wf(&self) -> bool;

    /// The canonical byte representation of this value.
    spec fn canon(&self) -> Seq<u8>;

    /// Append exactly `self.canon()` to `sink`, in full, or fail leaving
    /// the sink untouched.
    fn encode(&self, sink: &mut ByteSink) -> (r: Result<(), IoFailure>)
        requires
            self.wf(),
            old(sink).wf(),
        ensures
            final(sink).wf(),
            final(sink).capacity() == old(sink).capacity(),
            (r is Ok) <==> old(sink)@.len() + self.canon().len() <= old(sink).capacity(),
            r is Ok ==> final(sink)@ == old(sink)@ + self.canon(),
            r is Err ==> final(sink)@ == old(sink)@,
    ;
}

/// A 64-bit unsigned integer encodes as its 8 little-endian bytes.
impl Encodable for u64 {
    open spec fn wf(&self) -> bool {
        true
    }

    open spec fn canon(&self) -> Seq<u8> {
        spec_u64_to_le_bytes(*self)
    }

    fn encode(&self, sink: &mut ByteSink) -> (r: Result<(), IoFailure>) {
        let block = vstd::bytes::u64_to_le_bytes(*self);
        sink.write(block.as_slice())
    }
}

/// A byte string (for example, the UTF-8 bytes of a text) encodes as a
/// 4-byte little-endian length prefix followed by the bytes themselves.
impl Encodable for Vec<u8> {
    open spec fn wf(&self) -> bool {
        self@.len() <= u32::MAX
    }

    open spec fn canon(&self) -> Seq<u8> {
        spec_u32_to_le_bytes(self@.len() as u32) + self@
    }

    fn encode(&self, sink: &mut ByteSink) -> (r: Result<(), IoFailure>) {
        let n: u32 = self.len() as u32;
        let mut block = vstd::bytes::u32_to_le_bytes(n);
        let len = self.len();
        let mut i: usize = 0;
        while i < len
            invariant
                i <= len,
                len == self@.len(),
                len <= u32::MAX,
                n == len as u32,
                block@ == spec_u32_to_le_bytes(n) + self@.take(i as int),
            decreases len - i,
        {
            block.push(self[i]);
            proof {
                assert(self@.take(i + 1) =~= self@.take(i as int).push(self@[i as int]));
                assert(block@ =~= spec_u32_to_le_bytes(n) + self@.take(i + 1));
            }
            i = i + 1;
        }
        proof {
            assert(self@.take(len as int) =~= self@);
            assert(block@ == self.canon());
        }
        sink.write(block.as_slice())
    }
}

} // verus!
