use crate::encodable::Encodable;
use crate::sink::{ByteSink, IoFailure};
use vstd::prelude::*;

verus! {

/// A field's value in the dynamic record model: the primitive kinds whose
/// wire form this library realises directly.
pub enum FieldValue {
    /// A 64-bit unsigned integer; encodes as 8 little-endian bytes.
    Unsigned(u64),
    /// The UTF-8 bytes of a text; encodes as a 4-byte little-endian length
    /// prefix followed by the bytes.
    Text(Vec<u8>),
}

/// A composite value encodes by delegating to its parts' own encoders.
impl Encodable for FieldValue {
    open spec fn wf(&self) -> bool {
        match self {
            FieldValue::Unsigned(x) => x.wf(),
            FieldValue::Text(bytes) => bytes.wf(),
        }
    }

    open spec fn canon(&self) -> Seq<u8> {
        match self {
            FieldValue::Unsigned(x) => x.canon(),
            FieldValue::Text(bytes) => bytes.canon(),
        }
    }

    fn encode(&self, sink: &mut ByteSink) -> (r: Result<(), IoFailure>) {
        match self {
            FieldValue::Unsigned(x) => x.encode(sink),
            FieldValue::Text(bytes) => bytes.encode(sink),
        }
    }
}

/// A record value, shaped the way its plan addresses it: named fields are
/// read by identifier, positional fields by their original position, and a
/// unit record has no fields at all.
///
/// The encoder only ever reads a record value; it never takes ownership of
/// one and never writes one.
pub enum RecordValue<T> {
    Named(Vec<(String, T)>),
    Positional(Vec<T>),
    Unit,
}

/// Every field the record value holds is well formed.
pub open spec fn value_wf<T: Encodable>(value: RecordValue<T>) -> bool {
    match value {
        RecordValue::Named(entries) => forall|i: int|
            0 <= i < entries@.len() ==> (#[trigger] entries@[i]).1.wf(),
        RecordValue::Positional(fields) => forall|i: int|
            0 <= i < fields@.len() ==> (#[trigger] fields@[i]).wf(),
        RecordValue::Unit => true,
    }
}

} // verus!
