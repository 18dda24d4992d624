//! Deterministic, field-ordered binary encoding of composite record values.
//!
//! A record's static shape is a [`schema::RecordSchema`]: an ordered list of
//! field descriptors, each either named or positional, and each marked as
//! participating in the encoding or not.  [`schema::build_plan`] projects a
//! schema to its [`schema::FieldPlan`]: the participating fields only, in
//! declared order.  [`encode::encode_record`] then walks a plan over a record
//! value, appending each addressed field's canonical bytes to a
//! [`sink::ByteSink`] and stopping at the sink's first failure.
//!
//! The properties that make the composition rule trustworthy — declaration
//! order decides byte order, skipped fields contribute nothing and shift
//! nothing, the empty and all-skipped records encode to nothing, encoding
//! is deterministic, and a failure short-circuits the walk — are stated and
//! proved in [`laws`].

pub mod encodable;
pub mod encode;
pub mod laws;
pub mod schema;
pub mod sink;
pub mod value;
