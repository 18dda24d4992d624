use crate::encodable::Encodable;
use crate::encode::{field_of, lemma_written_steps_at, record_bytes, written_steps};
use crate::schema::{
    named_plan, no_field_participates, plan_of, positional_plan, NamedField, PlanKey,
    PositionalField, RecordSchema,
};
use crate::value::RecordValue;
use vstd::prelude::*;

verus! {

/// Field order fidelity: a named record with two participating fields
/// encodes as the first field's bytes followed by the second's — declaration
/// order, never the reverse, whatever order the fields are read in.
pub proof fn lemma_field_order<T: Encodable>(
    fields: Seq<NamedField>,
    value: RecordValue<T>,
    first: T,
    second: T,
)
    requires
        fields.len() == 2,
        fields[0].participates,
        fields[1].participates,
        field_of(PlanKey::Name(fields[0].name@), value) == Some(first),
        field_of(PlanKey::Name(fields[1].name@), value) == Some(second),
    ensures
        named_plan(fields) == seq![
            PlanKey::Name(fields[0].name@),
            PlanKey::Name(fields[1].name@),
        ],
        record_bytes(named_plan(fields), value) == first.canon() + second.canon(),
{
    let one = fields.drop_last();
    assert(one.drop_last() =~= Seq::<NamedField>::empty());
    assert(named_plan(Seq::<NamedField>::empty()) == Seq::<PlanKey>::empty());
    assert(one.last() == fields[0]);
    assert(named_plan(one) =~= seq![PlanKey::Name(fields[0].name@)]);
    assert(fields.last() == fields[1]);
    assert(named_plan(fields) =~= seq![
        PlanKey::Name(fields[0].name@),
        PlanKey::Name(fields[1].name@),
    ]);
    lemma_two_step_bytes(named_plan(fields), value, first, second);
}

/// Skip exclusion, positional shape: in a three-field record whose middle
/// field does not participate, the plan keeps the original positions 0 and
/// 2 — skipping a field removes its bytes, not its successors' positions —
/// and the output is the first field's bytes followed by the third's.
pub proof fn lemma_skip_exclusion<T: Encodable>(
    fields: Seq<PositionalField>,
    value: RecordValue<T>,
    first: T,
    third: T,
)
    requires
        fields.len() == 3,
        fields[0].participates,
        !fields[1].participates,
        fields[2].participates,
        field_of(PlanKey::Position(0), value) == Some(first),
        field_of(PlanKey::Position(2), value) == Some(third),
    ensures
        positional_plan(fields) == seq![PlanKey::Position(0), PlanKey::Position(2)],
        record_bytes(positional_plan(fields), value) == first.canon() + third.canon(),
{
    let two = fields.drop_last();
    let one = two.drop_last();
    assert(one.drop_last() =~= Seq::<PositionalField>::empty());
    assert(positional_plan(Seq::<PositionalField>::empty()) == Seq::<PlanKey>::empty());
    assert(one.last() == fields[0] && one.len() == 1);
    assert(positional_plan(one) =~= seq![PlanKey::Position(0)]);
    assert(two.last() == fields[1] && two.len() == 2);
    assert(positional_plan(two) == positional_plan(one));
    assert(fields.last() == fields[2]);
    assert(positional_plan(fields) =~= seq![PlanKey::Position(0), PlanKey::Position(2)]);
    lemma_two_step_bytes(positional_plan(fields), value, first, third);
}

/// Skip exclusion, named shape: the middle field of three contributes no
/// bytes, and the output is the first field's bytes followed by the third's.
pub proof fn lemma_skip_exclusion_named<T: Encodable>(
    fields: Seq<NamedField>,
    value: RecordValue<T>,
    first: T,
    third: T,
)
    requires
        fields.len() == 3,
        fields[0].participates,
        !fields[1].participates,
        fields[2].participates,
        field_of(PlanKey::Name(fields[0].name@), value) == Some(first),
        field_of(PlanKey::Name(fields[2].name@), value) == Some(third),
    ensures
        named_plan(fields) == seq![
            PlanKey::Name(fields[0].name@),
            PlanKey::Name(fields[2].name@),
        ],
        record_bytes(named_plan(fields), value) == first.canon() + third.canon(),
{
    let two = fields.drop_last();
    let one = two.drop_last();
    assert(one.drop_last() =~= Seq::<NamedField>::empty());
    assert(named_plan(Seq::<NamedField>::empty()) == Seq::<PlanKey>::empty());
    assert(one.last() == fields[0]);
    assert(named_plan(one) =~= seq![PlanKey::Name(fields[0].name@)]);
    assert(two.last() == fields[1]);
    assert(named_plan(two) == named_plan(one));
    assert(fields.last() == fields[2]);
    assert(named_plan(fields) =~= seq![
        PlanKey::Name(fields[0].name@),
        PlanKey::Name(fields[2].name@),
    ]);
    lemma_two_step_bytes(named_plan(fields), value, first, third);
}

/// A two-step plan whose steps address `first` and `second` encodes as the
/// concatenation of their canonical bytes.
proof fn lemma_two_step_bytes<T: Encodable>(
    plan: Seq<PlanKey>,
    value: RecordValue<T>,
    first: T,
    second: T,
)
    requires
        plan.len() == 2,
        field_of(plan[0], value) == Some(first),
        field_of(plan[1], value) == Some(second),
    ensures
        record_bytes(plan, value) == first.canon() + second.canon(),
{
    let one = plan.drop_last();
    assert(one.drop_last() =~= Seq::<PlanKey>::empty());
    assert(record_bytes(Seq::<PlanKey>::empty(), value) == Seq::<u8>::empty());
    assert(one.last() == plan[0]);
    assert(record_bytes(one, value) =~= first.canon());
    assert(plan.last() == plan[1]);
    assert(record_bytes(plan, value) =~= first.canon() + second.canon());
}

/// Empty record: the unit schema's plan is empty, and encoding any value
/// against it appends no bytes at all — so, by the record encoder's
/// contract, it always succeeds on a well-formed sink.
pub proof fn lemma_empty_record<T: Encodable>(value: RecordValue<T>)
    ensures
        plan_of(RecordSchema::Empty) == Seq::<PlanKey>::empty(),
        record_bytes(plan_of(RecordSchema::Empty), value) == Seq::<u8>::empty(),
        forall|space: int| written_steps(plan_of(RecordSchema::Empty), value, space) == 0,
{
}

/// All-skipped record: a schema none of whose fields participate yields the
/// empty plan, and encoding any value against it appends no bytes —
/// identically to the unit case.
pub proof fn lemma_all_skipped_encodes_nothing<T: Encodable>(
    schema: RecordSchema,
    value: RecordValue<T>,
)
    requires
        no_field_participates(schema),
    ensures
        plan_of(schema) == Seq::<PlanKey>::empty(),
        record_bytes(plan_of(schema), value) == Seq::<u8>::empty(),
{
    match schema {
        RecordSchema::Named(fields) => {
            lemma_all_skipped_named(fields@);
        },
        RecordSchema::Positional(fields) => {
            lemma_all_skipped_positional(fields@);
        },
        RecordSchema::Empty => {},
    }
}

proof fn lemma_all_skipped_named(fields: Seq<NamedField>)
    requires
        forall|i: int| 0 <= i < fields.len() ==> !(#[trigger] fields[i]).participates,
    ensures
        named_plan(fields) == Seq::<PlanKey>::empty(),
    decreases fields.len(),
{
    if fields.len() > 0 {
        assert(fields.last() == fields[fields.len() - 1]);
        assert forall|i: int|
            0 <= i < fields.drop_last().len() implies !(#[trigger] fields.drop_last()[i]).participates by {
            assert(fields.drop_last()[i] == fields[i]);
        }
        lemma_all_skipped_named(fields.drop_last());
    }
}

proof fn lemma_all_skipped_positional(fields: Seq<PositionalField>)
    requires
        forall|i: int| 0 <= i < fields.len() ==> !(#[trigger] fields[i]).participates,
    ensures
        positional_plan(fields) == Seq::<PlanKey>::empty(),
    decreases fields.len(),
{
    if fields.len() > 0 {
        assert(fields.last() == fields[fields.len() - 1]);
        assert forall|i: int|
            0 <= i < fields.drop_last().len() implies !(#[trigger] fields.drop_last()[i]).participates by {
            assert(fields.drop_last()[i] == fields[i]);
        }
        lemma_all_skipped_positional(fields.drop_last());
    }
}

/// Determinism: the bytes an encode operation appends are a pure function
/// of the plan and the record value, so two encode operations over the same
/// plan and value, started on byte-identical sinks — two fresh ones in
/// particular — leave byte-identical contents.  The record encoder's
/// contract gives each operation's final contents in exactly the shape this
/// law requires.
pub proof fn lemma_determinism<T: Encodable>(
    plan: Seq<PlanKey>,
    value: RecordValue<T>,
    before_first: Seq<u8>,
    before_second: Seq<u8>,
    after_first: Seq<u8>,
    after_second: Seq<u8>,
)
    requires
        before_first == before_second,
        after_first == before_first + record_bytes(plan, value),
        after_second == before_second + record_bytes(plan, value),
    ensures
        after_first == after_second,
{
}

/// Failure short-circuit: when the first field of a three-step plan fits in
/// the sink's remaining space but the second no longer does, exactly one
/// step is written, so the sink gains exactly the first field's bytes and
/// nothing from the third.
pub proof fn lemma_failure_short_circuit<T: Encodable>(
    plan: Seq<PlanKey>,
    value: RecordValue<T>,
    space: int,
    first: T,
    second: T,
)
    requires
        plan.len() == 3,
        field_of(plan[0], value) == Some(first),
        field_of(plan[1], value) == Some(second),
        first.canon().len() <= space,
        first.canon().len() + second.canon().len() > space,
    ensures
        written_steps(plan, value, space) == 1,
        record_bytes(plan.take(1), value) == first.canon(),
{
    assert(plan.take(1).drop_last() =~= Seq::<PlanKey>::empty());
    assert(record_bytes(Seq::<PlanKey>::empty(), value) == Seq::<u8>::empty());
    assert(plan.take(1).last() == plan[0]);
    assert(record_bytes(plan.take(1), value) =~= first.canon());
    assert(plan.take(2).drop_last() =~= plan.take(1));
    assert(plan.take(2).last() == plan[1]);
    assert(record_bytes(plan.take(2), value) =~= first.canon() + second.canon());
    lemma_written_steps_at(plan, value, space, 1);
}

} // verus!
