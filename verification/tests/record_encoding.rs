use recenc::encode::encode_record;
use recenc::schema::{build_plan, FieldKey, NamedField, PositionalField, RecordSchema, SchemaError};
use recenc::sink::ByteSink;
use recenc::value::{FieldValue, RecordValue};

fn named_schema(fields: &[(&str, bool)]) -> RecordSchema {
    RecordSchema::Named(
        fields
            .iter()
            .map(|(name, participates)| NamedField {
                name: (*name).to_string(),
                participates: *participates,
            })
            .collect(),
    )
}

fn positional_schema(participation: &[bool]) -> RecordSchema {
    RecordSchema::Positional(
        participation
            .iter()
            .map(|p| PositionalField { participates: *p })
            .collect(),
    )
}

fn named_value(entries: Vec<(&str, FieldValue)>) -> RecordValue<FieldValue> {
    RecordValue::Named(
        entries
            .into_iter()
            .map(|(name, value)| (name.to_string(), value))
            .collect(),
    )
}

fn le64(x: u64) -> Vec<u8> {
    x.to_le_bytes().to_vec()
}

fn text(s: &str) -> FieldValue {
    FieldValue::Text(s.as_bytes().to_vec())
}

#[test]
fn field_order_fidelity() {
    let schema = named_schema(&[("x", true), ("y", true)]);
    let plan = build_plan(&schema).unwrap();
    let value = named_value(vec![
        ("x", FieldValue::Unsigned(1)),
        ("y", FieldValue::Unsigned(2)),
    ]);
    let mut sink = ByteSink::unbounded();
    assert!(encode_record(&value, &mut sink, &plan).is_ok());
    let mut expected = le64(1);
    expected.extend_from_slice(&le64(2));
    assert_eq!(sink.bytes(), &expected);

    // the same fields listed in the other order in the value: the plan's
    // declaration order still decides the bytes
    let value_swapped = named_value(vec![
        ("y", FieldValue::Unsigned(2)),
        ("x", FieldValue::Unsigned(1)),
    ]);
    let mut sink2 = ByteSink::unbounded();
    assert!(encode_record(&value_swapped, &mut sink2, &plan).is_ok());
    assert_eq!(sink2.bytes(), &expected);
}

#[test]
fn skip_excludes_middle_field_named() {
    let schema = named_schema(&[("a", true), ("b", false), ("c", true)]);
    let plan = build_plan(&schema).unwrap();
    let value = named_value(vec![
        ("a", FieldValue::Unsigned(10)),
        ("b", FieldValue::Unsigned(11)),
        ("c", FieldValue::Unsigned(12)),
    ]);
    let mut sink = ByteSink::unbounded();
    assert!(encode_record(&value, &mut sink, &plan).is_ok());
    let mut expected = le64(10);
    expected.extend_from_slice(&le64(12));
    assert_eq!(sink.bytes(), &expected);
}

#[test]
fn skip_keeps_original_positions() {
    let schema = positional_schema(&[true, false, true]);
    let plan = build_plan(&schema).unwrap();
    // the plan addresses positions 0 and 2 of the source value: skipping
    // the middle field does not shift which value is read for the third
    assert_eq!(plan.steps.len(), 2);
    assert!(matches!(plan.steps[0], FieldKey::Position(0)));
    assert!(matches!(plan.steps[1], FieldKey::Position(2)));

    let value = RecordValue::Positional(vec![
        FieldValue::Unsigned(20),
        FieldValue::Unsigned(21),
        FieldValue::Unsigned(22),
    ]);
    let mut sink = ByteSink::unbounded();
    assert!(encode_record(&value, &mut sink, &plan).is_ok());
    let mut expected = le64(20);
    expected.extend_from_slice(&le64(22));
    assert_eq!(sink.bytes(), &expected);
}

#[test]
fn empty_record_encodes_nothing() {
    let plan = build_plan(&RecordSchema::Empty).unwrap();
    assert_eq!(plan.steps.len(), 0);
    let value: RecordValue<FieldValue> = RecordValue::Unit;
    let mut sink = ByteSink::unbounded();
    assert!(encode_record(&value, &mut sink, &plan).is_ok());
    assert!(sink.bytes().is_empty());
}

#[test]
fn all_skipped_record_encodes_nothing() {
    let schema = named_schema(&[("a", false), ("b", false)]);
    let plan = build_plan(&schema).unwrap();
    assert_eq!(plan.steps.len(), 0);
    let value = named_value(vec![
        ("a", FieldValue::Unsigned(1)),
        ("b", FieldValue::Unsigned(2)),
    ]);
    let mut sink = ByteSink::unbounded();
    assert!(encode_record(&value, &mut sink, &plan).is_ok());
    assert!(sink.bytes().is_empty());

    // a positional record with nothing participating behaves identically
    let schema = positional_schema(&[false, false, false]);
    let plan = build_plan(&schema).unwrap();
    assert_eq!(plan.steps.len(), 0);
    let value = RecordValue::Positional(vec![
        FieldValue::Unsigned(1),
        FieldValue::Unsigned(2),
        FieldValue::Unsigned(3),
    ]);
    let mut sink = ByteSink::unbounded();
    assert!(encode_record(&value, &mut sink, &plan).is_ok());
    assert!(sink.bytes().is_empty());
}

#[test]
fn determinism_across_fresh_sinks() {
    let schema = named_schema(&[("x", true), ("y", true)]);
    let plan = build_plan(&schema).unwrap();
    let value = named_value(vec![
        ("x", FieldValue::Unsigned(7)),
        ("y", text("ok")),
    ]);
    let mut first = ByteSink::unbounded();
    let mut second = ByteSink::unbounded();
    assert!(encode_record(&value, &mut first, &plan).is_ok());
    assert!(encode_record(&value, &mut second, &plan).is_ok());
    assert_eq!(first.bytes(), second.bytes());
}

#[test]
fn failure_short_circuits() {
    let schema = named_schema(&[("a", true), ("b", true), ("c", true)]);
    let plan = build_plan(&schema).unwrap();
    let value = named_value(vec![
        ("a", FieldValue::Unsigned(1)),
        ("b", FieldValue::Unsigned(2)),
        ("c", FieldValue::Unsigned(3)),
    ]);
    // room for the first field's 8 bytes only: the second write fails
    let mut sink = ByteSink::bounded(8);
    let r = encode_record(&value, &mut sink, &plan);
    assert!(r.is_err());
    // the sink holds exactly the first field's bytes and nothing of the third
    assert_eq!(sink.bytes(), &le64(1));
}

#[test]
fn failing_field_contributes_nothing() {
    // the second field's length prefix alone would still fit, but a field
    // is appended whole or not at all: the sink must hold exactly the
    // first field's bytes, with no partial prefix behind them
    let schema = positional_schema(&[true, true]);
    let plan = build_plan(&schema).unwrap();
    let value = RecordValue::Positional(vec![FieldValue::Unsigned(5), text("ok")]);
    let mut sink = ByteSink::bounded(12);
    assert!(encode_record(&value, &mut sink, &plan).is_err());
    assert_eq!(sink.bytes(), &le64(5));
}

#[test]
fn concrete_u64_and_string_layout() {
    // schema {x: u64, y: string}, value {x: 7, y: "ok"}: 8 bytes of 7
    // little-endian, then 4 bytes of length 2 little-endian, then 'o', 'k'
    let schema = named_schema(&[("x", true), ("y", true)]);
    let plan = build_plan(&schema).unwrap();
    let value = named_value(vec![("x", FieldValue::Unsigned(7)), ("y", text("ok"))]);
    let mut sink = ByteSink::unbounded();
    assert!(encode_record(&value, &mut sink, &plan).is_ok());
    let expected: Vec<u8> = vec![7, 0, 0, 0, 0, 0, 0, 0, 2, 0, 0, 0, b'o', b'k'];
    assert_eq!(sink.bytes(), &expected);
}

#[test]
fn conflicting_identifiers_are_rejected() {
    let schema = named_schema(&[("x", true), ("x", true)]);
    match build_plan(&schema) {
        Err(SchemaError::ConflictingIdentifiers) => {}
        _ => panic!("a schema with two fields named alike must be rejected"),
    }
    // a conflict is a conflict even on a non-participating field
    let schema = named_schema(&[("x", true), ("x", false)]);
    assert!(build_plan(&schema).is_err());
}

#[test]
fn bounded_sink_failed_write_changes_nothing() {
    let mut sink = ByteSink::bounded(3);
    assert!(sink.write(&[1, 2]).is_ok());
    assert!(sink.write(&[3, 4]).is_err());
    assert_eq!(sink.bytes(), &vec![1u8, 2]);
    assert_eq!(sink.len(), 2);
    // a block that exactly fills the sink still goes through
    assert!(sink.write(&[5]).is_ok());
    assert_eq!(sink.bytes(), &vec![1u8, 2, 5]);
}

#[test]
fn unsigned_encodes_little_endian() {
    let schema = positional_schema(&[true]);
    let plan = build_plan(&schema).unwrap();
    let value = RecordValue::Positional(vec![FieldValue::Unsigned(0x0102030405060708)]);
    let mut sink = ByteSink::unbounded();
    assert!(encode_record(&value, &mut sink, &plan).is_ok());
    assert_eq!(sink.bytes(), &vec![8u8, 7, 6, 5, 4, 3, 2, 1]);
}

#[test]
fn empty_text_is_length_prefix_only() {
    let schema = positional_schema(&[true]);
    let plan = build_plan(&schema).unwrap();
    let value = RecordValue::Positional(vec![text("")]);
    let mut sink = ByteSink::unbounded();
    assert!(encode_record(&value, &mut sink, &plan).is_ok());
    assert_eq!(sink.bytes(), &vec![0u8, 0, 0, 0]);
}

#[test]
fn duplicate_value_entries_read_first_match() {
    // the record value may list an identifier twice: the first entry wins,
    // deterministically
    let schema = named_schema(&[("x", true)]);
    let plan = build_plan(&schema).unwrap();
    let value = named_value(vec![
        ("x", FieldValue::Unsigned(1)),
        ("x", FieldValue::Unsigned(2)),
    ]);
    let mut sink = ByteSink::unbounded();
    assert!(encode_record(&value, &mut sink, &plan).is_ok());
    assert_eq!(sink.bytes(), &le64(1));
}
