use crate::encodable::Encodable;
use crate::schema::{FieldKey, FieldPlan, PlanKey};
use crate::sink::{ByteSink, IoFailure};
use crate::value::{value_wf, RecordValue};
use vstd::pervasive::unreached;
use vstd::prelude::*;

verus! {

/// The first entry of `entries` carrying `name`, if any.
pub open spec fn lookup_named<T>(entries: Seq<(String, T)>, name: Seq<char>) -> Option<T>
    decreases entries.len(),
{
    if entries.len() == 0 {
        None
    } else if entries[0].0@ == name {
        Some(entries[0].1)
    } else {
        lookup_named(entries.drop_first(), name)
    }
}

/// The field of `value` that `key` addresses: a named record is read by
/// identifier, a positional record by original position.
pub open spec fn field_of<T>(key: PlanKey, value: RecordValue<T>) -> Option<T> {
    match value {
        RecordValue::Named(entries) => match key {
            PlanKey::Name(name) => lookup_named(entries@, name),
            PlanKey::Position(_) => None,
        },
        RecordValue::Positional(fields) => match key {
            PlanKey::Name(_) => None,
            PlanKey::Position(i) => if 0 <= i < fields@.len() {
                Some(fields@[i])
            } else {
                None
            },
        },
        RecordValue::Unit => None,
    }
}

/// Every step of the plan addresses a field that `value` holds.
pub open spec fn plan_resolves<T>(plan: Seq<PlanKey>, value: RecordValue<T>) -> bool {
    forall|i: int| 0 <= i < plan.len() ==> (#[trigger] field_of(plan[i], value)) is Some
}

/// The bytes a successful encode operation appends: the concatenation, in
/// plan order, of each addressed field's canonical bytes.  For a fixed plan
/// this is a pure function of the record value, which is what makes the
/// encoding deterministic and byte-comparable across processes.
pub open spec fn record_bytes<T: Encodable>(plan: Seq<PlanKey>, value: RecordValue<T>) -> Seq<u8>
    decreases plan.len(),
{
    if plan.len() == 0 {
        Seq::empty()
    } else {
        record_bytes(plan.drop_last(), value) + (match field_of(plan.last(), value) {
            Some(field) => field.canon(),
            None => Seq::empty(),
        })
    }
}

/// How many leading steps of the plan still fit when `space` bytes remain
/// in the sink: the record encoder appends exactly these steps' bytes
/// before it stops.
pub open spec fn written_steps<T: Encodable>(
    plan: Seq<PlanKey>,
    value: RecordValue<T>,
    space: int,
) -> int
    decreases plan.len(),
{
    if plan.len() == 0 {
        0
    } else if record_bytes(plan, value).len() <= space {
        plan.len() as int
    } else {
        written_steps(plan.drop_last(), value, space)
    }
}

/// The cumulative byte length of a plan's prefixes never decreases.
pub proof fn lemma_record_bytes_prefix_monotone<T: Encodable>(
    plan: Seq<PlanKey>,
    value: RecordValue<T>,
    j: int,
    k: int,
)
    requires
        0 <= j <= k <= plan.len(),
    ensures
        record_bytes(plan.take(j), value).len() <= record_bytes(plan.take(k), value).len(),
    decreases k - j,
{
    if j < k {
        lemma_record_bytes_prefix_monotone(plan, value, j, k - 1);
        assert(plan.take(k).drop_last() =~= plan.take(k - 1));
        assert(record_bytes(plan.take(k), value).len() >= record_bytes(
            plan.take(k - 1),
            value,
        ).len());
    }
}

/// When a whole plan's bytes fit, every step is written.
pub proof fn lemma_written_steps_full<T: Encodable>(
    plan: Seq<PlanKey>,
    value: RecordValue<T>,
    space: int,
)
    requires
        record_bytes(plan, value).len() <= space,
    ensures
        written_steps(plan, value, space) == plan.len(),
{
}

/// When the first `i` steps fit and step `i` no longer does, exactly `i`
/// steps are written.
pub proof fn lemma_written_steps_at<T: Encodable>(
    plan: Seq<PlanKey>,
    value: RecordValue<T>,
    space: int,
    i: int,
)
    requires
        0 <= i < plan.len(),
        record_bytes(plan.take(i), value).len() <= space,
        record_bytes(plan.take(i + 1), value).len() > space,
    ensures
        written_steps(plan, value, space) == i,
    decreases plan.len(),
{
    lemma_record_bytes_prefix_monotone(plan, value, i + 1, plan.len() as int);
    assert(plan.take(plan.len() as int) =~= plan);
    if i + 1 == plan.len() {
        assert(plan.drop_last() =~= plan.take(i));
        lemma_written_steps_full(plan.take(i), value, space);
    } else {
        assert(plan.drop_last() =~= plan.take(plan.len() - 1));
        assert(plan.take(plan.len() - 1).take(i) =~= plan.take(i));
        assert(plan.take(plan.len() - 1).take(i + 1) =~= plan.take(i + 1));
        lemma_written_steps_at(plan.take(plan.len() - 1), value, space, i);
    }
}

/// A field addressed by a well-formed record value is itself well formed.
pub proof fn lemma_field_of_wf<T: Encodable>(key: PlanKey, value: RecordValue<T>)
    requires
        value_wf(value),
        field_of(key, value) is Some,
    ensures
        (field_of(key, value)->Some_0).wf(),
{
    match value {
        RecordValue::Named(entries) => match key {
            PlanKey::Name(name) => {
                lemma_lookup_named_wf(entries@, name);
            },
            PlanKey::Position(_) => {},
        },
        RecordValue::Positional(_) => {},
        RecordValue::Unit => {},
    }
}

proof fn lemma_lookup_named_wf<T: Encodable>(entries: Seq<(String, T)>, name: Seq<char>)
    requires
        forall|i: int| 0 <= i < entries.len() ==> (#[trigger] entries[i]).1.wf(),
        lookup_named(entries, name) is Some,
    ensures
        (lookup_named(entries, name)->Some_0).wf(),
    decreases entries.len(),
{
    if entries.len() == 0 {
    } else if entries[0].0@ == name {
        assert(entries[0].1.wf());
    } else {
        assert forall|i: int|
            0 <= i < entries.drop_first().len() implies (#[trigger] entries.drop_first()[i]).1.wf() by {
            assert(entries.drop_first()[i] == entries[i + 1]);
        }
        lemma_lookup_named_wf(entries.drop_first(), name);
    }
}

/// Borrow the field of `value` that `key` addresses.
fn get_field<'a, T>(key: &FieldKey, value: &'a RecordValue<T>) -> (r: &'a T)
    requires
        field_of(key@, *value) is Some,
    ensures
        field_of(key@, *value) == Some(*r),
{
    match (key, value) {
        (FieldKey::Name(name), RecordValue::Named(entries)) => {
            let n = entries.len();
            let mut i: usize = 0;
            proof {
                assert(entries@.skip(0) =~= entries@);
            }
            while i < n
                invariant
                    i <= n,
                    n == entries@.len(),
                    key@ == PlanKey::Name(name@),
                    *value == RecordValue::Named(*entries),
                    lookup_named(entries@, name@) is Some,
                    lookup_named(entries@.skip(i as int), name@) == lookup_named(entries@, name@),
                decreases n - i,
            {
                proof {
                    assert(entries@.skip(i as int).len() == n - i);
                    assert(entries@.skip(i as int)[0] == entries@[i as int]);
                }
                if entries[i].0 == *name {
                    return &entries[i].1;
                }
                proof {
                    assert(entries@.skip(i as int).drop_first() =~= entries@.skip(i + 1));
                }
                i = i + 1;
            }
            proof {
                assert(entries@.skip(n as int) =~= Seq::<(String, T)>::empty());
                assert(false);
            }
            unreached()
        },
        (FieldKey::Position(i), RecordValue::Positional(fields)) => {
            if *i < fields.len() {
                &fields[*i]
            } else {
                proof {
                    assert(false);
                }
                unreached()
            }
        },
        _ => {
            proof {
                assert(field_of(key@, *value) is None);
                assert(false);
            }
            unreached()
        },
    }
}

/// Record Encoder: walk the plan in order, appending each addressed field's
/// canonical bytes to `sink`, and stop at the sink's first failure.
///
/// On success the sink has grown by exactly `record_bytes(plan@, *value)`,
/// a pure function of the plan and the record value, so two encode
/// operations over the same plan and logically equal values append
/// byte-identical sequences.  Success is owed exactly when those bytes
/// still fit in the sink.  On failure the sink keeps the bytes of every
/// field encoded before the failing one — nothing is rolled back, and no
/// later field contributes anything.
pub fn encode_record<T: Encodable>(
    value: &RecordValue<T>,
    sink: &mut ByteSink,
    plan: &FieldPlan,
) -> (r: Result<(), IoFailure>)
    requires
        old(sink).wf(),
        value_wf(*value),
        plan_resolves(plan@, *value),
    ensures
        final(sink).wf(),
        final(sink).capacity() == old(sink).capacity(),
        (r is Ok) <==> old(sink)@.len() + record_bytes(plan@, *value).len() <= old(
            sink,
        ).capacity(),
        r is Ok ==> final(sink)@ == old(sink)@ + record_bytes(plan@, *value),
        final(sink)@ == old(sink)@ + record_bytes(
            plan@.take(
                written_steps(plan@, *value, old(sink).capacity() - old(sink)@.len()),
            ),
            *value,
        ),
{
    let ghost space = old(sink).capacity() - old(sink)@.len();
    let n = plan.steps.len();
    let mut i: usize = 0;
    while i < n
        invariant
            i <= n,
            n == plan.steps@.len(),
            plan@ == plan.steps@.map_values(|k: FieldKey| k@),
            value_wf(*value),
            plan_resolves(plan@, *value),
            sink.wf(),
            sink.capacity() == old(sink).capacity(),
            space == old(sink).capacity() - old(sink)@.len(),
            sink@ == old(sink)@ + record_bytes(plan@.take(i as int), *value),
            record_bytes(plan@.take(i as int), *value).len() <= space,
        decreases n - i,
    {
        let key = &plan.steps[i];
        proof {
            assert(plan@[i as int] == plan.steps@[i as int]@);
            assert(field_of(plan@[i as int], *value) is Some);
            lemma_field_of_wf(plan@[i as int], *value);
        }
        let field = get_field(key, value);
        let r = field.encode(sink);
        proof {
            assert(plan@.take(i + 1).drop_last() =~= plan@.take(i as int));
            assert(plan@.take(i + 1).last() == plan@[i as int]);
            assert(record_bytes(plan@.take(i + 1), *value) == record_bytes(
                plan@.take(i as int),
                *value,
            ) + field.canon());
        }
        match r {
            Ok(_) => {
                i = i + 1;
            },
            Err(failure) => {
                proof {
                    lemma_written_steps_at(plan@, *value, space, i as int);
                    lemma_record_bytes_prefix_monotone(plan@, *value, i + 1, plan@.len() as int);
                    assert(plan@.take(plan@.len() as int) =~= plan@);
                }
                return Err(failure);
            },
        }
    }
    proof {
        assert(plan@.take(n as int) =~= plan@);
        lemma_written_steps_full(plan@, *value, space);
    }
    Ok(())
}

} // verus!
