use vstd::prelude::*;

verus! {

/// One field of a named record: its identifier and whether it participates
/// in the encoding.  Declaration order is encoding order.
pub struct NamedField {
    pub name: String,
    pub participates: bool,
}

/// One field of a positional record.  Its position in the schema is its
/// index; a non-participating field contributes no bytes but does not shift
/// the positions of the fields after it.
pub struct PositionalField {
    pub participates: bool,
}

/// The static, ordered description of a composite type's fields.
///
/// A schema's field order, once fixed, is never reordered: it is the single
/// source of truth for the byte order of every value encoded against it.
pub enum RecordSchema {
    Named(Vec<NamedField>),
    Positional(Vec<PositionalField>),
    Empty,
}

/// A schema-time failure, reported when a plan is built and before any
/// value is ever encoded.
#[derive(Clone, Copy, Debug, PartialEq, Eq, Structural)]
pub enum SchemaError {
    /// Two fields of a named schema share an identifier.
    ConflictingIdentifiers,
}

/// How one plan step addresses the source record: by identifier for a named
/// record, by original position for a positional one.
pub enum FieldKey {
    Name(String),
    Position(usize),
}

/// The mathematical form of a plan step: the identifier's characters, or
/// the original position.
pub enum PlanKey {
    Name(Seq<char>),
    Position(int),
}

impl View for FieldKey {
    type V = PlanKey;

    open spec fn view(&self) -> PlanKey {
        match self {
            FieldKey::Name(s) => PlanKey::Name(s@),
            FieldKey::Position(i) => PlanKey::Position(*i as int),
        }
    }
}

/// The ordered, filtered projection of a schema: its participating fields
/// only, in declared order.  Built once per schema, immutable afterwards,
/// and reusable across every value encoded against that schema.
pub struct FieldPlan {
    pub steps: Vec<FieldKey>,
}

impl View for FieldPlan {
    type V = Seq<PlanKey>;

    open spec fn view(&self) -> Seq<PlanKey> {
        self.steps@.map_values(|k: FieldKey| k@)
    }
}

/// The plan a named field list denotes: the participating fields' names,
/// in declared order.
pub open spec fn named_plan(fields: Seq<NamedField>) -> Seq<PlanKey>
    decreases fields.len(),
{
    if fields.len() == 0 {
        Seq::empty()
    } else {
        let front = named_plan(fields.drop_last());
        if fields.last().participates {
            front.push(PlanKey::Name(fields.last().name@))
        } else {
            front
        }
    }
}

/// The plan a positional field list denotes: the participating fields'
/// original positions, in order.  Positions are never renumbered: skipping
/// a field removes its bytes, not its successors' indices.
pub open spec fn positional_plan(fields: Seq<PositionalField>) -> Seq<PlanKey>
    decreases fields.len(),
{
    if fields.len() == 0 {
        Seq::empty()
    } else {
        let front = positional_plan(fields.drop_last());
        if fields.last().participates {
            front.push(PlanKey::Position(fields.len() - 1))
        } else {
            front
        }
    }
}

/// The plan a schema denotes.
pub open spec fn plan_of(schema: RecordSchema) -> Seq<PlanKey> {
    match schema {
        RecordSchema::Named(fields) => named_plan(fields@),
        RecordSchema::Positional(fields) => positional_plan(fields@),
        RecordSchema::Empty => Seq::empty(),
    }
}

/// No two fields of a named field list share an identifier.
pub open spec fn distinct_names(fields: Seq<NamedField>) -> bool {
    forall|i: int, j: int|
        0 <= i < j < fields.len() ==> fields[i].name@ != fields[j].name@
}

/// A schema is valid when its identifiers do not conflict; positional and
/// empty schemas have no identifiers and are always valid.
pub open spec fn schema_valid(schema: RecordSchema) -> bool {
    match schema {
        RecordSchema::Named(fields) => distinct_names(fields@),
        RecordSchema::Positional(_) => true,
        RecordSchema::Empty => true,
    }
}

/// No field of the schema participates in the encoding.
pub open spec fn no_field_participates(schema: RecordSchema) -> bool {
    match schema {
        RecordSchema::Named(fields) => forall|i: int|
            0 <= i < fields@.len() ==> !(#[trigger] fields@[i]).participates,
        RecordSchema::Positional(fields) => forall|i: int|
            0 <= i < fields@.len() ==> !(#[trigger] fields@[i]).participates,
        RecordSchema::Empty => true,
    }
}

/// Field Plan Builder: project a schema to its ordered plan of
/// participating fields, or reject a self-contradictory schema.
///
/// Succeeds exactly on valid schemas; a schema with zero participating
/// fields yields a valid empty plan.
pub fn build_plan(schema: &RecordSchema) -> (r: Result<FieldPlan, SchemaError>)
    ensures
        (r is Ok) <==> schema_valid(*schema),
        r is Ok ==> (r->Ok_0)@ == plan_of(*schema),
        r is Err ==> r->Err_0 == SchemaError::ConflictingIdentifiers,
{
    match schema {
        RecordSchema::Named(fields) => {
            let n = fields.len();
            let mut i: usize = 0;
            while i < n
                invariant
                    i <= n,
                    n == fields@.len(),
                    *schema == RecordSchema::Named(*fields),
                    forall|p: int, q: int|
                        0 <= p < i && p < q < n ==> fields@[p].name@ != fields@[q].name@,
                decreases n - i,
            {
                let mut j: usize = i + 1;
                while j < n
                    invariant
                        i < j || i + 1 == j,
                        i < n,
                        j <= n,
                        n == fields@.len(),
                        *schema == RecordSchema::Named(*fields),
                        forall|q: int| i < q < j ==> fields@[i as int].name@ != fields@[q].name@,
                    decreases n - j,
                {
                    if fields[i].name == fields[j].name {
                        proof {
                            assert(fields@[i as int].name@ == fields@[j as int].name@);
                            assert(!distinct_names(fields@));
                        }
                        return Err(SchemaError::ConflictingIdentifiers);
                    }
                    j = j + 1;
                }
                i = i + 1;
            }
            let mut steps: Vec<FieldKey> = Vec::new();
            let mut i: usize = 0;
            while i < n
                invariant
                    i <= n,
                    n == fields@.len(),
                    steps@.map_values(|k: FieldKey| k@) == named_plan(fields@.take(i as int)),
                decreases n - i,
            {
                let ghost prev = steps@.map_values(|k: FieldKey| k@);
                if fields[i].participates {
                    steps.push(FieldKey::Name(fields[i].name.clone()));
                }
                proof {
                    assert(fields@.take(i + 1).drop_last() =~= fields@.take(i as int));
                    assert(fields@.take(i + 1).last() == fields@[i as int]);
                    if fields@[i as int].participates {
                        assert(steps@.map_values(|k: FieldKey| k@)
                            =~= prev.push(PlanKey::Name(fields@[i as int].name@)));
                    }
                }
                i = i + 1;
            }
            proof {
                assert(fields@.take(n as int) =~= fields@);
            }
            Ok(FieldPlan { steps })
        },
        RecordSchema::Positional(fields) => {
            let n = fields.len();
            let mut steps: Vec<FieldKey> = Vec::new();
            let mut i: usize = 0;
            while i < n
                invariant
                    i <= n,
                    n == fields@.len(),
                    steps@.map_values(|k: FieldKey| k@) == positional_plan(fields@.take(i as int)),
                decreases n - i,
            {
                let ghost prev = steps@.map_values(|k: FieldKey| k@);
                if fields[i].participates {
                    steps.push(FieldKey::Position(i));
                }
                proof {
                    assert(fields@.take(i + 1).drop_last() =~= fields@.take(i as int));
                    assert(fields@.take(i + 1).last() == fields@[i as int]);
                    if fields@[i as int].participates {
                        assert(steps@.map_values(|k: FieldKey| k@)
                            =~= prev.push(PlanKey::Position(i as int)));
                    }
                }
                i = i + 1;
            }
            proof {
                assert(fields@.take(n as int) =~= fields@);
            }
            Ok(FieldPlan { steps })
        },
        RecordSchema::Empty => {
            let steps: Vec<FieldKey> = Vec::new();
            proof {
                assert(steps@.map_values(|k: FieldKey| k@) =~= Seq::<PlanKey>::empty());
            }
            Ok(FieldPlan { steps })
        },
    }
}

} // verus!
