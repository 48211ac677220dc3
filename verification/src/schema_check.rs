use vstd::prelude::*;
use crate::dict::Dict;
use crate::error::{
    fault_of, first_fault, lemma_first_fault_all, lemma_first_fault_prefix, lemma_first_fault_step,
    path_view, Error, Fault,
};
use crate::schema::{
    AggregateFunctionDefinition, ArgumentInfo, ComparisonOperatorDefinition, ObjectField,
    ObjectType, ScalarType, SchemaResponse, Type,
};
use crate::validate::{type_fault, validate_type};

verus! {

/// The fault of the result type of an aggregate function: a custom result
/// type must be valid, and the scalar result type of a sum or an average
/// must be defined.
pub open spec fn aggregate_function_fault(schema: SchemaResponse, def: AggregateFunctionDefinition) -> Option<Fault> {
    match def {
        AggregateFunctionDefinition::Min => None,
        AggregateFunctionDefinition::Max => None,
        AggregateFunctionDefinition::Sum { result_type } => named_fault(schema, result_type@),
        AggregateFunctionDefinition::Average { result_type } => named_fault(schema, result_type@),
        AggregateFunctionDefinition::Custom { result_type } => type_fault(schema, result_type),
    }
}

/// The fault of a name that is neither an object nor a scalar type.
pub open spec fn named_fault(schema: SchemaResponse, name: Seq<char>) -> Option<Fault> {
    if !schema.object_types.map().contains_key(name) && !schema.scalar_types.map().contains_key(name) {
        Some(Fault::NamedTypeIsNotDefined(name))
    } else {
        None
    }
}

/// The first fault among the comparison operators of a scalar type: a
/// second equality operator, or an invalid argument type of a custom
/// operator.
pub open spec fn comparison_operators_fault(
    schema: SchemaResponse,
    scalar_name: Seq<char>,
    ops: Seq<(Seq<char>, ComparisonOperatorDefinition)>,
    has_equality: bool,
) -> Option<Fault>
    decreases ops.len(),
{
    if ops.len() == 0 {
        None
    } else {
        let op = ops[0].1;
        if op is Equal && has_equality {
            Some(Fault::MultipleEqualityOperators(scalar_name))
        } else {
            let f = match op {
                ComparisonOperatorDefinition::Custom { argument_type } => type_fault(schema, argument_type),
                _ => None,
            };
            if f is Some {
                f
            } else {
                comparison_operators_fault(schema, scalar_name, ops.drop_first(), has_equality || op is Equal)
            }
        }
    }
}

/// The faults of the aggregate functions of a scalar type, in order.
pub open spec fn aggregate_faults(schema: SchemaResponse, st: ScalarType) -> Seq<Option<Fault>> {
    st.aggregate_functions.items().map_values(
        |e: (Seq<char>, AggregateFunctionDefinition)| aggregate_function_fault(schema, e.1),
    )
}

/// The faults of the scalar types of a schema, in order.
pub open spec fn scalar_faults(schema: SchemaResponse) -> Seq<Option<Fault>> {
    schema.scalar_types.items().map_values(
        |e: (Seq<char>, ScalarType)| scalar_type_fault(schema, e.0, e.1),
    )
}

/// The faults of the field types of an object type, in order.
pub open spec fn field_type_faults(schema: SchemaResponse, ot: ObjectType) -> Seq<Option<Fault>> {
    ot.fields.items().map_values(|e: (Seq<char>, ObjectField)| type_fault(schema, e.1.field_type))
}

/// The faults of the object types of a schema, in order.
pub open spec fn object_type_faults(schema: SchemaResponse) -> Seq<Option<Fault>> {
    schema.object_types.items().map_values(|e: (Seq<char>, ObjectType)| object_type_fault(schema, e.1))
}

/// The faults of argument types, in order.
pub open spec fn argument_faults(schema: SchemaResponse, args: Dict<ArgumentInfo>) -> Seq<Option<Fault>> {
    args.items().map_values(|e: (Seq<char>, ArgumentInfo)| type_fault(schema, e.1.argument_type))
}

/// The first fault of a scalar type: in its aggregate functions, then in
/// its comparison operators.
pub open spec fn scalar_type_fault(schema: SchemaResponse, scalar_name: Seq<char>, st: ScalarType) -> Option<Fault> {
    let a = first_fault(aggregate_faults(schema, st));
    if a is Some {
        a
    } else {
        comparison_operators_fault(schema, scalar_name, st.comparison_operators.items(), false)
    }
}

/// The first fault among the scalar types of a schema.
pub open spec fn scalar_types_fault(schema: SchemaResponse) -> Option<Fault> {
    first_fault(scalar_faults(schema))
}

/// The first invalid field type of an object type.
pub open spec fn object_type_fault(schema: SchemaResponse, ot: ObjectType) -> Option<Fault> {
    first_fault(field_type_faults(schema, ot))
}

/// The first fault among the object types of a schema.
pub open spec fn object_types_fault(schema: SchemaResponse) -> Option<Fault> {
    first_fault(object_type_faults(schema))
}

/// The first invalid argument type.
pub open spec fn arguments_fault(schema: SchemaResponse, args: Dict<ArgumentInfo>) -> Option<Fault> {
    first_fault(argument_faults(schema, args))
}

/// A check of a schema: the names of the groups it is reported under and
/// its own, and its fault, if it failed.
pub struct CheckOutcome {
    pub path: Vec<String>,
    pub result: Result<(), Error>,
}

pub open spec fn outcome_view(o: CheckOutcome) -> (Seq<Seq<char>>, Option<Fault>) {
    (path_view(o.path@), fault_of(o.result))
}

/// The checks of a collection: its arguments, and its object type.
pub open spec fn collection_checks(schema: SchemaResponse, i: int) -> Seq<(Seq<Seq<char>>, Option<Fault>)> {
    let c = schema.collections@[i];
    seq![
        (seq!["Collections"@, c.name@, "Arguments"@], arguments_fault(schema, c.arguments)),
        (
            seq!["Collections"@, c.name@, "Collection type"@],
            if schema.object_types.map().contains_key(c.collection_type@) {
                None
            } else {
                Some(Fault::CollectionTypeIsNotDefined(c.collection_type@))
            },
        ),
    ]
}

/// The checks of a function: its result type, and its arguments.
pub open spec fn function_checks(schema: SchemaResponse, i: int) -> Seq<(Seq<Seq<char>>, Option<Fault>)> {
    let f = schema.functions@[i];
    seq![
        (seq!["Functions"@, f.name@, "Result type"@], type_fault(schema, f.result_type)),
        (seq!["Functions"@, f.name@, "Arguments"@], arguments_fault(schema, f.arguments)),
    ]
}

/// The checks of a procedure: its result type, and its arguments.
pub open spec fn procedure_checks(schema: SchemaResponse, i: int) -> Seq<(Seq<Seq<char>>, Option<Fault>)> {
    let p = schema.procedures@[i];
    seq![
        (seq!["Functions"@, "Procedures"@, p.name@, "Result type"@], type_fault(schema, p.result_type)),
        (seq!["Functions"@, "Procedures"@, p.name@, "Arguments"@], arguments_fault(schema, p.arguments)),
    ]
}

/// The checks of the first `n` collections, in order.
pub open spec fn collections_checks(schema: SchemaResponse, n: nat) -> Seq<(Seq<Seq<char>>, Option<Fault>)>
    decreases n,
{
    if n == 0 {
        seq![]
    } else {
        collections_checks(schema, (n - 1) as nat) + collection_checks(schema, n - 1)
    }
}

/// The checks of the first `n` functions, in order.
pub open spec fn functions_checks(schema: SchemaResponse, n: nat) -> Seq<(Seq<Seq<char>>, Option<Fault>)>
    decreases n,
{
    if n == 0 {
        seq![]
    } else {
        functions_checks(schema, (n - 1) as nat) + function_checks(schema, n - 1)
    }
}

/// The checks of the first `n` procedures, in order.
pub open spec fn procedures_checks(schema: SchemaResponse, n: nat) -> Seq<(Seq<Seq<char>>, Option<Fault>)>
    decreases n,
{
    if n == 0 {
        seq![]
    } else {
        procedures_checks(schema, (n - 1) as nat) + procedure_checks(schema, n - 1)
    }
}

/// Every check of a schema, in the order in which they are run: its scalar
/// types, its object types, then each collection, each function and each
/// procedure.
pub open spec fn schema_checks(schema: SchemaResponse) -> Seq<(Seq<Seq<char>>, Option<Fault>)> {
    seq![
        (seq!["scalar_types"@], scalar_types_fault(schema)),
        (seq!["object_types"@], object_types_fault(schema)),
    ] + collections_checks(schema, schema.collections.len() as nat) + functions_checks(
        schema,
        schema.functions.len() as nat,
    ) + procedures_checks(schema, schema.procedures.len() as nat)
}

/// Checks a sequence of outcomes, stopping at the first fault.
fn check_argument_types(schema: &SchemaResponse, args: &Dict<ArgumentInfo>) -> (r: Result<(), Error>)
    ensures
        fault_of(r) == arguments_fault(*schema, *args),
{
    let ghost results = argument_faults(*schema, *args);
    let mut i: usize = 0;
    while i < args.len()
        invariant
            results == argument_faults(*schema, *args),
            i <= results.len(),
            first_fault(results.take(i as int)) is None,
        decreases results.len() - i,
    {
        proof {
            lemma_first_fault_step(results, i as int);
        }
        let (_, a) = args.get_index(i);
        match validate_type(schema, &a.argument_type) {
            Err(e) => {
                proof {
                    lemma_first_fault_prefix(results, i + 1);
                }
                return Err(e);
            },
            Ok(()) => {},
        }
        i += 1;
    }
    proof {
        lemma_first_fault_all(results);
    }
    Ok(())
}

fn check_aggregate_function(schema: &SchemaResponse, def: &AggregateFunctionDefinition) -> (r: Result<(), Error>)
    ensures
        fault_of(r) == aggregate_function_fault(*schema, *def),
{
    match def {
        AggregateFunctionDefinition::Min => Ok(()),
        AggregateFunctionDefinition::Max => Ok(()),
        AggregateFunctionDefinition::Sum { result_type } => check_named(schema, result_type),
        AggregateFunctionDefinition::Average { result_type } => check_named(schema, result_type),
        AggregateFunctionDefinition::Custom { result_type } => validate_type(schema, result_type),
    }
}

fn check_named(schema: &SchemaResponse, name: &String) -> (r: Result<(), Error>)
    ensures
        fault_of(r) == named_fault(*schema, name@),
{
    if !schema.object_types.contains_key(name) && !schema.scalar_types.contains_key(name) {
        Err(Error::NamedTypeIsNotDefined(name.clone()))
    } else {
        Ok(())
    }
}

fn check_scalar_type(schema: &SchemaResponse, name: &String, st: &ScalarType) -> (r: Result<(), Error>)
    ensures
        fault_of(r) == scalar_type_fault(*schema, name@, *st),
{
    let ghost results = aggregate_faults(*schema, *st);
    let mut i: usize = 0;
    while i < st.aggregate_functions.len()
        invariant
            results == aggregate_faults(*schema, *st),
            i <= results.len(),
            first_fault(results.take(i as int)) is None,
        decreases results.len() - i,
    {
        proof {
            lemma_first_fault_step(results, i as int);
        }
        let (_, def) = st.aggregate_functions.get_index(i);
        match check_aggregate_function(schema, def) {
            Err(e) => {
                proof {
                    lemma_first_fault_prefix(results, i + 1);
                }
                return Err(e);
            },
            Ok(()) => {},
        }
        i += 1;
    }
    proof {
        lemma_first_fault_all(results);
    }
    let ghost ops = st.comparison_operators.items();
    proof {
        assert(ops.skip(0) =~= ops);
    }
    let mut has_equality = false;
    let mut j: usize = 0;
    while j < st.comparison_operators.len()
        invariant
            ops == st.comparison_operators.items(),
            first_fault(aggregate_faults(*schema, *st)) is None,
            j <= ops.len(),
            comparison_operators_fault(*schema, name@, ops, false) == comparison_operators_fault(
                *schema,
                name@,
                ops.skip(j as int),
                has_equality,
            ),
        decreases ops.len() - j,
    {
        proof {
            assert(ops.skip(j as int)[0] == ops[j as int]);
            assert(ops.skip(j as int).drop_first() =~= ops.skip(j + 1));
        }
        let (_, op) = st.comparison_operators.get_index(j);
        let is_equal = match op {
            ComparisonOperatorDefinition::Equal => true,
            _ => false,
        };
        if is_equal {
            if has_equality {
                return Err(Error::MultipleEqualityOperators(name.clone()));
            }
            has_equality = true;
        }
        match op {
            ComparisonOperatorDefinition::Custom { argument_type } => {
                match validate_type(schema, argument_type) {
                    Err(e) => {
                        return Err(e);
                    },
                    Ok(()) => {},
                }
            },
            _ => {},
        }
        j += 1;
    }
    proof {
        assert(ops.skip(j as int).len() == 0);
    }
    Ok(())
}

fn check_scalar_types(schema: &SchemaResponse) -> (r: Result<(), Error>)
    ensures
        fault_of(r) == scalar_types_fault(*schema),
{
    let ghost results = scalar_faults(*schema);
    let mut i: usize = 0;
    while i < schema.scalar_types.len()
        invariant
            results == scalar_faults(*schema),
            i <= results.len(),
            first_fault(results.take(i as int)) is None,
        decreases results.len() - i,
    {
        proof {
            lemma_first_fault_step(results, i as int);
        }
        let (name, st) = schema.scalar_types.get_index(i);
        match check_scalar_type(schema, name, st) {
            Err(e) => {
                proof {
                    lemma_first_fault_prefix(results, i + 1);
                }
                return Err(e);
            },
            Ok(()) => {},
        }
        i += 1;
    }
    proof {
        lemma_first_fault_all(results);
    }
    Ok(())
}

fn check_object_type(schema: &SchemaResponse, ot: &ObjectType) -> (r: Result<(), Error>)
    ensures
        fault_of(r) == object_type_fault(*schema, *ot),
{
    let ghost results = field_type_faults(*schema, *ot);
    let mut i: usize = 0;
    while i < ot.fields.len()
        invariant
            results == field_type_faults(*schema, *ot),
            i <= results.len(),
            first_fault(results.take(i as int)) is None,
        decreases results.len() - i,
    {
        proof {
            lemma_first_fault_step(results, i as int);
        }
        let (_, f) = ot.fields.get_index(i);
        match validate_type(schema, &f.field_type) {
            Err(e) => {
                proof {
                    lemma_first_fault_prefix(results, i + 1);
                }
                return Err(e);
            },
            Ok(()) => {},
        }
        i += 1;
    }
    proof {
        lemma_first_fault_all(results);
    }
    Ok(())
}

fn check_object_types(schema: &SchemaResponse) -> (r: Result<(), Error>)
    ensures
        fault_of(r) == object_types_fault(*schema),
{
    let ghost results = object_type_faults(*schema);
    let mut i: usize = 0;
    while i < schema.object_types.len()
        invariant
            results == object_type_faults(*schema),
            i <= results.len(),
            first_fault(results.take(i as int)) is None,
        decreases results.len() - i,
    {
        proof {
            lemma_first_fault_step(results, i as int);
        }
        let (_, ot) = schema.object_types.get_index(i);
        match check_object_type(schema, ot) {
            Err(e) => {
                proof {
                    lemma_first_fault_prefix(results, i + 1);
                }
                return Err(e);
            },
            Ok(()) => {},
        }
        i += 1;
    }
    proof {
        lemma_first_fault_all(results);
    }
    Ok(())
}

/// A path of a group, a name and a check.
fn path3(a: &str, b: &String, c: &str) -> (r: Vec<String>)
    ensures
        path_view(r@) == seq![a@, b@, c@],
{
    let mut v: Vec<String> = Vec::new();
    v.push(a.to_string());
    v.push(b.clone());
    v.push(c.to_string());
    proof {
        assert(path_view(v@) =~= seq![a@, b@, c@]);
    }
    v
}

/// A path of two groups, a name and a check.
fn path4(a: &str, b: &str, c: &String, d: &str) -> (r: Vec<String>)
    ensures
        path_view(r@) == seq![a@, b@, c@, d@],
{
    let mut v: Vec<String> = Vec::new();
    v.push(a.to_string());
    v.push(b.to_string());
    v.push(c.clone());
    v.push(d.to_string());
    proof {
        assert(path_view(v@) =~= seq![a@, b@, c@, d@]);
    }
    v
}

/// A path of one check.
fn path1(a: &str) -> (r: Vec<String>)
    ensures
        path_view(r@) == seq![a@],
{
    let mut v: Vec<String> = Vec::new();
    v.push(a.to_string());
    proof {
        assert(path_view(v@) =~= seq![a@]);
    }
    v
}

/// Runs every check of a schema and gives their outcomes in the order in
/// which they are run: its scalar types, its object types (each in
/// ascending order of their names, as a schema lists them), then each
/// collection, each function and each procedure.
pub fn validate_schema(schema: &SchemaResponse) -> (r: Vec<CheckOutcome>)
    requires
        crate::common::keys_ascending(schema.scalar_types.items()),
        crate::common::keys_ascending(schema.object_types.items()),
    ensures
        r@.map_values(|o: CheckOutcome| outcome_view(o)) == schema_checks(*schema),
{
    proof {
        reveal_strlit("scalar_types");
        reveal_strlit("object_types");
        reveal_strlit("Collections");
        reveal_strlit("Arguments");
        reveal_strlit("Collection type");
        reveal_strlit("Functions");
        reveal_strlit("Result type");
        reveal_strlit("Procedures");
    }
    let mut out: Vec<CheckOutcome> = Vec::new();
    let o1 = CheckOutcome { path: path1("scalar_types"), result: check_scalar_types(schema) };
    let o2 = CheckOutcome { path: path1("object_types"), result: check_object_types(schema) };
    let ghost v1 = outcome_view(o1);
    let ghost v2 = outcome_view(o2);
    out.push(o1);
    out.push(o2);
    let ghost head = seq![
        (seq!["scalar_types"@], scalar_types_fault(*schema)),
        (seq!["object_types"@], object_types_fault(*schema)),
    ];
    proof {
        assert(v1 == (seq!["scalar_types"@], scalar_types_fault(*schema)));
        assert(v2 == (seq!["object_types"@], object_types_fault(*schema)));
        assert(out@.map_values(|o: CheckOutcome| outcome_view(o)) =~= seq![v1, v2]);
        assert(head =~= seq![v1, v2]);
    }
    let mut i: usize = 0;
    while i < schema.collections.len()
        invariant
            i <= schema.collections.len(),
            out@.map_values(|o: CheckOutcome| outcome_view(o)) == head + collections_checks(*schema, i as nat),
        decreases schema.collections.len() - i,
    {
        let c = &schema.collections[i];
        let ghost before = out@;
        let p = path3("Collections", &c.name, "Arguments");
        out.push(CheckOutcome { path: p, result: check_argument_types(schema, &c.arguments) });
        let p = path3("Collections", &c.name, "Collection type");
        let result = if schema.object_types.contains_key(&c.collection_type) {
            Ok(())
        } else {
            Err(Error::CollectionTypeIsNotDefined(c.collection_type.clone()))
        };
        out.push(CheckOutcome { path: p, result });
        proof {
            assert(out@.map_values(|o: CheckOutcome| outcome_view(o)) =~= before.map_values(
                |o: CheckOutcome| outcome_view(o),
            ) + collection_checks(*schema, i as int));
            assert(collections_checks(*schema, (i + 1) as nat) == collections_checks(*schema, i as nat)
                + collection_checks(*schema, i as int));
        }
        i += 1;
    }
    let ghost head2 = head + collections_checks(*schema, schema.collections.len() as nat);
    let mut i: usize = 0;
    while i < schema.functions.len()
        invariant
            i <= schema.functions.len(),
            out@.map_values(|o: CheckOutcome| outcome_view(o)) == head2 + functions_checks(*schema, i as nat),
        decreases schema.functions.len() - i,
    {
        let f = &schema.functions[i];
        let ghost before = out@;
        let p = path3("Functions", &f.name, "Result type");
        out.push(CheckOutcome { path: p, result: validate_type(schema, &f.result_type) });
        let p = path3("Functions", &f.name, "Arguments");
        out.push(CheckOutcome { path: p, result: check_argument_types(schema, &f.arguments) });
        proof {
            assert(out@.map_values(|o: CheckOutcome| outcome_view(o)) =~= before.map_values(
                |o: CheckOutcome| outcome_view(o),
            ) + function_checks(*schema, i as int));
            assert(functions_checks(*schema, (i + 1) as nat) == functions_checks(*schema, i as nat)
                + function_checks(*schema, i as int));
        }
        i += 1;
    }
    let ghost head3 = head2 + functions_checks(*schema, schema.functions.len() as nat);
    let mut i: usize = 0;
    while i < schema.procedures.len()
        invariant
            i <= schema.procedures.len(),
            out@.map_values(|o: CheckOutcome| outcome_view(o)) == head3 + procedures_checks(*schema, i as nat),
        decreases schema.procedures.len() - i,
    {
        let pr = &schema.procedures[i];
        let ghost before = out@;
        let p = path4("Functions", "Procedures", &pr.name, "Result type");
        out.push(CheckOutcome { path: p, result: validate_type(schema, &pr.result_type) });
        let p = path4("Functions", "Procedures", &pr.name, "Arguments");
        out.push(CheckOutcome { path: p, result: check_argument_types(schema, &pr.arguments) });
        proof {
            assert(out@.map_values(|o: CheckOutcome| outcome_view(o)) =~= before.map_values(
                |o: CheckOutcome| outcome_view(o),
            ) + procedure_checks(*schema, i as int));
            assert(procedures_checks(*schema, (i + 1) as nat) == procedures_checks(*schema, i as nat)
                + procedure_checks(*schema, i as int));
        }
        i += 1;
    }
    proof {
        assert(head3 + procedures_checks(*schema, schema.procedures.len() as nat) =~= schema_checks(*schema));
    }
    out
}

} // verus!
