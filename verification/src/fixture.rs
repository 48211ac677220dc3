use vstd::prelude::*;
use crate::dict::Dict;
use crate::query::{Field, NestedArray, NestedField, NestedObject};
use crate::schema::{ArgumentInfo, ObjectField, ObjectType, ScalarType, SchemaResponse, Type, TypeRepresentation};
use crate::validate::contains_string;

verus! {

broadcast use crate::dict::Dict::lemma_value_decreases;

/// How fixtures are generated: the fields and arguments to leave out, and
/// how deeply objects nest in field selections and in argument values.
pub struct FixtureGenerationConfiguration {
    pub exclude_fields: Vec<String>,
    pub exclude_arguments: Vec<String>,
    pub field_depth: u32,
    pub argument_depth: u32,
}

/// A generated value, with holes where a random value of a scalar type is
/// to be drawn.
pub enum FixtureValue {
    Null,
    /// A random value of the named scalar type; never null.
    Random { scalar_type: String },
    Array(Vec<FixtureValue>),
    Object(Dict<FixtureValue>),
}

/// The number of layers of a type.
pub open spec fn type_size(ty: Type) -> nat
    decreases ty,
{
    match ty {
        Type::Nullable { underlying_type } => 1 + type_size(*underlying_type),
        Type::Array { element_type } => 1 + type_size(*element_type),
        _ => 1,
    }
}

/// The texts of a list of strings.
pub open spec fn texts(list: Seq<String>) -> Seq<Seq<char>> {
    list.map_values(|s: String| s@)
}

/// The entries whose keys are not excluded, in their order.
pub open spec fn kept<V>(items: Seq<(Seq<char>, V)>, exclude: Seq<Seq<char>>) -> Seq<(Seq<char>, V)>
    decreases items.len(),
{
    if items.len() == 0 {
        Seq::empty()
    } else if exclude.contains(items.last().0) {
        kept(items.drop_last(), exclude)
    } else {
        kept(items.drop_last(), exclude).push(items.last())
    }
}

/// The value generated for a scalar type: arbitrary JSON is an empty
/// object, or null inside a type other than a name; an enumeration with no
/// members is null; any other scalar is a random value of its type.
pub open spec fn scalar_value_ok(name: Seq<char>, scalar: ScalarType, parent: Option<Type>, v: FixtureValue) -> bool {
    match scalar.representation {
        TypeRepresentation::JSON => if parent matches Some(t) && !(t is Named) {
            v is Null
        } else {
            v matches FixtureValue::Object(d) && d.items().len() == 0
        },
        TypeRepresentation::Enum { one_of } => if one_of.len() == 0 {
            v is Null
        } else {
            v matches FixtureValue::Random { scalar_type } && scalar_type@ == name
        },
        _ => v matches FixtureValue::Random { scalar_type } && scalar_type@ == name,
    }
}

/// The field selection generated for a type with `budget` levels of object
/// nesting left: objects select each of their fields that is not
/// excluded; arrays select what their elements select; scalars, unknown
/// names, predicates and objects past the budget select nothing.
pub open spec fn field_ok(
    exclude: Seq<Seq<char>>,
    schema: SchemaResponse,
    ty: Type,
    budget: nat,
    f: Option<NestedField>,
) -> bool
    decreases budget, 1int, type_size(ty),
{
    match ty {
        Type::Nullable { underlying_type } => field_ok(exclude, schema, *underlying_type, budget, f),
        Type::Array { element_type } => match f {
            None => field_ok(exclude, schema, *element_type, budget, None),
            Some(NestedField::Array(a)) => field_ok(
                exclude,
                schema,
                *element_type,
                budget,
                Some(*a.fields),
            ) && *a.fields !is Collection,
            Some(_) => false,
        },
        Type::Named { name } => if schema.scalar_types.map().contains_key(name@) || budget == 0
            || !schema.object_types.map().contains_key(name@) {
            f is None
        } else {
            f matches Some(NestedField::Object(o)) && fields_ok(
                exclude,
                schema,
                kept(schema.object_types.map()[name@].fields.items(), exclude),
                (budget - 1) as nat,
                o.fields.items(),
            )
        },
        Type::Predicate { .. } => f is None,
    }
}

/// The columns generated for fields, one for each, in their order: each
/// selects its own name, takes no arguments, and selects within it what
/// its type calls for.
pub open spec fn fields_ok(
    exclude: Seq<Seq<char>>,
    schema: SchemaResponse,
    fields: Seq<(Seq<char>, ObjectField)>,
    budget: nat,
    out: Seq<(Seq<char>, Field)>,
) -> bool
    decreases budget, 2int, fields.len(),
{
    out.len() == fields.len() && (fields.len() == 0 || (fields_ok(
        exclude,
        schema,
        fields.drop_last(),
        budget,
        out.drop_last(),
    ) && out.last().0 == fields.last().0 && (out.last().1 matches Field::Column {
        column,
        fields: selection,
        arguments,
    } && column@ == fields.last().0 && arguments.items().len() == 0 && field_ok(
        exclude,
        schema,
        fields.last().1.field_type,
        budget,
        selection,
    ))))
}

/// The value generated for a type inside `parent`, with `budget` levels of
/// object nesting left: an array holds one generated element, or none
/// where that element is null; an object holds a value for each field that
/// is not excluded; objects past the budget, unknown names and predicates
/// are null.
pub open spec fn value_ok(
    exclude: Seq<Seq<char>>,
    schema: SchemaResponse,
    ty: Type,
    parent: Option<Type>,
    budget: nat,
    v: FixtureValue,
) -> bool
    decreases budget, 1int, type_size(ty),
{
    match ty {
        Type::Nullable { underlying_type } => value_ok(exclude, schema, *underlying_type, Some(ty), budget, v),
        Type::Array { element_type } => v matches FixtureValue::Array(vs) && (if vs.len() == 0 {
            value_ok(exclude, schema, *element_type, Some(ty), budget, FixtureValue::Null)
        } else {
            vs.len() == 1 && !(vs[0] is Null) && value_ok(
                exclude,
                schema,
                *element_type,
                Some(ty),
                budget,
                vs[0],
            )
        }),
        Type::Named { name } => if schema.scalar_types.map().contains_key(name@) {
            scalar_value_ok(name@, schema.scalar_types.map()[name@], parent, v)
        } else if budget == 0 || !schema.object_types.map().contains_key(name@) {
            v is Null
        } else {
            v matches FixtureValue::Object(d) && values_ok(
                exclude,
                schema,
                kept(schema.object_types.map()[name@].fields.items(), exclude),
                Some(ty),
                (budget - 1) as nat,
                d.items(),
            )
        },
        Type::Predicate { .. } => v is Null,
    }
}

/// The values generated for fields inside `parent`, one for each, in their
/// order, under the field's name.
pub open spec fn values_ok(
    exclude: Seq<Seq<char>>,
    schema: SchemaResponse,
    fields: Seq<(Seq<char>, ObjectField)>,
    parent: Option<Type>,
    budget: nat,
    out: Seq<(Seq<char>, FixtureValue)>,
) -> bool
    decreases budget, 2int, fields.len(),
{
    out.len() == fields.len() && (fields.len() == 0 || (values_ok(
        exclude,
        schema,
        fields.drop_last(),
        parent,
        budget,
        out.drop_last(),
    ) && out.last().0 == fields.last().0 && value_ok(
        exclude,
        schema,
        fields.last().1.field_type,
        parent,
        budget,
        out.last().1,
    )))
}

/// The values generated for arguments, one for each, in their order.
pub open spec fn arguments_ok(
    exclude: Seq<Seq<char>>,
    schema: SchemaResponse,
    arguments: Seq<(Seq<char>, ArgumentInfo)>,
    budget: nat,
    out: Seq<(Seq<char>, FixtureValue)>,
) -> bool
    decreases arguments.len(),
{
    out.len() == arguments.len() && (arguments.len() == 0 || (arguments_ok(
        exclude,
        schema,
        arguments.drop_last(),
        budget,
        out.drop_last(),
    ) && out.last().0 == arguments.last().0 && value_ok(
        exclude,
        schema,
        arguments.last().1.argument_type,
        None,
        budget,
        out.last().1,
    )))
}

/// The parent type that a reference names.
pub open spec fn parent_view(parent: Option<&Type>) -> Option<Type> {
    match parent {
        None => None,
        Some(t) => Some(*t),
    }
}

/// Leaving out the last item of a list leaves out its last kept item, if it
/// was kept.
proof fn lemma_kept_step<V>(items: Seq<(Seq<char>, V)>, i: int, exclude: Seq<Seq<char>>)
    requires
        0 <= i < items.len(),
    ensures
        kept(items.take(i + 1), exclude) == if exclude.contains(items[i].0) {
            kept(items.take(i), exclude)
        } else {
            kept(items.take(i), exclude).push(items[i])
        },
{
    assert(items.take(i + 1).drop_last() =~= items.take(i));
    assert(items.take(i + 1).last() == items[i]);
}

/// The selection and value generated for a type inside `parent`, with
/// object nesting cut off at `field_depth`, leaving out excluded fields.
fn make_nested_field_recursive(
    exclude_fields: &Vec<String>,
    field_depth: u32,
    schema: &SchemaResponse,
    schema_type: &Type,
    parent_type: Option<&Type>,
    current_depth: u32,
) -> (r: (Option<NestedField>, FixtureValue))
    requires
        current_depth <= field_depth,
    ensures
        field_ok(texts(exclude_fields@), *schema, *schema_type, (field_depth - current_depth) as nat, r.0),
        value_ok(
            texts(exclude_fields@),
            *schema,
            *schema_type,
            parent_view(parent_type),
            (field_depth - current_depth) as nat,
            r.1,
        ),
    decreases field_depth - current_depth, 1int, type_size(*schema_type),
{
    let ghost exclude = texts(exclude_fields@);
    let ghost budget = (field_depth - current_depth) as nat;
    match schema_type {
        Type::Nullable { underlying_type } => {
            make_nested_field_recursive(
                exclude_fields,
                field_depth,
                schema,
                underlying_type,
                Some(schema_type),
                current_depth,
            )
        },
        Type::Array { element_type } => {
            let (maybe_field, nested_value) = make_nested_field_recursive(
                exclude_fields,
                field_depth,
                schema,
                element_type,
                Some(schema_type),
                current_depth,
            );
            let array_value = match nested_value {
                FixtureValue::Null => FixtureValue::Array(Vec::new()),
                v => FixtureValue::Array(vec![v]),
            };
            let field = match maybe_field {
                None => None,
                Some(field) => {
                    proof {
                        assert(!(field is Collection)) by {
                            lemma_no_collection(exclude, *schema, **element_type, budget, Some(field));
                        }
                    }
                    Some(NestedField::Array(NestedArray { fields: Box::new(field) }))
                },
            };
            (field, array_value)
        },
        Type::Named { name } => {
            if let Some(scalar) = schema.scalar_types.get(name) {
                let value = make_scalar_value(name, scalar, parent_type);
                return (None, value);
            }
            if current_depth == field_depth {
                return (None, FixtureValue::Null);
            }
            match schema.object_types.get(name) {
                None => (None, FixtureValue::Null),
                Some(object) => {
                    let (fields, values) = make_object_fields(
                        exclude_fields,
                        field_depth,
                        schema,
                        &object.fields,
                        Some(schema_type),
                        current_depth + 1,
                    );
                    (
                        Some(NestedField::Object(NestedObject { fields: Dict::from_entries(fields) })),
                        FixtureValue::Object(Dict::from_entries(values)),
                    )
                },
            }
        },
        Type::Predicate { .. } => (None, FixtureValue::Null),
    }
}

/// A generated selection is never a nested collection.
proof fn lemma_no_collection(exclude: Seq<Seq<char>>, schema: SchemaResponse, ty: Type, budget: nat, f: Option<NestedField>)
    requires
        field_ok(exclude, schema, ty, budget, f),
    ensures
        !(f matches Some(NestedField::Collection(_))),
    decreases ty,
{
    match ty {
        Type::Nullable { underlying_type } => lemma_no_collection(exclude, schema, *underlying_type, budget, f),
        _ => {},
    }
}

/// The columns and values generated for fields inside `parent`, one of
/// each for every field that is not excluded.
fn make_object_fields(
    exclude_fields: &Vec<String>,
    field_depth: u32,
    schema: &SchemaResponse,
    object_fields: &Dict<ObjectField>,
    parent: Option<&Type>,
    depth: u32,
) -> (r: (Vec<(String, Field)>, Vec<(String, FixtureValue)>))
    requires
        depth <= field_depth,
    ensures
        fields_ok(
            texts(exclude_fields@),
            *schema,
            kept(object_fields.items(), texts(exclude_fields@)),
            (field_depth - depth) as nat,
            crate::json::string_entries(r.0@),
        ),
        values_ok(
            texts(exclude_fields@),
            *schema,
            kept(object_fields.items(), texts(exclude_fields@)),
            parent_view(parent),
            (field_depth - depth) as nat,
            crate::json::string_entries(r.1@),
        ),
    decreases field_depth - depth + 1, 0int, 0int,
{
    let ghost exclude = texts(exclude_fields@);
    let ghost budget = (field_depth - depth) as nat;
    let ghost items = object_fields.items();
    let mut fields: Vec<(String, Field)> = Vec::new();
    let mut values: Vec<(String, FixtureValue)> = Vec::new();
    let n = object_fields.len();
    let mut i: usize = 0;
    while i < n
        invariant
            n == items.len(),
            items == object_fields.items(),
            exclude == texts(exclude_fields@),
            budget == (field_depth - depth) as nat,
            depth <= field_depth,
            i <= n,
            fields_ok(exclude, *schema, kept(items.take(i as int), exclude), budget, crate::json::string_entries(fields@)),
            values_ok(exclude, *schema, kept(items.take(i as int), exclude), parent_view(parent), budget, crate::json::string_entries(values@)),
        decreases n - i,
    {
        let (key, object_field) = object_fields.get_index(i);
        proof {
            lemma_kept_step(items, i as int, exclude);
            assert(texts(exclude_fields@).contains(key@) == exclude.contains(key@));
        }
        if !contains_string(exclude_fields, key) {
            let (property, property_value) = make_nested_field_recursive(
                exclude_fields,
                field_depth,
                schema,
                &object_field.field_type,
                parent,
                depth,
            );
            let ghost before_fields = fields@;
            let ghost before_values = values@;
            fields.push((key.clone(), Field::Column { column: key.clone(), fields: property, arguments: Dict::new() }));
            values.push((key.clone(), property_value));
            proof {
                let kn = kept(items.take(i + 1), exclude);
                let ko = kept(items.take(i as int), exclude);
                assert(kn == ko.push(items[i as int]));
                assert(kn.drop_last() =~= ko);
                assert(crate::json::string_entries(fields@).drop_last() =~= crate::json::string_entries(before_fields));
                assert(crate::json::string_entries(values@).drop_last() =~= crate::json::string_entries(before_values));
                assert(crate::json::string_entries(fields@).last().0 == kn.last().0);
                assert(crate::json::string_entries(values@).last().0 == kn.last().0);
                assert(fields_ok(exclude, *schema, kn, budget, crate::json::string_entries(fields@)));
                assert(values_ok(exclude, *schema, kn, parent_view(parent), budget, crate::json::string_entries(values@)));
            }
        }
        i = i + 1;
    }
    proof {
        assert(items.take(n as int) =~= items);
    }
    (fields, values)
}

/// The value generated for a scalar type: see `scalar_value_ok`.
fn make_scalar_value(name: &String, scalar: &ScalarType, parent_type: Option<&Type>) -> (v: FixtureValue)
    ensures
        scalar_value_ok(name@, *scalar, parent_view(parent_type), v),
{
    match &scalar.representation {
        TypeRepresentation::JSON => match parent_type {
            Some(Type::Named { .. }) | None => FixtureValue::Object(Dict::new()),
            Some(_) => FixtureValue::Null,
        },
        TypeRepresentation::Enum { one_of } => if one_of.len() == 0 {
            FixtureValue::Null
        } else {
            FixtureValue::Random { scalar_type: name.clone() }
        },
        _ => FixtureValue::Random { scalar_type: name.clone() },
    }
}

/// Whether random values of a representation are drawn by this library:
/// integers, booleans, strings, big integers, enumerations and arbitrary
/// JSON.  Floats, decimals, identifiers, dates, times, bytes and
/// geometries are left to the caller.
pub open spec fn drawable(rep: TypeRepresentation) -> bool {
    match rep {
        TypeRepresentation::Int8 => true,
        TypeRepresentation::Int16 => true,
        TypeRepresentation::Int32 => true,
        TypeRepresentation::Int64 => true,
        TypeRepresentation::Boolean => true,
        TypeRepresentation::String => true,
        TypeRepresentation::BigInteger => true,
        TypeRepresentation::Enum { .. } => true,
        TypeRepresentation::JSON => true,
        _ => false,
    }
}

/// Whether a value is one that a draw for a scalar type inside `parent`
/// gives: an integer below 2^32; a boolean; 16 ASCII letters or digits; a
/// number below 2^32 in decimal digits; one of the members of an
/// enumeration (null when it has none); for arbitrary JSON, an empty
/// object, or null inside a type other than a name.
pub open spec fn drawn_ok(scalar: ScalarType, parent: Option<Type>, j: crate::json::Json) -> bool {
    match scalar.representation {
        TypeRepresentation::Int8 => j matches crate::json::Json::Int(n) && 0 <= n < 0x1_0000_0000,
        TypeRepresentation::Int16 => j matches crate::json::Json::Int(n) && 0 <= n < 0x1_0000_0000,
        TypeRepresentation::Int32 => j matches crate::json::Json::Int(n) && 0 <= n < 0x1_0000_0000,
        TypeRepresentation::Int64 => j matches crate::json::Json::Int(n) && 0 <= n < 0x1_0000_0000,
        TypeRepresentation::Boolean => j is Bool,
        TypeRepresentation::String => j matches crate::json::Json::Str(s) && s.len() == 16 && forall|i: int|
            0 <= i < 16 ==> crate::random::is_alphanumeric(#[trigger] s[i]),
        TypeRepresentation::BigInteger => exists|n: nat| n < 0x1_0000_0000 && j == crate::json::Json::Str(#[trigger] crate::text::decimal(n)),
        TypeRepresentation::Enum { one_of } => if one_of.len() == 0 {
            j is Null
        } else {
            exists|i: int| 0 <= i < one_of.len() && j == crate::json::Json::Str((#[trigger] one_of@[i])@)
        },
        TypeRepresentation::JSON => if parent matches Some(t) && !(t is Named) {
            j is Null
        } else {
            j == crate::json::Json::Object(Map::empty())
        },
        _ => false,
    }
}

/// A random value of a scalar type inside `parent_type`, drawn as the test
/// suite draws it, for the representations this library draws (`None`
/// for the others).
pub fn make_scalar_json(scalar: &ScalarType, parent_type: Option<&Type>, rng: &mut rand::rngs::SmallRng) -> (r: Option<
    crate::json::JsonValue,
>)
    ensures
        r is Some <==> drawable(scalar.representation),
        r matches Some(j) ==> drawn_ok(*scalar, parent_view(parent_type), j@),
{
    match &scalar.representation {
        TypeRepresentation::Int8 | TypeRepresentation::Int16 | TypeRepresentation::Int32 | TypeRepresentation::Int64 => {
            let n = crate::random::draw_u32(rng);
            Some(crate::json::JsonValue::Number(crate::json::JsonNumber::PosInt(n as u64)))
        },
        TypeRepresentation::Boolean => Some(crate::json::JsonValue::Bool(crate::random::coin_flip(rng))),
        TypeRepresentation::String => {
            let s = crate::random::alphanumeric_string(rng, 16);
            let v = crate::json::JsonValue::String(s);
            proof {
                assert(v@ == crate::json::Json::Str(s@));
            }
            Some(v)
        },
        TypeRepresentation::BigInteger => {
            let n = crate::random::draw_u32(rng);
            let s = crate::text::usize_to_string(n as usize);
            let v = crate::json::JsonValue::String(s);
            proof {
                assert(v@ == crate::json::Json::Str(crate::text::decimal(n as nat)));
            }
            Some(v)
        },
        TypeRepresentation::Enum { one_of } => match crate::random::choose_position(rng, one_of.len()) {
            None => Some(crate::json::JsonValue::Null),
            Some(i) => {
                let v = crate::json::JsonValue::String(one_of[i].clone());
                proof {
                    assert(v@ == crate::json::Json::Str(one_of@[i as int]@));
                }
                Some(v)
            },
        },
        TypeRepresentation::JSON => match parent_type {
            Some(Type::Named { .. }) | None => {
                let es: Vec<(String, crate::json::JsonValue)> = Vec::new();
                proof {
                    crate::json::lemma_object_view(es);
                    assert(crate::json::object_entries(es@) =~= Seq::empty());
                    assert(crate::json::entries_map(crate::json::object_entries(es@)) =~= Map::empty());
                }
                Some(crate::json::JsonValue::Object(es))
            },
            Some(_) => Some(crate::json::JsonValue::Null),
        },
        _ => None,
    }
}

/// Whether every hole of a generated value is of a scalar type of the
/// schema whose random values this library draws.
pub open spec fn fillable(schema: SchemaResponse, v: FixtureValue) -> bool
    decreases v,
{
    match v {
        FixtureValue::Null => true,
        FixtureValue::Random { scalar_type } => schema.scalar_types.map().contains_key(scalar_type@) && drawable(
            schema.scalar_types.map()[scalar_type@].representation,
        ),
        FixtureValue::Array(vs) => forall|i: int| 0 <= i < vs.len() ==> fillable(schema, #[trigger] vs@[i]),
        FixtureValue::Object(d) => forall|i: int| 0 <= i < d.items().len() ==> fillable(schema, (#[trigger] d.items()[i]).1),
    }
}

/// Whether a JSON value is a generated value with each hole filled by a
/// draw for its scalar type: null for null, an array of the elements in
/// order, an object with the same keys in the same order.
pub open spec fn filled_ok(schema: SchemaResponse, v: FixtureValue, j: crate::json::JsonValue) -> bool
    decreases v,
{
    match v {
        FixtureValue::Null => j is Null,
        FixtureValue::Random { scalar_type } => schema.scalar_types.map().contains_key(scalar_type@) && drawn_ok(
            schema.scalar_types.map()[scalar_type@],
            None,
            j@,
        ),
        FixtureValue::Array(vs) => j matches crate::json::JsonValue::Array(js) && js.len() == vs.len() && forall|i: int|
            0 <= i < vs.len() ==> filled_ok(schema, #[trigger] vs@[i], js@[i]),
        FixtureValue::Object(d) => j matches crate::json::JsonValue::Object(es) && es.len() == d.items().len()
            && forall|i: int|
            0 <= i < es.len() ==> (#[trigger] d.items()[i]).0 == es@[i].0@ && filled_ok(schema, d.items()[i].1, es@[i].1),
    }
}

/// Fills the holes of a generated value with random values of their scalar
/// types; `None` when a hole is of a type whose values this library does
/// not draw.
pub fn fill_fixture(schema: &SchemaResponse, v: &FixtureValue, rng: &mut rand::rngs::SmallRng) -> (r: Option<
    crate::json::JsonValue,
>)
    ensures
        r is Some <==> fillable(*schema, *v),
        r matches Some(j) ==> filled_ok(*schema, *v, j),
    decreases v,
{
    match v {
        FixtureValue::Null => Some(crate::json::JsonValue::Null),
        FixtureValue::Random { scalar_type } => match schema.scalar_types.get(scalar_type) {
            None => None,
            Some(scalar) => make_scalar_json(scalar, None, rng),
        },
        FixtureValue::Array(vs) => {
            let mut out: Vec<crate::json::JsonValue> = Vec::new();
            let mut i: usize = 0;
            while i < vs.len()
                invariant
                    *v == FixtureValue::Array(*vs),
                    i <= vs.len(),
                    out.len() == i,
                    forall|k: int| 0 <= k < i ==> fillable(*schema, #[trigger] vs@[k]),
                    forall|k: int| 0 <= k < i ==> filled_ok(*schema, #[trigger] vs@[k], out@[k]),
                decreases vs.len() - i,
            {
                proof {
                    assert(decreases_to!(*v => v->Array_0));
                    assert(decreases_to!(v->Array_0 => v->Array_0[i as int]));
                    assert(decreases_to!(*v => vs[i as int]));
                }
                match fill_fixture(schema, &vs[i], rng) {
                    None => {
                        proof {
                            assert(!fillable(*schema, vs@[i as int]));
                        }
                        return None;
                    },
                    Some(j) => {
                        out.push(j);
                    },
                }
                i += 1;
            }
            Some(crate::json::JsonValue::Array(out))
        },
        FixtureValue::Object(d) => {
            let mut out: Vec<(String, crate::json::JsonValue)> = Vec::new();
            let mut i: usize = 0;
            while i < d.len()
                invariant
                    *v == FixtureValue::Object(*d),
                    i <= d.items().len(),
                    out.len() == i,
                    forall|k: int| 0 <= k < i ==> fillable(*schema, (#[trigger] d.items()[k]).1),
                    forall|k: int| 0 <= k < i ==> (#[trigger] d.items()[k]).0 == out@[k].0@ && filled_ok(*schema, d.items()[k].1, out@[k].1),
                decreases d.items().len() - i,
            {
                let (key, item) = d.get_index(i);
                proof {
                    assert(decreases_to!(*v => v->Object_0));
                    d.lemma_value_decreases(i as int);
                    assert(decreases_to!(*v => d.items()[i as int].1));
                }
                match fill_fixture(schema, item, rng) {
                    None => {
                        proof {
                            assert(!fillable(*schema, d.items()[i as int].1));
                        }
                        return None;
                    },
                    Some(j) => {
                        out.push((key.clone(), j));
                    },
                }
                i += 1;
            }
            Some(crate::json::JsonValue::Object(out))
        },
    }
}

/// The selection and value generated for a type inside `parent_type`, with
/// the configured field depth and excluded fields.
pub fn make_nested_field(
    gen_config: &FixtureGenerationConfiguration,
    schema_response: &SchemaResponse,
    schema_type: &Type,
    parent_type: Option<&Type>,
) -> (r: (Option<NestedField>, FixtureValue))
    ensures
        field_ok(texts(gen_config.exclude_fields@), *schema_response, *schema_type, gen_config.field_depth as nat, r.0),
        value_ok(
            texts(gen_config.exclude_fields@),
            *schema_response,
            *schema_type,
            parent_view(parent_type),
            gen_config.field_depth as nat,
            r.1,
        ),
{
    make_nested_field_recursive(
        &gen_config.exclude_fields,
        gen_config.field_depth,
        schema_response,
        schema_type,
        parent_type,
        0,
    )
}

/// The columns and values generated for the fields of a collection's type,
/// one of each for every field that is not excluded: the columns select
/// what each field's type calls for, up to the configured depth.
pub fn make_collection_fields(
    gen_config: &FixtureGenerationConfiguration,
    schema_response: &SchemaResponse,
    collection_type: &ObjectType,
) -> (r: (Dict<Field>, Dict<FixtureValue>))
    ensures
        fields_ok(
            texts(gen_config.exclude_fields@),
            *schema_response,
            kept(collection_type.fields.items(), texts(gen_config.exclude_fields@)),
            gen_config.field_depth as nat,
            r.0.items(),
        ),
        values_ok(
            texts(gen_config.exclude_fields@),
            *schema_response,
            kept(collection_type.fields.items(), texts(gen_config.exclude_fields@)),
            None,
            gen_config.field_depth as nat,
            r.1.items(),
        ),
{
    let (fields, values) = make_object_fields(
        &gen_config.exclude_fields,
        gen_config.field_depth,
        schema_response,
        &collection_type.fields,
        None,
        0,
    );
    (Dict::from_entries(fields), Dict::from_entries(values))
}

/// The values generated for the arguments that are not excluded, nesting
/// objects up to the argument depth.
fn make_argument_values(
    gen_config: &FixtureGenerationConfiguration,
    schema_response: &SchemaResponse,
    argument_infos: &Dict<ArgumentInfo>,
) -> (r: Dict<FixtureValue>)
    ensures
        arguments_ok(
            texts(gen_config.exclude_arguments@),
            *schema_response,
            kept(argument_infos.items(), texts(gen_config.exclude_arguments@)),
            gen_config.argument_depth as nat,
            r.items(),
        ),
{
    let ghost exclude = texts(gen_config.exclude_arguments@);
    let ghost items = argument_infos.items();
    let ghost budget = gen_config.argument_depth as nat;
    let mut values: Vec<(String, FixtureValue)> = Vec::new();
    let n = argument_infos.len();
    let mut i: usize = 0;
    while i < n
        invariant
            n == items.len(),
            items == argument_infos.items(),
            exclude == texts(gen_config.exclude_arguments@),
            budget == gen_config.argument_depth as nat,
            i <= n,
            arguments_ok(exclude, *schema_response, kept(items.take(i as int), exclude), budget, crate::json::string_entries(values@)),
        decreases n - i,
    {
        let (key, info) = argument_infos.get_index(i);
        proof {
            lemma_kept_step(items, i as int, exclude);
        }
        if !contains_string(&gen_config.exclude_arguments, key) {
            let (_, value) = make_nested_field_recursive(
                &gen_config.exclude_arguments,
                gen_config.argument_depth,
                schema_response,
                &info.argument_type,
                None,
                0,
            );
            let ghost before = values@;
            values.push((key.clone(), value));
            proof {
                let kn = kept(items.take(i + 1), exclude);
                let ko = kept(items.take(i as int), exclude);
                assert(kn.drop_last() =~= ko);
                assert(crate::json::string_entries(values@).drop_last() =~= crate::json::string_entries(before));
                assert(arguments_ok(exclude, *schema_response, kn, budget, crate::json::string_entries(values@)));
            }
        }
        i = i + 1;
    }
    proof {
        assert(items.take(n as int) =~= items);
    }
    Dict::from_entries(values)
}

/// The literal values generated for the arguments of a collection: one for
/// each argument that is not excluded, in their order.
pub fn make_query_arguments(
    gen_config: &FixtureGenerationConfiguration,
    schema_response: &SchemaResponse,
    argument_infos: &Dict<ArgumentInfo>,
) -> (r: Dict<FixtureValue>)
    ensures
        arguments_ok(
            texts(gen_config.exclude_arguments@),
            *schema_response,
            kept(argument_infos.items(), texts(gen_config.exclude_arguments@)),
            gen_config.argument_depth as nat,
            r.items(),
        ),
{
    make_argument_values(gen_config, schema_response, argument_infos)
}

/// The values generated for the arguments of a procedure: one for each
/// argument that is not excluded, in their order.
pub fn make_mutation_arguments(
    gen_config: &FixtureGenerationConfiguration,
    schema_response: &SchemaResponse,
    argument_infos: &Dict<ArgumentInfo>,
) -> (r: Dict<FixtureValue>)
    ensures
        arguments_ok(
            texts(gen_config.exclude_arguments@),
            *schema_response,
            kept(argument_infos.items(), texts(gen_config.exclude_arguments@)),
            gen_config.argument_depth as nat,
            r.items(),
        ),
{
    make_argument_values(gen_config, schema_response, argument_infos)
}

} // verus!
