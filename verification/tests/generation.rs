use rand::SeedableRng;
use ndc_spec::context::make_context;
use ndc_spec::dict::Dict;
use ndc_spec::error::Error;
use ndc_spec::fixture::{
    fill_fixture, make_collection_fields, make_mutation_arguments, make_nested_field, make_query_arguments,
    make_scalar_json, FixtureGenerationConfiguration, FixtureValue,
};
use ndc_spec::json::{JsonNumber, JsonValue};
use ndc_spec::query::{Field, NestedField, RowFieldValue};
use ndc_spec::schema::{
    ArgumentInfo, ObjectField, ObjectType, ScalarType, SchemaResponse, Type, TypeRepresentation,
};

fn named(name: &str) -> Type {
    Type::Named { name: name.to_string() }
}

fn nullable(t: Type) -> Type {
    Type::Nullable { underlying_type: Box::new(t) }
}

fn array(t: Type) -> Type {
    Type::Array { element_type: Box::new(t) }
}

fn scalar(rep: TypeRepresentation) -> ScalarType {
    ScalarType {
        representation: rep,
        aggregate_functions: Dict::new(),
        comparison_operators: Dict::new(),
        extraction_functions: Dict::new(),
    }
}

fn object_type(fields: Vec<(&str, Type)>) -> ObjectType {
    let mut d = Dict::new();
    for (k, t) in fields {
        d.insert(k.to_string(), ObjectField { description: None, field_type: t, arguments: Dict::new() });
    }
    ObjectType { description: None, fields: d, foreign_keys: Dict::new() }
}

/// Scalars Int, Any (arbitrary JSON) and Nothing (an empty enumeration);
/// an object `point` with coordinates and a `shape` with a name, points
/// and a nested shape.
fn schema() -> SchemaResponse {
    let mut scalar_types = Dict::new();
    scalar_types.insert("Int".to_string(), scalar(TypeRepresentation::Int32));
    scalar_types.insert("Any".to_string(), scalar(TypeRepresentation::JSON));
    scalar_types.insert("Nothing".to_string(), scalar(TypeRepresentation::Enum { one_of: vec![] }));
    let mut object_types = Dict::new();
    object_types.insert("point".to_string(), object_type(vec![("x", named("Int")), ("y", named("Int"))]));
    object_types.insert(
        "shape".to_string(),
        object_type(vec![
            ("name", named("Int")),
            ("points", array(named("point"))),
            ("inner", nullable(named("shape"))),
            ("extra", named("Any")),
        ]),
    );
    SchemaResponse {
        scalar_types,
        object_types,
        collections: vec![],
        functions: vec![],
        procedures: vec![],
        capabilities: None,
    }
}

fn config(exclude: Vec<&str>, depth: u32) -> FixtureGenerationConfiguration {
    FixtureGenerationConfiguration {
        exclude_fields: exclude.iter().map(|s| s.to_string()).collect(),
        exclude_arguments: vec!["skip".to_string()],
        field_depth: depth,
        argument_depth: 1,
    }
}

fn is_random(v: &FixtureValue, name: &str) -> bool {
    matches!(v, FixtureValue::Random { scalar_type } if scalar_type == name)
}

#[test]
fn scalars_are_random_values_without_selection() {
    let s = schema();
    let (f, v) = make_nested_field(&config(vec![], 2), &s, &named("Int"), None);
    assert!(f.is_none());
    assert!(is_random(&v, "Int"));
}

#[test]
fn arbitrary_json_is_an_empty_object_or_null_inside_a_wrapper() {
    let s = schema();
    let (_, v) = make_nested_field(&config(vec![], 2), &s, &named("Any"), None);
    assert!(matches!(v, FixtureValue::Object(ref d) if d.len() == 0));
    let (_, v) = make_nested_field(&config(vec![], 2), &s, &nullable(named("Any")), None);
    assert!(matches!(v, FixtureValue::Null));
    let (_, v) = make_nested_field(&config(vec![], 2), &s, &array(named("Any")), None);
    assert!(matches!(v, FixtureValue::Array(ref items) if items.is_empty()));
}

#[test]
fn empty_enumerations_are_null() {
    let s = schema();
    let (_, v) = make_nested_field(&config(vec![], 2), &s, &array(named("Nothing")), None);
    assert!(matches!(v, FixtureValue::Array(ref items) if items.is_empty()));
}

#[test]
fn arrays_hold_one_generated_element() {
    let s = schema();
    let (f, v) = make_nested_field(&config(vec![], 2), &s, &array(named("point")), None);
    match f {
        Some(NestedField::Array(a)) => match *a.fields {
            NestedField::Object(o) => assert_eq!(o.fields.len(), 2),
            _ => panic!("expected an object selection"),
        },
        _ => panic!("expected an array selection"),
    }
    match v {
        FixtureValue::Array(items) => {
            assert_eq!(items.len(), 1);
            match &items[0] {
                FixtureValue::Object(d) => {
                    assert_eq!(d.len(), 2);
                    assert_eq!(d.get_index(0).0, "x");
                    assert!(is_random(d.get_index(1).1, "Int"));
                }
                _ => panic!("expected an object"),
            }
        }
        _ => panic!("expected an array"),
    }
}

#[test]
fn nesting_stops_at_the_field_depth() {
    let s = schema();
    let (f, v) = make_nested_field(&config(vec![], 1), &s, &named("shape"), None);
    let fields = match f {
        Some(NestedField::Object(o)) => o.fields,
        _ => panic!("expected an object selection"),
    };
    assert_eq!(fields.len(), 4);
    match fields.get_index(2).1 {
        Field::Column { column, fields, arguments } => {
            assert_eq!(column, "inner");
            assert!(fields.is_none());
            assert_eq!(arguments.len(), 0);
        }
        _ => panic!("expected a column"),
    }
    match v {
        FixtureValue::Object(d) => {
            assert!(matches!(d.get_index(1).1, FixtureValue::Array(items) if items.is_empty()));
            assert!(matches!(d.get_index(2).1, FixtureValue::Null));
            assert!(matches!(d.get_index(3).1, FixtureValue::Object(e) if e.len() == 0));
        }
        _ => panic!("expected an object"),
    }
    let (f, _) = make_nested_field(&config(vec![], 0), &s, &named("shape"), None);
    assert!(f.is_none());
}

#[test]
fn excluded_fields_are_left_out() {
    let s = schema();
    let shape = s.object_types.get(&"shape".to_string()).unwrap();
    let (fields, values) = make_collection_fields(&config(vec!["points", "extra"], 1), &s, shape);
    assert_eq!(fields.len(), 2);
    assert_eq!(values.len(), 2);
    assert_eq!(fields.get_index(0).0, "name");
    assert_eq!(fields.get_index(1).0, "inner");
    assert!(is_random(values.get_index(0).1, "Int"));
}

#[test]
fn arguments_get_values_unless_excluded() {
    let s = schema();
    let mut infos = Dict::new();
    infos.insert("id".to_string(), ArgumentInfo { description: None, argument_type: named("Int") });
    infos.insert("skip".to_string(), ArgumentInfo { description: None, argument_type: named("Int") });
    infos.insert("where".to_string(), ArgumentInfo { description: None, argument_type: named("point") });
    let q = make_query_arguments(&config(vec![], 1), &s, &infos);
    assert_eq!(q.len(), 2);
    assert_eq!(q.get_index(0).0, "id");
    assert_eq!(q.get_index(1).0, "where");
    assert!(matches!(q.get_index(1).1, FixtureValue::Object(d) if d.len() == 2));
    let m = make_mutation_arguments(&config(vec![], 1), &s, &infos);
    assert_eq!(m.len(), 2);
}

fn row(entries: Vec<(&str, JsonValue)>) -> Dict<RowFieldValue> {
    let mut d = Dict::new();
    for (k, v) in entries {
        d.insert(k.to_string(), RowFieldValue(v));
    }
    d
}

fn num(i: i64) -> JsonValue {
    JsonValue::Number(JsonNumber::from_i64(i))
}

#[test]
fn context_gathers_non_null_values_by_column() {
    let t = object_type(vec![("b", named("Int")), ("a", named("Int"))]);
    let rows = vec![
        row(vec![("b", num(1)), ("a", JsonValue::Null)]),
        row(vec![("b", num(2)), ("a", num(3))]),
    ];
    let context = make_context(&t, &rows).unwrap().unwrap();
    assert_eq!(context.values.len(), 2);
    assert_eq!(context.values[0].0, "a");
    assert_eq!(context.values[0].1.len(), 1);
    assert_eq!(context.values[1].0, "b");
    assert_eq!(context.values[1].1.len(), 2);
    assert!(matches!(context.values[1].1[1], JsonValue::Number(JsonNumber::PosInt(2))));
}

#[test]
fn context_is_none_without_values() {
    let t = object_type(vec![("a", named("Int"))]);
    assert!(make_context(&t, &vec![]).unwrap().is_none());
    let rows = vec![row(vec![("a", JsonValue::Null)])];
    assert!(make_context(&t, &rows).unwrap().is_none());
}

#[test]
fn context_requires_every_field() {
    let t = object_type(vec![("a", named("Int")), ("b", named("Int"))]);
    let rows = vec![row(vec![("a", num(1)), ("b", num(1))]), row(vec![("a", num(2))])];
    match make_context(&t, &rows) {
        Err(Error::MissingField(f)) => assert_eq!(f, "b"),
        _ => panic!("expected a missing field"),
    }
}

#[test]
fn chosen_field_is_a_column_of_the_context() {
    let t = object_type(vec![("a", named("Int")), ("b", named("Int"))]);
    let rows = vec![row(vec![("a", num(1)), ("b", num(2))])];
    let context = make_context(&t, &rows).unwrap().unwrap();
    let mut rng = rand::rngs::SmallRng::seed_from_u64(7);
    for _ in 0..10 {
        let (name, values) = context.choose_field(&mut rng).unwrap();
        assert!(name == "a" || name == "b");
        assert_eq!(values.len(), 1);
    }
}

#[test]
fn selected_columns_are_distinct_columns_of_the_type() {
    let t = object_type(vec![("a", named("Int")), ("b", named("Int")), ("c", named("Int"))]);
    let mut rng = rand::rngs::SmallRng::seed_from_u64(11);
    for _ in 0..20 {
        let selected = ndc_spec::common::select_columns(&t, &mut rng);
        assert!(selected.len() <= 3);
        let mut names: Vec<String> = (0..selected.len()).map(|i| selected.get_index(i).0.clone()).collect();
        names.sort();
        names.dedup();
        assert_eq!(names.len(), selected.len());
        for n in &names {
            assert!(n == "a" || n == "b" || n == "c");
        }
    }
}

#[test]
fn scalar_draws_follow_the_representation() {
    let mut rng = rand::rngs::SmallRng::seed_from_u64(11);
    for _ in 0..20 {
        match make_scalar_json(&scalar(TypeRepresentation::Int32), None, &mut rng) {
            Some(JsonValue::Number(JsonNumber::PosInt(n))) => assert!(n < (1u64 << 32)),
            other => panic!("expected an integer, got {:?}", other),
        }
        match make_scalar_json(&scalar(TypeRepresentation::String), None, &mut rng) {
            Some(JsonValue::String(s)) => {
                assert_eq!(s.len(), 16);
                assert!(s.chars().all(|c| c.is_ascii_alphanumeric()));
            }
            other => panic!("expected a string, got {:?}", other),
        }
        match make_scalar_json(&scalar(TypeRepresentation::BigInteger), None, &mut rng) {
            Some(JsonValue::String(s)) => assert!(s.parse::<u32>().is_ok()),
            other => panic!("expected digits, got {:?}", other),
        }
        assert!(matches!(make_scalar_json(&scalar(TypeRepresentation::Boolean), None, &mut rng), Some(JsonValue::Bool(_))));
        let colours = scalar(TypeRepresentation::Enum { one_of: vec!["red".to_string(), "blue".to_string()] });
        match make_scalar_json(&colours, None, &mut rng) {
            Some(JsonValue::String(s)) => assert!(s == "red" || s == "blue"),
            other => panic!("expected a member, got {:?}", other),
        }
    }
    let empty = scalar(TypeRepresentation::Enum { one_of: vec![] });
    assert!(matches!(make_scalar_json(&empty, None, &mut rng), Some(JsonValue::Null)));
    assert!(matches!(make_scalar_json(&scalar(TypeRepresentation::JSON), None, &mut rng), Some(JsonValue::Object(ref es)) if es.is_empty()));
    let wrapper = nullable(named("Any"));
    assert!(matches!(make_scalar_json(&scalar(TypeRepresentation::JSON), Some(&wrapper), &mut rng), Some(JsonValue::Null)));
    assert!(make_scalar_json(&scalar(TypeRepresentation::Float64), None, &mut rng).is_none());
    assert!(make_scalar_json(&scalar(TypeRepresentation::UUID), None, &mut rng).is_none());
}

#[test]
fn filling_a_generated_object_draws_each_hole() {
    let s = schema();
    let mut rng = rand::rngs::SmallRng::seed_from_u64(5);
    let (_, v) = make_nested_field(&config(vec![], 1), &s, &named("point"), None);
    let filled = fill_fixture(&s, &v, &mut rng).unwrap();
    match filled {
        JsonValue::Object(es) => {
            assert_eq!(es.len(), 2);
            assert_eq!(es[0].0, "x");
            assert_eq!(es[1].0, "y");
            assert!(matches!(es[0].1, JsonValue::Number(JsonNumber::PosInt(_))));
        }
        other => panic!("expected an object, got {:?}", other),
    }
    let hole = FixtureValue::Random { scalar_type: "Unknown".to_string() };
    assert!(fill_fixture(&s, &hole, &mut rng).is_none());
}
