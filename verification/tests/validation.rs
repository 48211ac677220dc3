use ndc_spec::common::{
    as_array_type, as_named_type, get_named_type, is_nullable_type, select_all_columns,
    select_all_columns_without_arguments,
};
use ndc_spec::dict::Dict;
use ndc_spec::error::Error;
use ndc_spec::json::{JsonNumber, JsonValue};
use ndc_spec::query::{
    Aggregate, Argument, Field, NestedArray, NestedField, NestedObject, Query, QueryRequest,
    QueryResponse, Relationship, RelationshipType, RowFieldValue, RowSet,
};
use ndc_spec::schema::{
    ArgumentInfo, CollectionInfo, ComparisonOperatorDefinition, FunctionInfo, ObjectField,
    ObjectType, ScalarType, SchemaResponse, Type, TypeRepresentation,
};
use ndc_spec::validate::{
    check_value_has_representation, check_value_has_type, check_value_matches_request,
    expect_matching_query_responses, expect_single_empty_rows, expect_single_non_empty_rows,
    expect_single_rowset, find_collection_type_by_name, validate_field, validate_response,
    validate_rows, validate_rowset, validate_rowset_vs_object_type, validate_type,
};

fn string(x: &str) -> JsonValue {
    JsonValue::String(x.to_string())
}

fn num(i: i64) -> JsonValue {
    JsonValue::Number(JsonNumber::from_i64(i))
}

fn object(entries: Vec<(&str, JsonValue)>) -> JsonValue {
    JsonValue::Object(entries.into_iter().map(|(k, v)| (k.to_string(), v)).collect())
}

fn named(name: &str) -> Type {
    Type::Named { name: name.to_string() }
}

fn nullable(t: Type) -> Type {
    Type::Nullable { underlying_type: Box::new(t) }
}

fn array(t: Type) -> Type {
    Type::Array { element_type: Box::new(t) }
}

fn scalar(rep: TypeRepresentation) -> ScalarType {
    ScalarType {
        representation: rep,
        aggregate_functions: Dict::new(),
        comparison_operators: Dict::new(),
        extraction_functions: Dict::new(),
    }
}

fn field(t: Type) -> ObjectField {
    ObjectField { description: None, field_type: t, arguments: Dict::new() }
}

fn object_type(fields: Vec<(&str, Type)>) -> ObjectType {
    let mut d = Dict::new();
    for (k, t) in fields {
        d.insert(k.to_string(), field(t));
    }
    ObjectType { description: None, fields: d, foreign_keys: Dict::new() }
}

fn any_expression(_: &JsonValue) -> bool {
    true
}

/// A schema with scalar types Int and String, an object type `article`
/// with an integer id and a string title, an `author` with a name and an
/// array of articles, a collection `articles` and a function `latest`.
fn schema() -> SchemaResponse {
    let mut scalar_types = Dict::new();
    let mut int_type = scalar(TypeRepresentation::Int32);
    int_type.comparison_operators.insert("eq".to_string(), ComparisonOperatorDefinition::Equal);
    scalar_types.insert("Int".to_string(), int_type);
    scalar_types.insert("String".to_string(), scalar(TypeRepresentation::String));
    let mut object_types = Dict::new();
    object_types.insert(
        "article".to_string(),
        object_type(vec![("id", named("Int")), ("title", named("String"))]),
    );
    object_types.insert(
        "author".to_string(),
        object_type(vec![("name", named("String")), ("articles", array(named("article")))]),
    );
    SchemaResponse {
        scalar_types,
        object_types,
        collections: vec![CollectionInfo {
            name: "articles".to_string(),
            description: None,
            arguments: Dict::new(),
            collection_type: "article".to_string(),
            uniqueness_constraints: Dict::new(),
        }],
        functions: vec![FunctionInfo {
            name: "latest".to_string(),
            description: None,
            arguments: Dict::new(),
            result_type: nullable(named("Int")),
        }],
        procedures: vec![],
        capabilities: None,
    }
}

fn column(name: &str) -> Field {
    Field::Column { column: name.to_string(), fields: None, arguments: Dict::new() }
}

fn fields(names: Vec<&str>) -> Dict<Field> {
    let mut d = Dict::new();
    for n in names {
        d.insert(n.to_string(), column(n));
    }
    d
}

fn query(fields: Option<Dict<Field>>, limit: Option<u32>) -> Query {
    Query {
        aggregates: None,
        fields,
        limit,
        offset: None,
        order_by: None,
        predicate: None,
        groups: None,
    }
}

fn row(entries: Vec<(&str, JsonValue)>) -> Dict<RowFieldValue> {
    let mut d = Dict::new();
    for (k, v) in entries {
        d.insert(k.to_string(), RowFieldValue(v));
    }
    d
}

fn rowset(rows: Vec<Dict<RowFieldValue>>) -> RowSet {
    RowSet { aggregates: None, rows: Some(rows), groups: None }
}

fn request(q: Query) -> QueryRequest {
    QueryRequest {
        collection: "articles".to_string(),
        query: q,
        arguments: Dict::new(),
        collection_relationships: Dict::new(),
        variables: None,
    }
}

#[test]
fn type_helpers_look_through_nullability() {
    let t = nullable(named("Int"));
    assert!(is_nullable_type(&t));
    assert!(!is_nullable_type(&named("Int")));
    assert_eq!(as_named_type(&t).map(|s| s.as_str()), Some("Int"));
    assert_eq!(get_named_type(&nullable(nullable(named("X")))).map(|s| s.as_str()), Some("X"));
    assert_eq!(as_named_type(&array(named("Int"))), None);
    assert_eq!(as_array_type(&nullable(array(named("Int")))), Some(&named("Int")));
    assert_eq!(as_array_type(&named("Int")), None);
}

#[test]
fn columns_without_arguments_are_selected_in_order() {
    let mut ot = object_type(vec![("a", named("Int")), ("b", named("Int"))]);
    let mut c = field(named("Int"));
    c.arguments.insert(
        "limit".to_string(),
        ArgumentInfo { description: None, argument_type: nullable(named("Int")) },
    );
    ot.fields.insert("c".to_string(), c);
    let mut d = field(named("Int"));
    d.arguments.insert(
        "x".to_string(),
        ArgumentInfo { description: None, argument_type: named("Int") },
    );
    ot.fields.insert("d".to_string(), d);
    let names: Vec<&str> =
        select_all_columns_without_arguments(&ot).iter().map(|(k, _)| k.as_str()).collect();
    assert_eq!(names, vec!["a", "b"]);
    let all = select_all_columns(&ot);
    assert_eq!(all.len(), 3);
    let (k, f) = all.get_index(2);
    assert_eq!(k, "c");
    match f {
        Field::Column { column, fields, arguments } => {
            assert_eq!(column, "c");
            assert!(fields.is_none());
            assert_eq!(arguments.len(), 1);
            assert!(matches!(arguments.get(&"limit".to_string()), Some(Argument::Literal { value: JsonValue::Null })));
        }
        _ => panic!("expected a column"),
    }
}

#[test]
fn validate_type_finds_undefined_names() {
    let s = schema();
    assert!(validate_type(&s, &array(nullable(named("Int")))).is_ok());
    assert!(matches!(validate_type(&s, &named("Nope")), Err(Error::NamedTypeIsNotDefined(n)) if n == "Nope"));
    assert!(matches!(
        validate_type(&s, &Type::Predicate { object_type_name: "Int".to_string() }),
        Err(Error::ObjectTypeIsNotDefined(n)) if n == "Int"
    ));
    assert!(validate_type(&s, &Type::Predicate { object_type_name: "article".to_string() }).is_ok());
}

#[test]
fn representations_are_checked() {
    let p = vec!["$".to_string()];
    assert!(check_value_has_representation(&TypeRepresentation::Int32, &num(3), &p).is_ok());
    assert!(matches!(
        check_value_has_representation(&TypeRepresentation::Int32, &string("3"), &p),
        Err(Error::InvalidValueInResponse(_, e)) if e == "integer"
    ));
    assert!(matches!(
        check_value_has_representation(&TypeRepresentation::Int64, &num(3), &p),
        Err(Error::InvalidValueInResponse(_, e)) if e == "string"
    ));
    assert!(matches!(
        check_value_has_representation(&TypeRepresentation::Boolean, &JsonValue::Null, &p),
        Err(Error::InvalidValueInResponse(_, e)) if e == "boolean"
    ));
    let one_of = TypeRepresentation::Enum { one_of: vec!["a".to_string(), "b".to_string()] };
    assert!(check_value_has_representation(&one_of, &string("b"), &p).is_ok());
    assert!(check_value_has_representation(&one_of, &string("c"), &p).is_err());
    assert!(check_value_has_representation(&TypeRepresentation::JSON, &JsonValue::Null, &p).is_ok());
    assert!(check_value_has_representation(&TypeRepresentation::Float64, &JsonValue::Number(JsonNumber::Float(0)), &p).is_ok());
}

#[test]
fn values_are_checked_against_object_types() {
    let s = schema();
    let rels = Dict::new();
    let p = vec!["$".to_string()];
    let article = object(vec![("id", num(1)), ("title", string("t"))]);
    assert!(check_value_has_type(&s, &rels, &article, &named("article"), &p, &any_expression).is_ok());
    let missing = object(vec![("id", num(1))]);
    assert!(matches!(
        check_value_has_type(&s, &rels, &missing, &named("article"), &p, &any_expression),
        Err(Error::MissingField(f)) if f == "title"
    ));
    let author = object(vec![
        ("name", string("n")),
        ("articles", JsonValue::Array(vec![article, object(vec![("id", string("x")), ("title", string("t"))])])),
    ]);
    match check_value_has_type(&s, &rels, &author, &named("author"), &p, &any_expression) {
        Err(Error::InvalidValueInResponse(path, expected)) => {
            assert_eq!(path, vec!["$", "articles", "1", "id"]);
            assert_eq!(expected, "integer");
        }
        other => panic!("unexpected {other:?}"),
    }
    assert!(check_value_has_type(&s, &rels, &JsonValue::Null, &nullable(named("author")), &p, &any_expression).is_ok());
    assert!(check_value_has_type(&s, &rels, &JsonValue::Null, &named("author"), &p, &any_expression).is_err());
    let reject = |_: &JsonValue| false;
    let predicate = Type::Predicate { object_type_name: "article".to_string() };
    assert!(matches!(
        check_value_has_type(&s, &rels, &JsonValue::Null, &predicate, &p, &reject),
        Err(Error::InvalidValueInResponse(_, e)) if e == "expression"
    ));
    assert!(check_value_has_type(&s, &rels, &JsonValue::Null, &predicate, &p, &any_expression).is_ok());
}

#[test]
fn nested_selections_are_checked() {
    let s = schema();
    let rels = Dict::new();
    let p = vec!["$".to_string()];
    let selection = NestedField::Array(NestedArray {
        fields: Box::new(NestedField::Object(NestedObject { fields: fields(vec!["title"]) })),
    });
    let value = JsonValue::Array(vec![object(vec![("title", string("a"))]), object(vec![("title", num(2))])]);
    match check_value_matches_request(&s, &rels, &value, &array(named("article")), Some(&selection), &p, &any_expression) {
        Err(Error::InvalidValueInResponse(path, expected)) => {
            assert_eq!(path, vec!["$", "1", "title"]);
            assert_eq!(expected, "string");
        }
        other => panic!("unexpected {other:?}"),
    }
    assert!(matches!(
        check_value_matches_request(&s, &rels, &value, &named("article"), Some(&selection), &p, &any_expression),
        Err(Error::ExpectedArrayType(_))
    ));
}

#[test]
fn responses_must_have_one_rowset_per_variable_set() {
    let s = schema();
    let req = request(query(Some(fields(vec!["id"])), None));
    let response = QueryResponse(vec![]);
    assert!(matches!(validate_response(&s, &req, &response, &any_expression), Err(Error::UnexpectedRowsets(1, 0))));
    let ok = QueryResponse(vec![rowset(vec![row(vec![("id", num(1))])])]);
    assert!(validate_response(&s, &req, &ok, &any_expression).is_ok());
}

#[test]
fn rows_are_checked_against_the_requested_fields() {
    let s = schema();
    let rels = Dict::new();
    let q = query(Some(fields(vec!["id", "title"])), Some(1));
    let p = vec!["$".to_string()];
    let good = rowset(vec![row(vec![("title", string("a")), ("id", num(1))])]);
    assert!(validate_rowset(&s, &rels, &"articles".to_string(), &q, &good, &p, &any_expression).is_ok());
    let missing = rowset(vec![row(vec![("id", num(1))])]);
    assert!(matches!(
        validate_rowset(&s, &rels, &"articles".to_string(), &q, &missing, &p, &any_expression),
        Err(Error::MissingField(f)) if f == "title"
    ));
    let too_many = rowset(vec![row(vec![("id", num(1)), ("title", string("a"))]), row(vec![("id", num(2)), ("title", string("b"))])]);
    assert!(matches!(
        validate_rowset(&s, &rels, &"articles".to_string(), &q, &too_many, &p, &any_expression),
        Err(Error::TooManyRowsInResponse(1, 2))
    ));
    assert!(matches!(
        validate_rowset(&s, &rels, &"nowhere".to_string(), &q, &good, &p, &any_expression),
        Err(Error::CollectionIsNotDefined(c)) if c == "nowhere"
    ));
    let no_rows = RowSet { aggregates: None, rows: None, groups: None };
    assert!(matches!(
        validate_rowset(&s, &rels, &"articles".to_string(), &q, &no_rows, &p, &any_expression),
        Err(Error::RowsShouldBeNonNullInRowSet)
    ));
    let ot = object_type(vec![("id", named("Int"))]);
    assert!(matches!(
        validate_rowset_vs_object_type(&s, &rels, &ot, &query(None, None), &good, &p, &any_expression),
        Err(Error::RowsShouldBeNullInRowSet)
    ));
    let rows = vec![row(vec![("id", string("x"))])];
    assert!(matches!(
        validate_rows(&s, &rels, &ot, &q, &fields(vec!["id"]), &rows, &p, &any_expression),
        Err(Error::InvalidValueInResponse(path, _)) if path == vec!["$", "0", "id"]
    ));
}

#[test]
fn function_collections_have_a_single_value_field() {
    let s = schema();
    let t = find_collection_type_by_name(&s, &"latest".to_string()).ok().unwrap();
    let ot = t.get();
    assert_eq!(ot.fields.len(), 1);
    let (k, f) = ot.fields.get_index(0);
    assert_eq!(k, "__value");
    assert_eq!(f.field_type, nullable(named("Int")));
}

#[test]
fn aggregates_must_match_the_request() {
    let s = schema();
    let rels = Dict::new();
    let p = vec!["$".to_string()];
    let mut requested = Dict::new();
    requested.insert("count".to_string(), Aggregate::StarCount {});
    let q = Query { aggregates: Some(requested), ..query(None, None) };
    let mut aggs = Dict::new();
    aggs.insert("count".to_string(), num(3));
    let good = RowSet { aggregates: Some(aggs), rows: None, groups: None };
    assert!(validate_rowset(&s, &rels, &"articles".to_string(), &q, &good, &p, &any_expression).is_ok());
    let mut aggs = Dict::new();
    aggs.insert("count".to_string(), string("3"));
    let bad = RowSet { aggregates: Some(aggs), rows: None, groups: None };
    assert!(matches!(
        validate_rowset(&s, &rels, &"articles".to_string(), &q, &bad, &p, &any_expression),
        Err(Error::ResponseDoesNotSatisfy(_))
    ));
    let mut aggs = Dict::new();
    aggs.insert("count".to_string(), num(3));
    aggs.insert("extra".to_string(), num(3));
    let extra = RowSet { aggregates: Some(aggs), rows: None, groups: None };
    assert!(matches!(
        validate_rowset(&s, &rels, &"articles".to_string(), &q, &extra, &p, &any_expression),
        Err(Error::UnexpectedField(f)) if f == "extra"
    ));
}

#[test]
fn relationship_fields_hold_rowsets() {
    let s = schema();
    let mut rels = Dict::new();
    rels.insert(
        "same".to_string(),
        Relationship {
            column_mapping: Dict::new(),
            relationship_type: RelationshipType::Array,
            target_collection: "articles".to_string(),
            arguments: Dict::new(),
        },
    );
    let ot = object_type(vec![("id", named("Int"))]);
    let rel_field = Field::Relationship {
        query: Box::new(query(Some(fields(vec!["id"])), None)),
        relationship: "same".to_string(),
        arguments: Dict::new(),
    };
    let p = vec!["$".to_string()];
    let nested = RowFieldValue(object(vec![("rows", JsonValue::Array(vec![object(vec![("id", num(1))])]))]));
    assert!(validate_field(&s, &rels, &ot, &"r".to_string(), &rel_field, &nested, &p, &any_expression).is_ok());
    let not_rowset = RowFieldValue(num(1));
    assert!(matches!(
        validate_field(&s, &rels, &ot, &"r".to_string(), &rel_field, &not_rowset, &p, &any_expression),
        Err(Error::ExpectedRowSet(f)) if f == "r"
    ));
    let bad_row = RowFieldValue(object(vec![("rows", JsonValue::Array(vec![object(vec![("id", string("x"))])]))]));
    assert!(validate_field(&s, &rels, &ot, &"r".to_string(), &rel_field, &bad_row, &p, &any_expression).is_err());
}

#[test]
fn single_rowset_expectations() {
    let empty = QueryResponse(vec![rowset(vec![])]);
    assert!(expect_single_empty_rows(&empty).is_ok());
    assert!(matches!(expect_single_non_empty_rows(&empty), Err(Error::ExpectedNonEmptyRows)));
    let one = QueryResponse(vec![rowset(vec![row(vec![("id", num(1))])])]);
    assert!(matches!(expect_single_empty_rows(&one), Err(Error::ExpectedEmptyRows)));
    assert_eq!(expect_single_non_empty_rows(&one).ok().unwrap().len(), 1);
    let two = QueryResponse(vec![rowset(vec![]), rowset(vec![])]);
    assert!(matches!(expect_single_rowset(&two), Err(Error::UnexpectedRowsets(1, 2))));
}

#[test]
fn matching_responses_ignore_the_order_of_fields() {
    let a = QueryResponse(vec![rowset(vec![row(vec![("id", num(1)), ("title", string("t"))])])]);
    let b = QueryResponse(vec![rowset(vec![row(vec![("title", string("t")), ("id", num(1))])])]);
    assert!(expect_matching_query_responses(&a, &b).is_ok());
    let c = QueryResponse(vec![rowset(vec![row(vec![("title", string("u")), ("id", num(1))])])]);
    match expect_matching_query_responses(&a, &c) {
        Err(Error::ExpectedMatchingResponses(l, r)) => {
            assert!(expect_matching_query_responses(&l, &a).is_ok());
            assert!(expect_matching_query_responses(&r, &c).is_ok());
        }
        other => panic!("expected differing responses, got {:?}", other),
    }
}
