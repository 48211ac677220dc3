use rand::SeedableRng;
use ndc_spec::dict::Dict;
use ndc_spec::error::Error;
use ndc_spec::json::{JsonNumber, JsonValue};
use ndc_spec::query::{Aggregate, RowSet};
use ndc_spec::reporter::TestGenerationConfiguration;
use ndc_spec::schema::{
    AggregateFunctionDefinition, ArgumentInfo, CollectionInfo, ObjectField, ObjectType, ScalarType,
    SchemaResponse, Type, TypeRepresentation,
};
use ndc_spec::suite::{
    check_column_counts, column_count_request, make_single_expressions, predicate_request,
    select_top_n_request, single_column_request, star_count_of, star_count_request,
};
use ndc_spec::context::make_context;
use ndc_spec::query::{ComparisonValue, Expression, RowFieldValue};
use ndc_spec::schema::ComparisonOperatorDefinition;

fn named(name: &str) -> Type {
    Type::Named { name: name.to_string() }
}

fn field(t: Type, with_argument: bool) -> ObjectField {
    let mut arguments = Dict::new();
    if with_argument {
        arguments.insert("limit".to_string(), ArgumentInfo { description: None, argument_type: named("Int") });
    }
    ObjectField { description: None, field_type: t, arguments }
}

fn article_type() -> ObjectType {
    let mut fields = Dict::new();
    fields.insert("id".to_string(), field(named("Int"), false));
    fields.insert("tags".to_string(), field(named("String"), true));
    fields.insert("title".to_string(), field(named("String"), false));
    ObjectType { description: None, fields, foreign_keys: Dict::new() }
}

fn collection() -> CollectionInfo {
    CollectionInfo {
        name: "articles".to_string(),
        description: None,
        arguments: Dict::new(),
        collection_type: "article".to_string(),
        uniqueness_constraints: Dict::new(),
    }
}

fn config() -> TestGenerationConfiguration {
    TestGenerationConfiguration { test_cases: 10, sample_size: 10, max_limit: 7, complexity: 2 }
}

fn num(i: i64) -> JsonValue {
    JsonValue::Number(JsonNumber::from_i64(i))
}

fn rowset(entries: Vec<(&str, JsonValue)>) -> RowSet {
    let mut d = Dict::new();
    for (k, v) in entries {
        d.insert(k.to_string(), v);
    }
    RowSet { aggregates: Some(d), rows: None, groups: None }
}

#[test]
fn top_n_selects_columns_without_required_arguments() {
    let r = select_top_n_request(&collection(), &article_type());
    assert_eq!(r.collection, "articles");
    assert_eq!(r.query.limit, Some(10));
    let fields = r.query.fields.unwrap();
    assert_eq!(fields.len(), 2);
    assert_eq!(fields.get_index(0).0, "id");
    assert_eq!(fields.get_index(1).0, "title");
}

#[test]
fn star_count_is_read_from_the_count_aggregate() {
    let r = star_count_request(&config(), &collection());
    assert_eq!(r.query.limit, Some(7));
    let a = r.query.aggregates.unwrap();
    assert_eq!(a.len(), 1);
    assert_eq!(a.get_index(0).0, "count");
    assert!(matches!(a.get_index(0).1, Aggregate::StarCount {}));
    assert_eq!(star_count_of(&rowset(vec![("count", num(5))])).unwrap(), 5);
    assert!(matches!(star_count_of(&rowset(vec![("other", num(5))])), Err(Error::MissingField(f)) if f == "count"));
    assert!(matches!(star_count_of(&rowset(vec![("count", num(-1))])), Err(Error::MissingField(_))));
    let none = RowSet { aggregates: None, rows: None, groups: None };
    assert!(matches!(star_count_of(&none), Err(Error::AggregatesShouldBeNonNullInRowSet)));
}

#[test]
fn column_counts_ask_for_each_count_and_distinct_count() {
    let (r, names) = column_count_request(&config(), &collection(), &article_type());
    assert_eq!(names, vec!["id".to_string(), "title".to_string()]);
    let a = r.query.aggregates.unwrap();
    assert_eq!(a.len(), 4);
    assert_eq!(a.get_index(0).0, "id_count");
    assert_eq!(a.get_index(1).0, "id_distinct_count");
    assert!(matches!(a.get_index(1).1, Aggregate::ColumnCount { distinct: true, .. }));
    assert_eq!(a.get_index(2).0, "title_count");
}

#[test]
fn column_counts_are_checked_against_the_star_count() {
    let names = vec!["id".to_string()];
    let ok = rowset(vec![("id_count", num(3)), ("id_distinct_count", num(2))]);
    assert!(check_column_counts(&ok, &names, 3).is_ok());
    match check_column_counts(&ok, &names, 2) {
        Err(Error::ResponseDoesNotSatisfy(m)) => assert_eq!(m, "star_count >= column_count(id)"),
        _ => panic!("expected the star count to be exceeded"),
    }
    let bad = rowset(vec![("id_count", num(2)), ("id_distinct_count", num(3))]);
    match check_column_counts(&bad, &names, 3) {
        Err(Error::ResponseDoesNotSatisfy(m)) => assert_eq!(m, "column_count >= column_count(distinct id)"),
        _ => panic!("expected the count to be exceeded"),
    }
    let missing = rowset(vec![("id_count", num(2))]);
    assert!(matches!(check_column_counts(&missing, &names, 3), Err(Error::MissingField(f)) if f == "id_distinct_count"));
    let none = RowSet { aggregates: None, rows: None, groups: None };
    assert!(matches!(check_column_counts(&none, &vec![], 3), Err(Error::AggregatesShouldBeNonNullInRowSet)));
}

fn schema() -> SchemaResponse {
    let mut int_functions = Dict::new();
    int_functions.insert("max".to_string(), AggregateFunctionDefinition::Max);
    int_functions.insert("sum".to_string(), AggregateFunctionDefinition::Sum { result_type: "Int".to_string() });
    let mut scalar_types = Dict::new();
    scalar_types.insert(
        "Int".to_string(),
        ScalarType {
            representation: TypeRepresentation::Int32,
            aggregate_functions: int_functions,
            comparison_operators: Dict::new(),
            extraction_functions: Dict::new(),
        },
    );
    let mut object_types = Dict::new();
    object_types.insert("article".to_string(), article_type());
    SchemaResponse { scalar_types, object_types, collections: vec![collection()], functions: vec![], procedures: vec![], capabilities: None }
}

#[test]
fn single_column_aggregates_are_named_after_column_and_function() {
    let mut rng = rand::rngs::SmallRng::seed_from_u64(3);
    let s = schema();
    for _ in 0..10 {
        let r = single_column_request(&config(), &s, &collection(), &article_type(), &mut rng);
        let a = r.query.aggregates.unwrap();
        assert!(a.len() >= 1 && a.len() <= 2);
        for i in 0..a.len() {
            let (key, aggregate) = a.get_index(i);
            match aggregate {
                Aggregate::SingleColumn { column, function, .. } => {
                    assert_eq!(column, "id");
                    let prefix = format!("id_{function}_");
                    assert!(key.starts_with(&prefix));
                    let digits = &key[prefix.len()..];
                    assert_eq!(digits.len(), 4);
                    assert!(digits.chars().all(|c| c.is_ascii_digit()));
                }
                _ => panic!("expected a single column aggregate"),
            }
        }
    }
}

fn predicate_schema() -> SchemaResponse {
    let mut operators = Dict::new();
    operators.insert("eq".to_string(), ComparisonOperatorDefinition::Equal);
    operators.insert("lt".to_string(), ComparisonOperatorDefinition::LessThan);
    operators.insert("in".to_string(), ComparisonOperatorDefinition::In);
    let mut scalar_types = Dict::new();
    scalar_types.insert(
        "Int".to_string(),
        ScalarType {
            representation: TypeRepresentation::Int32,
            aggregate_functions: Dict::new(),
            comparison_operators: operators,
            extraction_functions: Dict::new(),
        },
    );
    SchemaResponse { scalar_types, object_types: Dict::new(), collections: vec![], functions: vec![], procedures: vec![], capabilities: None }
}

fn sample_type() -> ObjectType {
    let mut fields = Dict::new();
    fields.insert("id".to_string(), field(named("Int"), false));
    fields.insert("score".to_string(), field(Type::Nullable { underlying_type: Box::new(named("Int")) }, false));
    fields.insert("tags".to_string(), field(named("Int"), true));
    ObjectType { description: None, fields, foreign_keys: Dict::new() }
}

fn sample_row(id: i64, score: JsonValue) -> Dict<RowFieldValue> {
    let mut d = Dict::new();
    d.insert("id".to_string(), RowFieldValue(num(id)));
    d.insert("score".to_string(), RowFieldValue(score));
    d.insert("tags".to_string(), RowFieldValue(JsonValue::Null));
    d
}

#[test]
fn single_expressions_follow_the_operators_of_the_type() {
    let schema = predicate_schema();
    let t = sample_type();
    let rows = vec![sample_row(1, num(10)), sample_row(2, JsonValue::Null)];
    let context = make_context(&t, &rows).unwrap().unwrap();
    let mut rng = rand::rngs::SmallRng::seed_from_u64(5);
    let values = vec![num(1), num(2)];
    let out = make_single_expressions(&schema, &context, &"id".to_string(), &values, &mut rng).unwrap();
    assert_eq!(out.len(), 2);
    match &out[0].expr {
        Expression::BinaryComparisonOperator { operator, value: ComparisonValue::Scalar { value }, .. } => {
            assert_eq!(operator, "eq");
            assert!(matches!(value, JsonValue::Number(JsonNumber::PosInt(1)) | JsonValue::Number(JsonNumber::PosInt(2))));
            assert!(out[0].expect_nonempty);
        }
        _ => panic!("expected an equality"),
    }
    match &out[1].expr {
        Expression::BinaryComparisonOperator { operator, value: ComparisonValue::Scalar { value: JsonValue::Array(items) }, .. } => {
            assert_eq!(operator, "in");
            assert!(items.len() <= 2);
            assert_eq!(out[1].expect_nonempty, !items.is_empty());
        }
        _ => panic!("expected a membership test"),
    }
    let nullable = make_single_expressions(&schema, &context, &"score".to_string(), &vec![num(10)], &mut rng).unwrap();
    assert_eq!(nullable.len(), 3);
    assert!(matches!(nullable[0].expr, Expression::UnaryComparisonOperator { .. }));
    assert!(!nullable[0].expect_nonempty);
    let with_arguments = make_single_expressions(&schema, &context, &"tags".to_string(), &values, &mut rng).unwrap();
    assert!(with_arguments.is_empty());
}

#[test]
fn single_expressions_need_values_and_a_known_field() {
    let schema = predicate_schema();
    let t = sample_type();
    let rows = vec![sample_row(1, num(10))];
    let context = make_context(&t, &rows).unwrap().unwrap();
    let mut rng = rand::rngs::SmallRng::seed_from_u64(9);
    assert!(matches!(
        make_single_expressions(&schema, &context, &"id".to_string(), &vec![], &mut rng),
        Err(Error::ExpectedNonEmptyRows)
    ));
    assert!(matches!(
        make_single_expressions(&schema, &context, &"missing".to_string(), &vec![num(1)], &mut rng),
        Err(Error::UnexpectedField(f)) if f == "missing"
    ));
}

#[test]
fn predicate_requests_carry_their_predicate() {
    let r = predicate_request(&config(), &collection(), &article_type(), Some(Expression::Or { expressions: vec![] }));
    assert_eq!(r.query.limit, Some(7));
    assert!(matches!(r.query.predicate, Some(Expression::Or { ref expressions }) if expressions.is_empty()));
    assert_eq!(r.query.fields.unwrap().len(), 2);
    let none = predicate_request(&config(), &collection(), &article_type(), None);
    assert!(none.query.predicate.is_none());
}

#[test]
fn grouping_groups_by_a_column_without_arguments() {
    let mut rng = rand::rngs::SmallRng::seed_from_u64(13);
    for _ in 0..10 {
        let r = ndc_spec::suite::grouping_request(&collection(), &article_type(), &mut rng).unwrap();
        let g = r.query.groups.unwrap();
        assert_eq!(g.aggregates.len(), 1);
        assert_eq!(g.aggregates.get_index(0).0, "count");
        assert_eq!(g.dimensions.len(), 1);
        match &g.dimensions[0] {
            ndc_spec::query::Dimension::Column { column_name, .. } => assert!(column_name == "id" || column_name == "title"),
        }
    }
    let mut only_arguments = Dict::new();
    only_arguments.insert("tags".to_string(), field(named("String"), true));
    let t = ObjectType { description: None, fields: only_arguments, foreign_keys: Dict::new() };
    assert!(ndc_spec::suite::grouping_request(&collection(), &t, &mut rng).is_none());
}

#[test]
fn test_options_validate_responses_by_default() {
    let o = ndc_spec::reporter::TestOptions::default();
    assert!(o.validate_responses);
    assert!(o.request_arguments.query.is_none());
}

#[test]
fn aggregate_names_have_four_digits() {
    assert_eq!(ndc_spec::suite::aggregate_name(&"id".to_string(), &"max".to_string(), 42), "id_max_0042");
    assert_eq!(ndc_spec::suite::aggregate_name(&"a".to_string(), &"sum".to_string(), 9999), "a_sum_9999");
    match ndc_spec::suite::single_column_aggregate(&"id".to_string(), &"max".to_string()) {
        Aggregate::SingleColumn { column, function, arguments, field_path } => {
            assert_eq!((column.as_str(), function.as_str()), ("id", "max"));
            assert_eq!(arguments.len(), 0);
            assert!(field_path.is_none());
        }
        _ => panic!("expected a single column aggregate"),
    }
}

#[test]
fn expressions_are_built_as_asked() {
    let eq = ndc_spec::suite::equality_expression(&"id".to_string(), &"eq".to_string(), num(4));
    assert!(eq.expect_nonempty);
    assert!(matches!(eq.expr, Expression::BinaryComparisonOperator { ref operator, .. } if operator == "eq"));
    let none = ndc_spec::suite::membership_expression(&"id".to_string(), &"in".to_string(), vec![], 0);
    assert!(!none.expect_nonempty);
    let some = ndc_spec::suite::membership_expression(&"id".to_string(), &"in".to_string(), vec![num(1), num(2)], 2);
    assert!(some.expect_nonempty);
    match some.expr {
        Expression::BinaryComparisonOperator { value: ComparisonValue::Scalar { value: JsonValue::Array(items) }, .. } => assert_eq!(items.len(), 2),
        _ => panic!("expected a membership test"),
    }
    let null = ndc_spec::suite::is_null_expression(&"id".to_string());
    assert!(!null.expect_nonempty);
    assert!(matches!(null.expr, Expression::UnaryComparisonOperator { .. }));
}

#[test]
fn grouping_at_a_position_groups_by_that_column() {
    let r = ndc_spec::suite::grouping_request_at(&collection(), &article_type(), 1);
    match &r.query.groups.unwrap().dimensions[0] {
        ndc_spec::query::Dimension::Column { column_name, .. } => assert_eq!(column_name, "title"),
    }
}

#[test]
fn columns_at_positions_follow_the_positions() {
    let picked = ndc_spec::common::select_columns_at(&article_type(), &vec![1, 0]);
    assert_eq!(picked.len(), 2);
    assert_eq!(picked.get_index(0).0, "title");
    assert_eq!(picked.get_index(1).0, "id");
}

#[test]
fn field_at_a_position_of_the_context() {
    let t = sample_type();
    let rows = vec![sample_row(1, num(10)), sample_row(2, num(20))];
    let context = make_context(&t, &rows).unwrap().unwrap();
    let (name, values) = context.field_at(1);
    assert_eq!(name, "score");
    assert_eq!(values.len(), 2);
}

#[test]
fn sorting_orders_by_distinct_sortable_columns() {
    let s = schema();
    let mut rng = rand::rngs::SmallRng::seed_from_u64(21);
    let t = article_type();
    assert_eq!(ndc_spec::suite::sortable_fields(&s, &t), vec!["id".to_string()]);
    for amount in 1..4 {
        let elements = ndc_spec::suite::make_order_by_elements(&t, &s, &mut rng, amount).unwrap();
        assert_eq!(elements.len(), 1);
        match &elements[0].target {
            ndc_spec::query::OrderByTarget::Column { name, .. } => assert_eq!(name, "id"),
            _ => panic!("expected a column"),
        }
        let r = ndc_spec::suite::sort_request(&config(), &collection(), &t, elements, &mut rng);
        assert_eq!(r.query.order_by.unwrap().elements.len(), 1);
        assert_eq!(r.query.limit, Some(7));
    }
    let no_scalars = SchemaResponse { scalar_types: Dict::new(), object_types: Dict::new(), collections: vec![], functions: vec![], procedures: vec![], capabilities: None };
    assert!(ndc_spec::suite::make_order_by_elements(&t, &no_scalars, &mut rng, 2).is_none());
    for _ in 0..10 {
        let n = ndc_spec::suite::sort_amount(&config(), &mut rng);
        assert!(n >= 1 && n <= 2);
    }
}

#[test]
fn order_by_element_follows_the_direction() {
    let asc = ndc_spec::suite::order_by_element(&"id".to_string(), true);
    assert_eq!(asc.order_direction, ndc_spec::query::OrderDirection::Asc);
    let desc = ndc_spec::suite::order_by_element(&"id".to_string(), false);
    assert_eq!(desc.order_direction, ndc_spec::query::OrderDirection::Desc);
}

fn author_collection(with_argument: bool) -> CollectionInfo {
    let mut arguments = Dict::new();
    if with_argument {
        arguments.insert("id".to_string(), ArgumentInfo { description: None, argument_type: named("Int") });
    }
    CollectionInfo {
        name: "authors".to_string(),
        description: None,
        arguments,
        collection_type: "author".to_string(),
        uniqueness_constraints: Dict::new(),
    }
}

fn relationship_schema(author_argument: bool, author_type: bool) -> SchemaResponse {
    let mut s = schema();
    s.collections.push(author_collection(author_argument));
    if author_type {
        let mut fields = Dict::new();
        fields.insert("id".to_string(), field(named("Int"), false));
        fields.insert("name".to_string(), field(named("String"), false));
        s.object_types.insert("author".to_string(), ObjectType { description: None, fields, foreign_keys: Dict::new() });
    }
    s
}

fn author_key(collection: &str) -> ndc_spec::schema::ForeignKeyConstraint {
    let mut mapping = Dict::new();
    mapping.insert("author_id".to_string(), vec!["id".to_string()]);
    ndc_spec::schema::ForeignKeyConstraint { column_mapping: mapping, foreign_collection: collection.to_string() }
}

#[test]
fn object_relationships_follow_the_foreign_key() {
    let mut rng = rand::rngs::SmallRng::seed_from_u64(17);
    let s = relationship_schema(false, true);
    let r = ndc_spec::suite::object_relationship_request(
        &config(), &s, &collection(), &article_type(), &"author".to_string(), &author_key("authors"), &mut rng,
    )
    .unwrap()
    .unwrap();
    let fields = r.query.fields.unwrap();
    let author = fields.get(&"author".to_string()).unwrap();
    match author {
        ndc_spec::query::Field::Relationship { query, relationship, .. } => {
            assert_eq!(relationship, "__relationship");
            assert_eq!(query.fields.as_ref().unwrap().len(), 2);
            assert_eq!(query.limit, Some(7));
        }
        _ => panic!("expected a relationship"),
    }
    assert_eq!(r.collection_relationships.len(), 1);
    let (name, rel) = r.collection_relationships.get_index(0);
    assert_eq!(name, "__relationship");
    assert_eq!(rel.target_collection, "authors");
    assert_eq!(rel.column_mapping.get(&"author_id".to_string()).unwrap(), &vec!["id".to_string()]);
}

#[test]
fn object_relationships_need_a_defined_collection_and_type() {
    let mut rng = rand::rngs::SmallRng::seed_from_u64(19);
    let s = relationship_schema(false, true);
    let missing = ndc_spec::suite::object_relationship_request(
        &config(), &s, &collection(), &article_type(), &"x".to_string(), &author_key("nowhere"), &mut rng,
    );
    assert!(matches!(missing, Err(Error::CollectionIsNotDefined(c)) if c == "nowhere"));
    let untyped = relationship_schema(false, false);
    let no_type = ndc_spec::suite::object_relationship_request(
        &config(), &untyped, &collection(), &article_type(), &"x".to_string(), &author_key("authors"), &mut rng,
    );
    assert!(matches!(no_type, Err(Error::CollectionTypeIsNotDefined(t)) if t == "author"));
    let parameterized = relationship_schema(true, true);
    let skipped = ndc_spec::suite::object_relationship_request(
        &config(), &parameterized, &collection(), &article_type(), &"x".to_string(), &author_key("authors"), &mut rng,
    );
    assert!(matches!(skipped, Ok(None)));
}

#[test]
fn console_reporter_starts_at_the_top_level() {
    let mut r = ndc_spec::reporter::ConsoleReporter::default();
    assert_eq!(r.level, 0);
    let _ = r.enter("a");
    let _ = r.enter("b");
    r.exit();
    assert_eq!(r.level, 1);
    assert_eq!(ndc_spec::reporter::ConsoleReporter::new().level, 0);
}
