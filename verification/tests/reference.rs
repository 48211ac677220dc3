use std::collections::BTreeMap;

use ndc_spec::dict::Dict;
use ndc_spec::engine::{FloatAggregate, Row, ServerError};
use ndc_spec::evaluate::{execute_query_request, execute_query_with_variables, rowset_to_json};
use ndc_spec::json::{JsonNumber, JsonValue};
use ndc_spec::mutation::{execute_delete_articles, execute_mutation_request, execute_procedure, execute_upsert_article};
use ndc_spec::query::{
    Aggregate, Argument, ComparisonTarget, ComparisonValue, Dimension, ExistsInCollection,
    Expression, Field, GroupComparisonTarget, GroupComparisonValue, GroupExpression, GroupOrderBy,
    GroupOrderByElement, GroupOrderByTarget, Grouping, MutationOperation, MutationOperationResults,
    MutationRequest, NestedArray, NestedField, NestedObject, OrderBy, OrderByElement,
    OrderByTarget, OrderDirection, PathElement, Query, QueryRequest, Relationship,
    RelationshipArgument, RelationshipType, RowSet, UnaryComparisonOperator,
};
use ndc_spec::state::{get_collection_by_name, AppState};

fn number_f64(n: &JsonNumber) -> f64 {
    match n {
        JsonNumber::PosInt(u) => *u as f64,
        JsonNumber::NegInt(i) => *i as f64,
        JsonNumber::Float(bits) => f64::from_bits(*bits),
    }
}

fn float(x: f64) -> JsonValue {
    JsonValue::Number(JsonNumber::Float(x.to_bits()))
}

fn less(a: &JsonNumber, b: &JsonNumber) -> bool {
    number_f64(a) < number_f64(b)
}

fn floats(function: FloatAggregate, numbers: &Vec<JsonNumber>) -> JsonValue {
    let xs: Vec<f64> = numbers.iter().map(number_f64).collect();
    match function {
        FloatAggregate::Min => float(xs.iter().cloned().fold(f64::INFINITY, f64::min)),
        FloatAggregate::Max => float(xs.iter().cloned().fold(f64::NEG_INFINITY, f64::max)),
        FloatAggregate::Sum => float(xs.iter().sum()),
        FloatAggregate::Average => float(xs.iter().sum::<f64>() / xs.len() as f64),
    }
}

fn average(sum: i64, count: usize) -> JsonValue {
    float(sum as f64 / count as f64)
}

fn text(s: &str) -> JsonValue {
    JsonValue::String(s.to_string())
}

fn num(i: i64) -> JsonValue {
    JsonValue::Number(JsonNumber::from_i64(i))
}

fn row(entries: Vec<(&str, JsonValue)>) -> Row {
    let mut d = Dict::new();
    for (k, v) in entries {
        d.insert(k.to_string(), v);
    }
    d
}

fn object(entries: Vec<(&str, JsonValue)>) -> JsonValue {
    JsonValue::Object(entries.into_iter().map(|(k, v)| (k.to_string(), v)).collect())
}

fn article(id: i64, title: &str, author: i64, date: &str) -> Row {
    row(vec![
        ("id", num(id)),
        ("title", text(title)),
        ("author_id", num(author)),
        ("published_date", text(date)),
    ])
}

fn state() -> AppState {
    let mut articles = BTreeMap::new();
    articles.insert(3, article(3, "Gamma", 2, "2021-03-01"));
    articles.insert(1, article(1, "Alpha", 1, "2020-01-15"));
    articles.insert(2, article(2, "Beta", 1, "2021-07-30"));
    let mut authors = BTreeMap::new();
    authors.insert(1, row(vec![("id", num(1)), ("first_name", text("Ada")), ("last_name", text("Lovelace"))]));
    authors.insert(2, row(vec![("id", num(2)), ("first_name", text("Alan")), ("last_name", text("Turing"))]));
    let mut institutions = BTreeMap::new();
    institutions.insert(
        1,
        row(vec![
            ("id", num(1)),
            ("name", text("Uni")),
            ("departments", JsonValue::Array(vec![text("Math"), text("Physics")])),
            (
                "staff",
                JsonValue::Array(vec![object(vec![("first_name", text("Grace")), ("last_name", text("Hopper"))])]),
            ),
        ]),
    );
    AppState { articles, authors, institutions, countries: BTreeMap::new() }
}

fn column(name: &str) -> Field {
    Field::Column { column: name.to_string(), fields: None, arguments: Dict::new() }
}

fn fields(names: &[&str]) -> Dict<Field> {
    let mut d = Dict::new();
    for n in names {
        d.insert(n.to_string(), column(n));
    }
    d
}

fn query(field_names: &[&str]) -> Query {
    Query {
        aggregates: None,
        fields: Some(fields(field_names)),
        limit: None,
        offset: None,
        order_by: None,
        predicate: None,
        groups: None,
    }
}

fn target(name: &str) -> ComparisonTarget {
    ComparisonTarget::Column { name: name.to_string(), arguments: Dict::new(), field_path: None }
}

fn compare(name: &str, op: &str, value: JsonValue) -> Expression {
    Expression::BinaryComparisonOperator {
        column: target(name),
        operator: op.to_string(),
        value: ComparisonValue::Scalar { value },
    }
}

fn run(collection: &str, q: &Query, relationships: &Dict<Relationship>, data: &AppState) -> Result<RowSet, ServerError> {
    execute_query_with_variables(
        &collection.to_string(),
        &Dict::new(),
        relationships,
        q,
        &Dict::new(),
        data,
        &less,
        &floats,
        &average,
    )
}

fn row_values(rs: &RowSet, column: &str) -> Vec<JsonValue> {
    rs.rows
        .as_ref()
        .unwrap()
        .iter()
        .map(|r| r.get(&column.to_string()).unwrap().0.clone_value())
        .collect()
}

fn json_eq(a: &JsonValue, b: &JsonValue) -> bool {
    ndc_spec::json::json_eq(a, b)
}

fn assert_values(actual: Vec<JsonValue>, expected: Vec<JsonValue>) {
    assert_eq!(actual.len(), expected.len(), "{:?} / {:?}", actual, expected);
    for (a, e) in actual.iter().zip(expected.iter()) {
        assert!(json_eq(a, e), "{:?} != {:?}", a, e);
    }
}

#[test]
fn collections_come_in_key_order() {
    let data = state();
    let rows = get_collection_by_name(&"articles".to_string(), &Dict::new(), &data).unwrap();
    let ids: Vec<i64> = rows.iter().map(|r| r.get(&"id".to_string()).unwrap().as_i64().unwrap()).collect();
    assert_eq!(ids, vec![1, 2, 3]);
}

#[test]
fn articles_by_author_filters_by_argument() {
    let data = state();
    let args = row(vec![("author_id", num(1))]);
    let rows = get_collection_by_name(&"articles_by_author".to_string(), &args, &data).unwrap();
    assert_eq!(rows.len(), 2);
    let missing = get_collection_by_name(&"articles_by_author".to_string(), &Dict::new(), &data);
    let e = missing.err().unwrap();
    assert_eq!((e.status, e.message.as_str()), (400, "missing argument author_id"));
    let not_int = get_collection_by_name(&"articles_by_author".to_string(), &row(vec![("author_id", text("x"))]), &data);
    assert_eq!(not_int.err().unwrap().message, "author_id must be an integer");
    let too_big = get_collection_by_name(&"articles_by_author".to_string(), &row(vec![("author_id", num(1 << 40))]), &data);
    assert_eq!(too_big.err().unwrap().message, "author_id out of range");
}

#[test]
fn latest_article_functions() {
    let data = state();
    let rows = get_collection_by_name(&"latest_article_id".to_string(), &Dict::new(), &data).unwrap();
    assert_eq!(rows.len(), 1);
    assert!(json_eq(rows[0].get(&"__value".to_string()).unwrap(), &num(3)));
    let rows = get_collection_by_name(&"latest_article".to_string(), &Dict::new(), &data).unwrap();
    let value = rows[0].get(&"__value".to_string()).unwrap();
    assert!(json_eq(value.get(&"title".to_string()).unwrap(), &text("Gamma")));
    let empty = AppState { articles: BTreeMap::new(), authors: BTreeMap::new(), institutions: BTreeMap::new(), countries: BTreeMap::new() };
    let rows = get_collection_by_name(&"latest_article_id".to_string(), &Dict::new(), &empty).unwrap();
    assert!(rows[0].get(&"__value".to_string()).unwrap().is_null());
}

#[test]
fn unknown_collection_is_refused() {
    let data = state();
    let e = get_collection_by_name(&"nothing".to_string(), &Dict::new(), &data).err().unwrap();
    assert_eq!((e.status, e.message.as_str()), (400, "invalid collection name"));
}

#[test]
fn query_selects_fields_of_every_row() {
    let data = state();
    let rs = run("articles", &query(&["id", "title"]), &Dict::new(), &data).unwrap();
    assert_values(row_values(&rs, "title"), vec![text("Alpha"), text("Beta"), text("Gamma")]);
    assert!(rs.aggregates.is_none());
    assert!(rs.groups.is_none());
}

#[test]
fn query_orders_filters_and_paginates() {
    let data = state();
    let mut q = query(&["id"]);
    q.order_by = Some(OrderBy {
        elements: vec![OrderByElement {
            order_direction: OrderDirection::Desc,
            target: OrderByTarget::Column { path: vec![], name: "title".to_string(), arguments: Dict::new(), field_path: None },
        }],
    });
    let rs = run("articles", &q, &Dict::new(), &data).unwrap();
    assert_values(row_values(&rs, "id"), vec![num(3), num(2), num(1)]);
    q.predicate = Some(compare("author_id", "eq", num(1)));
    let rs = run("articles", &q, &Dict::new(), &data).unwrap();
    assert_values(row_values(&rs, "id"), vec![num(2), num(1)]);
    q.limit = Some(1);
    q.offset = Some(1);
    let rs = run("articles", &q, &Dict::new(), &data).unwrap();
    assert_values(row_values(&rs, "id"), vec![num(1)]);
}

#[test]
fn predicates_combine() {
    let data = state();
    let mut q = query(&["id"]);
    q.predicate = Some(Expression::And {
        expressions: vec![
            compare("published_date", "gte", text("2021-01-01")),
            Expression::Not { expression: Box::new(compare("title", "like", text("^G"))) },
        ],
    });
    let rs = run("articles", &q, &Dict::new(), &data).unwrap();
    assert_values(row_values(&rs, "id"), vec![num(2)]);
    q.predicate = Some(Expression::Or { expressions: vec![] });
    let rs = run("articles", &q, &Dict::new(), &data).unwrap();
    assert_eq!(rs.rows.unwrap().len(), 0);
    q.predicate = Some(Expression::And { expressions: vec![] });
    let rs = run("articles", &q, &Dict::new(), &data).unwrap();
    assert_eq!(rs.rows.unwrap().len(), 3);
    q.predicate = Some(Expression::UnaryComparisonOperator { column: target("title"), operator: UnaryComparisonOperator::IsNull });
    let rs = run("articles", &q, &Dict::new(), &data).unwrap();
    assert_eq!(rs.rows.unwrap().len(), 0);
}

#[test]
fn unknown_column_fails_the_query() {
    let data = state();
    let e = run("articles", &query(&["nope"]), &Dict::new(), &data).err().unwrap();
    assert_eq!((e.status, e.message.as_str()), (400, "invalid column name"));
}

#[test]
fn aggregates_count_and_sum() {
    let data = state();
    let mut aggregates = Dict::new();
    aggregates.insert("count".to_string(), Aggregate::StarCount {});
    aggregates.insert(
        "authors".to_string(),
        Aggregate::ColumnCount { column: "author_id".to_string(), arguments: Dict::new(), field_path: None, distinct: true },
    );
    aggregates.insert(
        "total".to_string(),
        Aggregate::SingleColumn { column: "id".to_string(), arguments: Dict::new(), field_path: None, function: "sum".to_string() },
    );
    aggregates.insert(
        "first".to_string(),
        Aggregate::SingleColumn { column: "title".to_string(), arguments: Dict::new(), field_path: None, function: "min".to_string() },
    );
    let q = Query { aggregates: Some(aggregates), fields: None, limit: None, offset: None, order_by: None, predicate: None, groups: None };
    let rs = run("articles", &q, &Dict::new(), &data).unwrap();
    let a = rs.aggregates.unwrap();
    assert!(json_eq(a.get(&"count".to_string()).unwrap(), &num(3)));
    assert!(json_eq(a.get(&"authors".to_string()).unwrap(), &num(2)));
    assert!(json_eq(a.get(&"total".to_string()).unwrap(), &num(6)));
    assert!(json_eq(a.get(&"first".to_string()).unwrap(), &text("Alpha")));
    assert!(rs.rows.is_none());
}

#[test]
fn average_uses_the_closure() {
    let data = state();
    let mut aggregates = Dict::new();
    aggregates.insert(
        "mean".to_string(),
        Aggregate::SingleColumn { column: "id".to_string(), arguments: Dict::new(), field_path: None, function: "avg".to_string() },
    );
    let q = Query { aggregates: Some(aggregates), fields: None, limit: None, offset: None, order_by: None, predicate: None, groups: None };
    let rs = run("articles", &q, &Dict::new(), &data).unwrap();
    assert!(json_eq(rs.aggregates.unwrap().get(&"mean".to_string()).unwrap(), &float(2.0)));
}

#[test]
fn groups_by_dimension() {
    let data = state();
    let mut aggregates = Dict::new();
    aggregates.insert("count".to_string(), Aggregate::StarCount {});
    let grouping = Grouping {
        dimensions: vec![Dimension::Column {
            path: vec![],
            column_name: "author_id".to_string(),
            arguments: Dict::new(),
            field_path: None,
            extraction: None,
        }],
        aggregates,
        predicate: Some(GroupExpression::BinaryComparisonOperator {
            target: GroupComparisonTarget::Aggregate { aggregate: Aggregate::StarCount {} },
            operator: "gt".to_string(),
            value: GroupComparisonValue::Scalar { value: num(0) },
        }),
        order_by: Some(GroupOrderBy {
            elements: vec![GroupOrderByElement {
                order_direction: OrderDirection::Desc,
                target: GroupOrderByTarget::Dimension { index: 0 },
            }],
        }),
        limit: None,
        offset: None,
    };
    let q = Query { aggregates: None, fields: None, limit: None, offset: None, order_by: None, predicate: None, groups: Some(grouping) };
    let rs = run("articles", &q, &Dict::new(), &data).unwrap();
    let groups = rs.groups.unwrap();
    assert_eq!(groups.len(), 2);
    assert!(json_eq(&groups[0].dimensions[0], &num(2)));
    assert!(json_eq(groups[0].aggregates.get(&"count".to_string()).unwrap(), &num(1)));
    assert!(json_eq(&groups[1].dimensions[0], &num(1)));
    assert!(json_eq(groups[1].aggregates.get(&"count".to_string()).unwrap(), &num(2)));
}

#[test]
fn dimensions_can_extract_date_parts() {
    let data = state();
    let grouping = Grouping {
        dimensions: vec![Dimension::Column {
            path: vec![],
            column_name: "published_date".to_string(),
            arguments: Dict::new(),
            field_path: None,
            extraction: Some("year".to_string()),
        }],
        aggregates: Dict::new(),
        predicate: None,
        order_by: None,
        limit: None,
        offset: None,
    };
    let q = Query { aggregates: None, fields: None, limit: None, offset: None, order_by: None, predicate: None, groups: Some(grouping) };
    let rs = run("articles", &q, &Dict::new(), &data).unwrap();
    let groups = rs.groups.unwrap();
    assert_eq!(groups.len(), 2);
    assert!(json_eq(&groups[0].dimensions[0], &num(2020)));
    assert!(json_eq(&groups[1].dimensions[0], &num(2021)));
}

fn author_relationship() -> Dict<Relationship> {
    let mut mapping = Dict::new();
    mapping.insert("author_id".to_string(), vec!["id".to_string()]);
    let mut relationships = Dict::new();
    relationships.insert(
        "author".to_string(),
        Relationship {
            column_mapping: mapping,
            relationship_type: RelationshipType::Object,
            target_collection: "authors".to_string(),
            arguments: Dict::new(),
        },
    );
    relationships
}

#[test]
fn relationship_fields_hold_row_sets() {
    let data = state();
    let relationships = author_relationship();
    let mut f = fields(&["id"]);
    f.insert(
        "author".to_string(),
        Field::Relationship { query: Box::new(query(&["last_name"])), relationship: "author".to_string(), arguments: Dict::new() },
    );
    let q = Query { aggregates: None, fields: Some(f), limit: None, offset: None, order_by: None, predicate: None, groups: None };
    let rs = run("articles", &q, &relationships, &data).unwrap();
    let authors = row_values(&rs, "author");
    let expected = object(vec![("rows", JsonValue::Array(vec![object(vec![("last_name", text("Lovelace"))])]))]);
    assert!(json_eq(&authors[0], &expected), "{:?}", authors[0]);
}

#[test]
fn ordering_through_a_relationship() {
    let data = state();
    let relationships = author_relationship();
    let mut q = query(&["id"]);
    q.order_by = Some(OrderBy {
        elements: vec![
            OrderByElement {
                order_direction: OrderDirection::Desc,
                target: OrderByTarget::Column {
                    path: vec![PathElement { field_path: None, relationship: "author".to_string(), arguments: Dict::new(), predicate: None }],
                    name: "last_name".to_string(),
                    arguments: Dict::new(),
                    field_path: None,
                },
            },
            OrderByElement {
                order_direction: OrderDirection::Asc,
                target: OrderByTarget::Column { path: vec![], name: "id".to_string(), arguments: Dict::new(), field_path: None },
            },
        ],
    });
    let rs = run("articles", &q, &relationships, &data).unwrap();
    assert_values(row_values(&rs, "id"), vec![num(3), num(1), num(2)]);
}

#[test]
fn exists_in_related_and_unrelated_collections() {
    let data = state();
    let relationships = author_relationship();
    let mut q = query(&["id"]);
    q.predicate = Some(Expression::Exists {
        in_collection: ExistsInCollection::Related { field_path: None, relationship: "author".to_string(), arguments: Dict::new() },
        predicate: Some(Box::new(compare("first_name", "eq", text("Alan")))),
    });
    let rs = run("articles", &q, &relationships, &data).unwrap();
    assert_values(row_values(&rs, "id"), vec![num(3)]);
    let mut args = Dict::new();
    args.insert("author_id".to_string(), RelationshipArgument::Column { name: "id".to_string() });
    let mut authors = query(&["id"]);
    authors.predicate = Some(Expression::Exists {
        in_collection: ExistsInCollection::Unrelated { collection: "articles_by_author".to_string(), arguments: args },
        predicate: None,
    });
    let rs = run("authors", &authors, &Dict::new(), &data).unwrap();
    assert_values(row_values(&rs, "id"), vec![num(1), num(2)]);
}

#[test]
fn exists_in_nested_scalar_collection() {
    let data = state();
    let mut q = query(&["id"]);
    let mut limit = Dict::new();
    limit.insert("limit".to_string(), Argument::Literal { value: JsonValue::Null });
    q.predicate = Some(Expression::Exists {
        in_collection: ExistsInCollection::NestedScalarCollection {
            column_name: "departments".to_string(),
            arguments: limit,
            field_path: vec![],
        },
        predicate: Some(Box::new(compare("__value", "eq", text("Physics")))),
    });
    let rs = run("institutions", &q, &Dict::new(), &data).unwrap();
    assert_values(row_values(&rs, "id"), vec![num(1)]);
}

#[test]
fn nested_fields_select_parts_of_columns() {
    let data = state();
    let mut limit = Dict::new();
    limit.insert("limit".to_string(), Argument::Literal { value: num(1) });
    let mut f = Dict::new();
    f.insert(
        "staff".to_string(),
        Field::Column {
            column: "staff".to_string(),
            fields: Some(NestedField::Array(NestedArray {
                fields: Box::new(NestedField::Object(NestedObject { fields: fields(&["last_name"]) })),
            })),
            arguments: limit,
        },
    );
    let q = Query { aggregates: None, fields: Some(f), limit: None, offset: None, order_by: None, predicate: None, groups: None };
    let rs = run("institutions", &q, &Dict::new(), &data).unwrap();
    let staff = row_values(&rs, "staff");
    assert!(json_eq(&staff[0], &JsonValue::Array(vec![object(vec![("last_name", text("Hopper"))])])));
}

#[test]
fn array_columns_need_a_limit_argument() {
    let data = state();
    let e = run("institutions", &query(&["departments"]), &Dict::new(), &data).err().unwrap();
    assert_eq!(e.message, "Expected argument 'limit' in column departments");
}

#[test]
fn request_runs_once_per_variable_set() {
    let data = state();
    let mut q = query(&["id"]);
    q.predicate = Some(Expression::BinaryComparisonOperator {
        column: target("author_id"),
        operator: "eq".to_string(),
        value: ComparisonValue::Variable { name: "who".to_string() },
    });
    let request = QueryRequest {
        collection: "articles".to_string(),
        query: q,
        arguments: Dict::new(),
        collection_relationships: Dict::new(),
        variables: Some(vec![row(vec![("who", num(1))]), row(vec![("who", num(2))]), row(vec![("who", num(9))])]),
    };
    let response = execute_query_request(&request, &data, &less, &floats, &average).unwrap();
    assert_eq!(response.0.len(), 3);
    assert_eq!(response.0[0].rows.as_ref().unwrap().len(), 2);
    assert_eq!(response.0[1].rows.as_ref().unwrap().len(), 1);
    assert_eq!(response.0[2].rows.as_ref().unwrap().len(), 0);
    let missing = QueryRequest { variables: None, ..request };
    let e = execute_query_request(&missing, &data, &less, &floats, &average).err().unwrap();
    assert_eq!(e.message, "invalid variable name");
}

#[test]
fn rowset_json_has_the_parts_present() {
    let data = state();
    let rs = run("articles", &query(&["id"]), &Dict::new(), &data).unwrap();
    let j = rowset_to_json(&rs);
    assert!(j.get(&"rows".to_string()).is_some());
    assert!(j.get(&"aggregates".to_string()).is_none());
    assert!(j.get(&"groups".to_string()).is_none());
}

fn no_parse(_: &JsonValue) -> Option<Expression> {
    None
}

#[test]
fn upsert_inserts_then_replaces() {
    let mut data = state();
    let args = row(vec![("article", object(vec![("id", num(7)), ("title", text("Delta")), ("author_id", num(2))]))]);
    let r = execute_upsert_article(&mut data, &args, &None, &Dict::new(), &less, &floats, &average).unwrap();
    let MutationOperationResults::Procedure { result } = r;
    assert!(result.is_null());
    let rows = get_collection_by_name(&"articles".to_string(), &Dict::new(), &data).unwrap();
    assert_eq!(rows.len(), 4);
    assert!(json_eq(rows[3].get(&"title".to_string()).unwrap(), &text("Delta")));
    let again = row(vec![("article", object(vec![("id", num(7)), ("title", text("Epsilon"))]))]);
    let r = execute_upsert_article(&mut data, &again, &None, &Dict::new(), &less, &floats, &average).unwrap();
    let MutationOperationResults::Procedure { result } = r;
    assert!(json_eq(result.get(&"title".to_string()).unwrap(), &text("Delta")));
    assert_eq!(data.articles.len(), 4);
}

#[test]
fn upsert_errors_leave_the_data_alone() {
    let mut data = state();
    let cases = vec![
        (row(vec![]), "Expected argument 'article'"),
        (row(vec![("article", num(1))]), "article must be an object"),
        (row(vec![("article", object(vec![("title", text("x"))]))]), "article missing field 'id'"),
        (row(vec![("article", object(vec![("id", text("x"))]))]), "id must be an integer"),
        (row(vec![("article", object(vec![("id", num(1 << 40))]))]), "id out of range"),
    ];
    for (args, message) in cases {
        let e = execute_upsert_article(&mut data, &args, &None, &Dict::new(), &less, &floats, &average).err().unwrap();
        assert_eq!((e.status, e.message.as_str()), (400, message));
        assert_eq!(data.articles.len(), 3);
    }
}

#[test]
fn delete_finds_matching_articles() {
    let mut data = state();
    let parse = |_: &JsonValue| Some(compare("author_id", "eq", num(1)));
    let args = row(vec![("where", object(vec![]))]);
    let e = execute_delete_articles(&mut data, &row(vec![]), &None, &Dict::new(), &parse, &less, &floats, &average).err().unwrap();
    assert_eq!(e.message, "Expected argument 'where'");
    let e = execute_delete_articles(&mut data, &args, &None, &Dict::new(), &no_parse, &less, &floats, &average).err().unwrap();
    assert_eq!(e.message, "Bad predicate");
    assert_eq!(data.articles.len(), 3);
    let r = execute_delete_articles(&mut data, &args, &None, &Dict::new(), &parse, &less, &floats, &average).unwrap();
    let MutationOperationResults::Procedure { result } = r;
    assert_eq!(result.as_array().unwrap().len(), 2);
    assert_eq!(data.articles.keys().copied().collect::<Vec<i32>>(), vec![3]);
    assert_eq!(data.authors.len(), 2);
    let r = execute_delete_articles(&mut data, &args, &None, &Dict::new(), &parse, &less, &floats, &average).unwrap();
    let MutationOperationResults::Procedure { result } = r;
    assert_eq!(result.as_array().unwrap().len(), 0);
    assert_eq!(data.articles.len(), 1);
}

#[test]
fn unknown_procedures_and_transactions_are_refused() {
    let mut data = state();
    let e = execute_procedure(&mut data, &"drop".to_string(), &row(vec![]), &None, &Dict::new(), &no_parse, &less, &floats, &average)
        .err()
        .unwrap();
    assert_eq!((e.status, e.message.as_str()), (400, "unknown procedure"));
    let op = || MutationOperation::Procedure { name: "upsert_article".to_string(), arguments: row(vec![]), fields: None };
    let request = MutationRequest { operations: vec![op(), op()], collection_relationships: Dict::new() };
    let e = execute_mutation_request(&mut data, &request, &no_parse, &less, &floats, &average).err().unwrap();
    assert_eq!((e.status, e.message.as_str()), (501, "transactional mutations are not supported"));
    let empty = MutationRequest { operations: vec![], collection_relationships: Dict::new() };
    let response = execute_mutation_request(&mut data, &empty, &no_parse, &less, &floats, &average).unwrap();
    assert_eq!(response.operation_results.len(), 0);
}

#[test]
fn empty_and_predicate_is_no_op() {
    let data = state();
    let plain = query(&["id", "title"]);
    let mut with_and = query(&["id", "title"]);
    with_and.predicate = Some(Expression::And { expressions: vec![] });
    let a = run("articles", &plain, &Dict::new(), &data).unwrap();
    let b = run("articles", &with_and, &Dict::new(), &data).unwrap();
    assert_values(row_values(&a, "id"), row_values(&b, "id"));
    assert_eq!(row_values(&b, "id").len(), 3);
}

#[test]
fn empty_or_predicate_returns_no_rows() {
    let data = state();
    let mut with_or = query(&["id"]);
    with_or.predicate = Some(Expression::Or { expressions: vec![] });
    let rs = run("articles", &with_or, &Dict::new(), &data).unwrap();
    assert_eq!(rs.rows.unwrap().len(), 0);
}

#[test]
fn ties_on_a_number_are_broken_by_the_next_element() {
    let data = state();
    let mut q = query(&["id"]);
    q.order_by = Some(OrderBy {
        elements: vec![
            OrderByElement {
                order_direction: OrderDirection::Asc,
                target: OrderByTarget::Column { path: vec![], name: "author_id".to_string(), arguments: Dict::new(), field_path: None },
            },
            OrderByElement {
                order_direction: OrderDirection::Desc,
                target: OrderByTarget::Column { path: vec![], name: "id".to_string(), arguments: Dict::new(), field_path: None },
            },
        ],
    });
    let rs = run("articles", &q, &Dict::new(), &data).unwrap();
    assert_values(row_values(&rs, "id"), vec![num(2), num(1), num(3)]);
}

#[test]
fn negative_zero_equals_zero() {
    let neg = JsonValue::Number(JsonNumber::Float((-0.0f64).to_bits()));
    let pos = JsonValue::Number(JsonNumber::Float(0.0f64.to_bits()));
    assert!(json_eq(&neg, &pos));
    assert!(!json_eq(&pos, &JsonValue::Number(JsonNumber::Float(1.0f64.to_bits()))));
}

#[test]
fn float_aggregates_are_named_by_the_library() {
    let values = vec![float(1.5), float(2.5)];
    let avg = ndc_spec::engine::eval_aggregate_function(&"avg".to_string(), &values, &floats, &average).unwrap();
    assert!(json_eq(&avg, &float(2.0)));
    let max = ndc_spec::engine::eval_aggregate_function(&"max".to_string(), &values, &floats, &average).unwrap();
    assert!(json_eq(&max, &float(2.5)));
    let e = ndc_spec::engine::eval_aggregate_function(&"median".to_string(), &values, &floats, &average).err().unwrap();
    assert_eq!((e.status, e.message.as_str()), (400, "invalid float aggregation function"));
}

#[test]
fn counts_are_ordered() {
    let data = state();
    let mut aggregates = Dict::new();
    aggregates.insert("star".to_string(), Aggregate::StarCount {});
    aggregates.insert(
        "count".to_string(),
        Aggregate::ColumnCount { column: "author_id".to_string(), arguments: Dict::new(), field_path: None, distinct: false },
    );
    aggregates.insert(
        "distinct".to_string(),
        Aggregate::ColumnCount { column: "author_id".to_string(), arguments: Dict::new(), field_path: None, distinct: true },
    );
    let q = Query { aggregates: Some(aggregates), fields: None, limit: None, offset: None, order_by: None, predicate: None, groups: None };
    let a = run("articles", &q, &Dict::new(), &data).unwrap().aggregates.unwrap();
    assert!(json_eq(a.get(&"star".to_string()).unwrap(), &num(3)));
    assert!(json_eq(a.get(&"count".to_string()).unwrap(), &num(3)));
    assert!(json_eq(a.get(&"distinct".to_string()).unwrap(), &num(2)));
}

#[test]
fn rows_hold_the_fields_in_the_order_asked() {
    let data = state();
    let rs = run("articles", &query(&["title", "id"]), &Dict::new(), &data).unwrap();
    for row in rs.rows.unwrap() {
        let keys: Vec<&str> = (0..row.len()).map(|i| row.get_index(i).0.as_str()).collect();
        assert_eq!(keys, vec!["title", "id"]);
    }
}
