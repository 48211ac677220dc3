use ndc_spec::reference::{check_version_header, get_capabilities, get_schema, VERSION};
use ndc_spec::schema_check::validate_schema;
use ndc_spec::schema::{AggregateFunctionDefinition, TypeRepresentation};

#[test]
fn capabilities_describe_the_reference_service() {
    let r = get_capabilities();
    assert_eq!(r.version, VERSION);
    assert_eq!(r.version, "0.2.0");
    let q = &r.capabilities.query;
    assert!(q.variables.is_some());
    assert!(q.explain.is_none());
    let aggregates = q.aggregates.as_ref().unwrap();
    assert!(aggregates.filter_by.is_some());
    let group_by = aggregates.group_by.as_ref().unwrap();
    assert!(group_by.filter.is_some() && group_by.order.is_some() && group_by.paginate.is_some());
    assert!(q.exists.named_scopes.is_some());
    assert!(q.exists.unrelated.is_some());
    assert!(r.capabilities.mutation.transactional.is_none());
    assert!(r.capabilities.mutation.explain.is_none());
    assert!(r.capabilities.relationships.is_some());
    assert!(r.capabilities.relational_query.is_none());
}

#[test]
fn schema_lists_collections_functions_and_procedures() {
    let s = get_schema();
    let collections: Vec<&str> = s.collections.iter().map(|c| c.name.as_str()).collect();
    assert_eq!(collections, vec!["articles", "authors", "institutions", "countries", "articles_by_author"]);
    let functions: Vec<&str> = s.functions.iter().map(|f| f.name.as_str()).collect();
    assert_eq!(functions, vec!["latest_article_id", "latest_article"]);
    let procedures: Vec<&str> = s.procedures.iter().map(|p| p.name.as_str()).collect();
    assert_eq!(procedures, vec!["upsert_article", "delete_articles"]);
    assert_eq!(s.scalar_types.len(), 5);
    assert_eq!(s.object_types.len(), 7);
    let count = s.capabilities.as_ref().unwrap().query.as_ref().unwrap().aggregates.as_ref().unwrap();
    assert_eq!(count.count_scalar_type, "Int");
    let by_author = &s.collections[4];
    assert!(by_author.arguments.contains_key(&"author_id".to_string()));
    assert_eq!(by_author.collection_type, "article");
}

#[test]
fn schema_passes_its_own_checks() {
    let s = get_schema();
    let outcomes = validate_schema(&s);
    assert!(!outcomes.is_empty());
    for o in outcomes.iter() {
        assert!(o.result.is_ok(), "{:?}", o.path);
    }
}

#[test]
fn version_header_is_optional() {
    assert_eq!(check_version_header(None), None);
}

#[test]
fn version_header_must_be_a_version() {
    let refusal = Some((400u16, "Invalid X-Hasura-NDC-Version header, expected a semver version string".to_string()));
    assert_eq!(check_version_header(Some(None)), refusal);
    assert_eq!(check_version_header(Some(Some("abc"))), refusal);
    assert_eq!(check_version_header(Some(Some("0.2"))), refusal);
}

#[test]
fn version_header_is_a_caret_range() {
    assert_eq!(check_version_header(Some(Some("0.2.0"))), None);
    assert_eq!(check_version_header(Some(Some("0.2.0-rc.1"))), None);
    assert_eq!(
        check_version_header(Some(Some("0.1.0"))),
        Some((400, "NDC version range ^0.1.0 does not match implemented version 0.2.0".to_string()))
    );
    assert_eq!(
        check_version_header(Some(Some("1.0.0"))),
        Some((400, "NDC version range ^1.0.0 does not match implemented version 0.2.0".to_string()))
    );
}

#[test]
fn schema_scalar_types_have_their_aggregates() {
    let s = get_schema();
    let keys: Vec<&str> = (0..s.scalar_types.len()).map(|i| s.scalar_types.get_index(i).0.as_str()).collect();
    assert_eq!(keys, vec!["Date", "Float", "Int", "Int64", "String"]);
    let int = s.scalar_types.get(&"Int".to_string()).unwrap();
    match int.aggregate_functions.get(&"sum".to_string()).unwrap() {
        AggregateFunctionDefinition::Sum { result_type } => assert_eq!(result_type, "Int64"),
        _ => panic!("sum of Int is not a sum"),
    }
    match int.aggregate_functions.get(&"avg".to_string()).unwrap() {
        AggregateFunctionDefinition::Average { result_type } => assert_eq!(result_type, "Float"),
        _ => panic!("avg of Int is not an average"),
    }
    let int64 = s.scalar_types.get(&"Int64".to_string()).unwrap();
    assert!(matches!(int64.representation, TypeRepresentation::Int64));
}

#[test]
fn schema_passes_every_check() {
    let s = get_schema();
    let outcomes = validate_schema(&s);
    assert!(!outcomes.is_empty());
    assert!(outcomes.iter().all(|o| o.result.is_ok()));
}
