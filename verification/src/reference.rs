use vstd::prelude::*;
use crate::capabilities::{
    AggregateCapabilities, Capabilities, CapabilitiesResponse, ExistsCapabilities,
    GroupByCapabilities, LeafCapability, MutationCapabilities, NestedArrayFilterByCapabilities,
    NestedFieldCapabilities, NestedFieldFilterByCapabilities, NestedRelationshipCapabilities,
    QueryCapabilities, RelationshipCapabilities,
};
use crate::dict::Dict;
use crate::error::{first_fault, Fault};
use crate::json::{entries_map, lemma_entries_has, lemma_entries_key};
use crate::schema_check::{
    aggregate_faults, aggregate_function_fault, argument_faults, arguments_fault, collection_checks,
    collections_checks, comparison_operators_fault, field_type_faults, function_checks,
    functions_checks, object_type_fault, object_type_faults, object_types_fault, procedure_checks,
    procedures_checks, scalar_faults, scalar_type_fault, scalar_types_fault, schema_checks,
};
use crate::validate::type_fault;
use crate::schema::{
    AggregateCapabilitiesSchemaInfo, AggregateFunctionDefinition, ArgumentInfo,
    CapabilitySchemaInfo, CollectionInfo, ComparisonOperatorDefinition,
    ExtractionFunctionDefinition, ExtractionFunctionType, ForeignKeyConstraint, FunctionInfo,
    ObjectField, ObjectType, ProcedureInfo, QueryCapabilitiesSchemaInfo, ScalarType,
    SchemaResponse, Type, TypeRepresentation, UniquenessConstraint,
};

verus! {

/// The version of the specification that the reference service implements.
pub const VERSION: &'static str = "0.2.0";

/// The name of the request header in which a client names the version of
/// the specification it expects.
pub const VERSION_HEADER_NAME: &'static str = "X-Hasura-NDC-Version";

/// The message for a version header that is not a version.
pub open spec fn invalid_header_message() -> Seq<char> {
    "Invalid "@ + VERSION_HEADER_NAME@ + " header, expected a semver version string"@
}

/// How the service answers the version header of a request: none lets the
/// request through, else the status and message with which it is refused.
/// The header is absent, not text, or text.
pub open spec fn version_header_refusal(header: Option<Option<Seq<char>>>) -> Option<(u16, Seq<char>)> {
    match header {
        None => None,
        Some(None) => Some((400, invalid_header_message())),
        Some(Some(v)) => if crate::versions::version_error(v) is Some {
            Some((400, invalid_header_message()))
        } else if crate::versions::caret_match(v, VERSION@) {
            None
        } else {
            Some(
                (
                    400,
                    "NDC version range ^"@ + v + " does not match implemented version "@ + VERSION@,
                ),
            )
        },
    }
}

/// The texts of a version header.
pub open spec fn header_view(header: Option<Option<&str>>) -> Option<Option<Seq<char>>> {
    match header {
        None => None,
        Some(None) => Some(None),
        Some(Some(t)) => Some(Some(t@)),
    }
}

/// Checks the version that a request asks for: a request without the
/// header passes; one whose header is not a version is refused; one whose
/// version, taken as a caret range, does not match the implemented version
/// is refused. A request that names the implemented version passes.
pub fn check_version_header(header: Option<Option<&str>>) -> (r: Option<(u16, String)>)
    ensures
        match r {
            None => version_header_refusal(header_view(header)) is None,
            Some((code, message)) => version_header_refusal(header_view(header)) == Some((code, message@)),
        },
        header_view(header) == Some(Some(VERSION@)) && crate::versions::version_error(VERSION@) is None ==> r is None,
{
    let version = match header {
        None => {
            return None;
        },
        Some(None) => {
            let m = crate::strings::concat3("Invalid ", VERSION_HEADER_NAME, " header, expected a semver version string");
            return Some((400, m));
        },
        Some(Some(v)) => v,
    };
    if crate::versions::check_version(version).is_some() {
        let m = crate::strings::concat3("Invalid ", VERSION_HEADER_NAME, " header, expected a semver version string");
        return Some((400, m));
    }
    if crate::versions::caret_matches(version, VERSION) {
        None
    } else {
        let head = crate::strings::concat3("NDC version range ^", version, " does not match implemented version ");
        let m = crate::strings::concat3(head.as_str(), VERSION, "");
        proof {
            reveal_strlit("");
            assert(m@ =~= "NDC version range ^"@ + version@ + " does not match implemented version "@ + VERSION@);
        }
        Some((400, m))
    }
}

/// The capabilities of the reference service.
pub open spec fn reference_capabilities() -> Capabilities {
    Capabilities {
        query: QueryCapabilities {
            aggregates: Some(
                AggregateCapabilities {
                    filter_by: Some(LeafCapability {  }),
                    group_by: Some(
                        GroupByCapabilities {
                            filter: Some(LeafCapability {  }),
                            order: Some(LeafCapability {  }),
                            paginate: Some(LeafCapability {  }),
                        },
                    ),
                },
            ),
            variables: Some(LeafCapability {  }),
            explain: None,
            nested_fields: NestedFieldCapabilities {
                filter_by: Some(
                    NestedFieldFilterByCapabilities {
                        nested_arrays: Some(
                            NestedArrayFilterByCapabilities {
                                contains: Some(LeafCapability {  }),
                                is_empty: Some(LeafCapability {  }),
                            },
                        ),
                    },
                ),
                order_by: Some(LeafCapability {  }),
                aggregates: Some(LeafCapability {  }),
                nested_collections: Some(LeafCapability {  }),
            },
            exists: ExistsCapabilities {
                named_scopes: Some(LeafCapability {  }),
                unrelated: Some(LeafCapability {  }),
                nested_collections: Some(LeafCapability {  }),
                nested_scalar_collections: Some(LeafCapability {  }),
            },
        },
        mutation: MutationCapabilities { transactional: None, explain: None },
        relationships: Some(
            RelationshipCapabilities {
                relation_comparisons: Some(LeafCapability {  }),
                order_by_aggregate: Some(LeafCapability {  }),
                nested: Some(
                    NestedRelationshipCapabilities {
                        array: Some(LeafCapability {  }),
                        filtering: Some(LeafCapability {  }),
                        ordering: Some(LeafCapability {  }),
                    },
                ),
            },
        ),
        relational_query: None,
    }
}

/// The capabilities of the reference service: queries with aggregates,
/// grouping, variables, nested fields and every kind of `exists`;
/// relationships; no explain, transactions or relational queries.
pub fn get_capabilities() -> (r: CapabilitiesResponse)
    ensures
        r.version@ == VERSION@,
        r.capabilities == reference_capabilities(),
{
    CapabilitiesResponse {
        version: VERSION.to_string(),
        capabilities: Capabilities {
            query: QueryCapabilities {
                aggregates: Some(
                    AggregateCapabilities {
                        filter_by: Some(LeafCapability {  }),
                        group_by: Some(
                            GroupByCapabilities {
                                filter: Some(LeafCapability {  }),
                                order: Some(LeafCapability {  }),
                                paginate: Some(LeafCapability {  }),
                            },
                        ),
                    },
                ),
                variables: Some(LeafCapability {  }),
                explain: None,
                nested_fields: NestedFieldCapabilities {
                    filter_by: Some(
                        NestedFieldFilterByCapabilities {
                            nested_arrays: Some(
                                NestedArrayFilterByCapabilities {
                                    contains: Some(LeafCapability {  }),
                                    is_empty: Some(LeafCapability {  }),
                                },
                            ),
                        },
                    ),
                    order_by: Some(LeafCapability {  }),
                    aggregates: Some(LeafCapability {  }),
                    nested_collections: Some(LeafCapability {  }),
                },
                exists: ExistsCapabilities {
                    named_scopes: Some(LeafCapability {  }),
                    unrelated: Some(LeafCapability {  }),
                    nested_collections: Some(LeafCapability {  }),
                    nested_scalar_collections: Some(LeafCapability {  }),
                },
            },
            mutation: MutationCapabilities { transactional: None, explain: None },
            relationships: Some(
                RelationshipCapabilities {
                    relation_comparisons: Some(LeafCapability {  }),
                    order_by_aggregate: Some(LeafCapability {  }),
                    nested: Some(
                        NestedRelationshipCapabilities {
                            array: Some(LeafCapability {  }),
                            filtering: Some(LeafCapability {  }),
                            ordering: Some(LeafCapability {  }),
                        },
                    ),
                },
            ),
            relational_query: None,
        },
    }
}

fn named(name: &str) -> (t: Type)
    ensures
        t == (Type::Named { name: t->Named_name }),
        t->Named_name@ == name@,
{
    Type::Named { name: name.to_string() }
}

/// Whether a type is the named type `name`.
pub open spec fn is_named(t: Type, name: Seq<char>) -> bool {
    t matches Type::Named { name: n } && n@ == name
}

/// Whether an optional text is present and reads `text`.
pub open spec fn has_text(o: Option<String>, text: Seq<char>) -> bool {
    o matches Some(s) && s@ == text
}

/// The arguments of an array column: only `limit`, a nullable `Int`,
/// without description.
pub open spec fn is_limit_arguments(d: Dict<ArgumentInfo>) -> bool {
    &&& d.items().len() == 1
    &&& d.items()[0].0 == "limit"@
    &&& d.items()[0].1.description is None
    &&& d.items()[0].1.argument_type matches Type::Nullable { underlying_type } && is_named(
        *underlying_type,
        "Int"@,
    )
}

/// A column of a named type, with a description and no arguments.
pub open spec fn is_plain_field(f: ObjectField, description: Seq<char>, kind: Seq<char>) -> bool {
    &&& has_text(f.description, description)
    &&& is_named(f.field_type, kind)
    &&& f.arguments.items().len() == 0
}

/// A column holding an array of a named type, with a description and the
/// `limit` argument.
pub open spec fn is_array_field(f: ObjectField, description: Seq<char>, element: Seq<char>) -> bool {
    &&& has_text(f.description, description)
    &&& f.field_type matches Type::Array { element_type } && is_named(*element_type, element)
    &&& is_limit_arguments(f.arguments)
}

/// The comparison operators of ordered numbers, by name.
pub open spec fn number_operator_entries() -> Seq<(Seq<char>, ComparisonOperatorDefinition)> {
    seq![
        ("eq"@, ComparisonOperatorDefinition::Equal),
        ("gt"@, ComparisonOperatorDefinition::GreaterThan),
        ("gte"@, ComparisonOperatorDefinition::GreaterThanOrEqual),
        ("in"@, ComparisonOperatorDefinition::In),
        ("lt"@, ComparisonOperatorDefinition::LessThan),
        ("lte"@, ComparisonOperatorDefinition::LessThanOrEqual),
    ]
}

/// The aggregate functions of numbers: `avg` giving a `Float`, `max`,
/// `min`, and `sum` giving `sum_type`.
pub open spec fn is_number_aggregates(d: Dict<AggregateFunctionDefinition>, sum_type: Seq<char>) -> bool {
    &&& d.items().len() == 4
    &&& d.items()[0].0 == "avg"@
    &&& d.items()[0].1 matches AggregateFunctionDefinition::Average { result_type } && result_type@ == "Float"@
    &&& d.items()[1] == ("max"@, AggregateFunctionDefinition::Max)
    &&& d.items()[2] == ("min"@, AggregateFunctionDefinition::Min)
    &&& d.items()[3].0 == "sum"@
    &&& d.items()[3].1 matches AggregateFunctionDefinition::Sum { result_type } && result_type@ == sum_type
}

/// A foreign key from `column` to the `id` of `collection`.
pub open spec fn is_foreign_key(k: ForeignKeyConstraint, column: Seq<char>, collection: Seq<char>) -> bool {
    &&& k.foreign_collection@ == collection
    &&& k.column_mapping.items().len() == 1
    &&& k.column_mapping.items()[0].0 == column
    &&& crate::error::path_view(k.column_mapping.items()[0].1@) == seq!["id"@]
}

/// The string scalar type: strings, compared by the string operators and
/// aggregated by `max` and `min`.
pub open spec fn is_string_scalar(s: ScalarType) -> bool {
    &&& s.representation == TypeRepresentation::String
    &&& s.aggregate_functions.items() == seq![
        ("max"@, AggregateFunctionDefinition::Max),
        ("min"@, AggregateFunctionDefinition::Min),
    ]
    &&& is_string_operators(s.comparison_operators)
    &&& s.extraction_functions.items().len() == 0
}

/// The date scalar type: dates, compared by `eq` and `in`, with day,
/// month and year extractions giving `Int`s.
pub open spec fn is_date_scalar(s: ScalarType) -> bool {
    &&& s.representation == TypeRepresentation::Date
    &&& s.aggregate_functions.items().len() == 0
    &&& s.comparison_operators.items() == seq![
        ("eq"@, ComparisonOperatorDefinition::Equal),
        ("in"@, ComparisonOperatorDefinition::In),
    ]
    &&& s.extraction_functions.items().len() == 3
    &&& is_int_extraction(s.extraction_functions.items()[0], "day"@, ExtractionFunctionType::Day)
    &&& is_int_extraction(s.extraction_functions.items()[1], "month"@, ExtractionFunctionType::Month)
    &&& is_int_extraction(s.extraction_functions.items()[2], "year"@, ExtractionFunctionType::Year)
}

/// The object type of articles.
pub open spec fn is_article_type(t: ObjectType) -> bool {
    &&& has_text(t.description, "An article"@)
    &&& t.fields.items().len() == 4
    &&& t.fields.items()[0].0 == "author_id"@
    &&& is_plain_field(t.fields.items()[0].1, "The article's author ID"@, "Int"@)
    &&& t.fields.items()[1].0 == "id"@
    &&& is_plain_field(t.fields.items()[1].1, "The article's primary key"@, "Int"@)
    &&& t.fields.items()[2].0 == "published_date"@
    &&& is_plain_field(t.fields.items()[2].1, "The article's date of publication"@, "Date"@)
    &&& t.fields.items()[3].0 == "title"@
    &&& is_plain_field(t.fields.items()[3].1, "The article's title"@, "String"@)
    &&& t.foreign_keys.items().len() == 1
    &&& t.foreign_keys.items()[0].0 == "Article_AuthorID"@
    &&& is_foreign_key(t.foreign_keys.items()[0].1, "author_id"@, "authors"@)
}

/// The object type of authors.
pub open spec fn is_author_type(t: ObjectType) -> bool {
    &&& has_text(t.description, "An author"@)
    &&& t.fields.items().len() == 3
    &&& t.fields.items()[0].0 == "first_name"@
    &&& is_plain_field(t.fields.items()[0].1, "The author's first name"@, "String"@)
    &&& t.fields.items()[1].0 == "id"@
    &&& is_plain_field(t.fields.items()[1].1, "The author's primary key"@, "Int"@)
    &&& t.fields.items()[2].0 == "last_name"@
    &&& is_plain_field(t.fields.items()[2].1, "The author's last name"@, "String"@)
    &&& t.foreign_keys.items().len() == 0
}

/// The object type of cities.
pub open spec fn is_city_type(t: ObjectType) -> bool {
    &&& has_text(t.description, "A city"@)
    &&& t.fields.items().len() == 1
    &&& t.fields.items()[0].0 == "name"@
    &&& is_plain_field(t.fields.items()[0].1, "The institution's name"@, "String"@)
    &&& t.foreign_keys.items().len() == 0
}

/// The object type of countries.
pub open spec fn is_country_type(t: ObjectType) -> bool {
    &&& has_text(t.description, "A country"@)
    &&& t.fields.items().len() == 4
    &&& t.fields.items()[0].0 == "area_km2"@
    &&& is_plain_field(t.fields.items()[0].1, "The country's area size in square kilometers"@, "Int"@)
    &&& t.fields.items()[1].0 == "cities"@
    &&& is_array_field(t.fields.items()[1].1, "The cities in the country"@, "city"@)
    &&& t.fields.items()[2].0 == "id"@
    &&& is_plain_field(t.fields.items()[2].1, "The country's primary key"@, "Int"@)
    &&& t.fields.items()[3].0 == "name"@
    &&& is_plain_field(t.fields.items()[3].1, "The country's name"@, "String"@)
    &&& t.foreign_keys.items().len() == 0
}

/// The object type of institutions.
pub open spec fn is_institution_type(t: ObjectType) -> bool {
    &&& has_text(t.description, "An institution"@)
    &&& t.fields.items().len() == 5
    &&& t.fields.items()[0].0 == "departments"@
    &&& is_array_field(t.fields.items()[0].1, "The institution's departments"@, "String"@)
    &&& t.fields.items()[1].0 == "id"@
    &&& is_plain_field(t.fields.items()[1].1, "The institution's primary key"@, "Int"@)
    &&& t.fields.items()[2].0 == "location"@
    &&& is_plain_field(t.fields.items()[2].1, "The institution's location"@, "location"@)
    &&& t.fields.items()[3].0 == "name"@
    &&& is_plain_field(t.fields.items()[3].1, "The institution's name"@, "String"@)
    &&& t.fields.items()[4].0 == "staff"@
    &&& is_array_field(t.fields.items()[4].1, "The institution's staff"@, "staff_member"@)
    &&& t.foreign_keys.items().len() == 0
}

/// The object type of locations.
pub open spec fn is_location_type(t: ObjectType) -> bool {
    &&& has_text(t.description, "A location"@)
    &&& t.fields.items().len() == 4
    &&& t.fields.items()[0].0 == "campuses"@
    &&& is_array_field(t.fields.items()[0].1, "The location's campuses"@, "String"@)
    &&& t.fields.items()[1].0 == "city"@
    &&& is_plain_field(t.fields.items()[1].1, "The location's city"@, "String"@)
    &&& t.fields.items()[2].0 == "country"@
    &&& is_plain_field(t.fields.items()[2].1, "The location's country"@, "String"@)
    &&& t.fields.items()[3].0 == "country_id"@
    &&& is_plain_field(t.fields.items()[3].1, "The location's country ID"@, "Int"@)
    &&& t.foreign_keys.items().len() == 1
    &&& t.foreign_keys.items()[0].0 == "Location_CountryID"@
    &&& is_foreign_key(t.foreign_keys.items()[0].1, "country_id"@, "countries"@)
}

/// The object type of staff members.
pub open spec fn is_staff_member_type(t: ObjectType) -> bool {
    &&& has_text(t.description, "A staff member"@)
    &&& t.fields.items().len() == 4
    &&& t.fields.items()[0].0 == "born_country_id"@
    &&& is_plain_field(t.fields.items()[0].1, "The ID of the country the staff member was born in"@, "Int"@)
    &&& t.fields.items()[1].0 == "first_name"@
    &&& is_plain_field(t.fields.items()[1].1, "The staff member's first name"@, "String"@)
    &&& t.fields.items()[2].0 == "last_name"@
    &&& is_plain_field(t.fields.items()[2].1, "The staff member's last name"@, "String"@)
    &&& t.fields.items()[3].0 == "specialities"@
    &&& is_array_field(t.fields.items()[3].1, "The staff member's specialities"@, "String"@)
    &&& t.foreign_keys.items().len() == 1
    &&& t.foreign_keys.items()[0].0 == "Staff_BornCountryID"@
    &&& is_foreign_key(t.foreign_keys.items()[0].1, "born_country_id"@, "countries"@)
}

/// A number scalar type of a representation: compared by the number
/// operators, aggregated by the number aggregates with sums of `sum_type`.
pub open spec fn is_number_scalar(s: ScalarType, representation: TypeRepresentation, sum_type: Seq<char>) -> bool {
    &&& s.representation == representation
    &&& is_number_aggregates(s.aggregate_functions, sum_type)
    &&& s.comparison_operators.items() == number_operator_entries()
    &&& s.extraction_functions.items().len() == 0
}

fn nullable(t: Type) -> (r: Type)
    ensures
        r == (Type::Nullable { underlying_type: Box::new(t) }),
{
    Type::Nullable { underlying_type: Box::new(t) }
}

fn array_of(t: Type) -> (r: Type)
    ensures
        r == (Type::Array { element_type: Box::new(t) }),
{
    Type::Array { element_type: Box::new(t) }
}

/// The `limit` argument of an array column: a nullable integer.
fn limit_arguments() -> (d: Dict<ArgumentInfo>)
    ensures
        is_limit_arguments(d),
{
    let mut d = Dict::new();
    d.insert("limit".to_string(), ArgumentInfo { description: None, argument_type: nullable(named("Int")) });
    d
}

fn field(description: &str, field_type: Type) -> (f: ObjectField)
    ensures
        has_text(f.description, description@),
        f.field_type == field_type,
        f.arguments.items().len() == 0,
{
    ObjectField { description: Some(description.to_string()), field_type, arguments: Dict::new() }
}

fn array_field(description: &str, element: &str) -> (f: ObjectField)
    ensures
        is_array_field(f, description@, element@),
{
    ObjectField {
        description: Some(description.to_string()),
        field_type: array_of(named(element)),
        arguments: limit_arguments(),
    }
}

/// The comparison operators of ordered numbers.
fn number_operators() -> (d: Dict<ComparisonOperatorDefinition>)
    ensures
        d.items() == number_operator_entries(),
{
    Dict::from_entries(
        vec![
            ("eq".to_string(), ComparisonOperatorDefinition::Equal),
            ("gt".to_string(), ComparisonOperatorDefinition::GreaterThan),
            ("gte".to_string(), ComparisonOperatorDefinition::GreaterThanOrEqual),
            ("in".to_string(), ComparisonOperatorDefinition::In),
            ("lt".to_string(), ComparisonOperatorDefinition::LessThan),
            ("lte".to_string(), ComparisonOperatorDefinition::LessThanOrEqual),
        ],
    )
}

/// The aggregate functions of numbers: sums of the given type, averages as
/// floats.
fn number_aggregates(sum_type: &str) -> (d: Dict<AggregateFunctionDefinition>)
    ensures
        is_number_aggregates(d, sum_type@),
{
    Dict::from_entries(
        vec![
            ("avg".to_string(), AggregateFunctionDefinition::Average { result_type: "Float".to_string() }),
            ("max".to_string(), AggregateFunctionDefinition::Max),
            ("min".to_string(), AggregateFunctionDefinition::Min),
            ("sum".to_string(), AggregateFunctionDefinition::Sum { result_type: sum_type.to_string() }),
        ],
    )
}

fn number_type(representation: TypeRepresentation, sum_type: &str) -> (s: ScalarType)
    ensures
        is_number_scalar(s, representation, sum_type@),
{
    ScalarType {
        representation,
        aggregate_functions: number_aggregates(sum_type),
        comparison_operators: number_operators(),
        extraction_functions: Dict::new(),
    }
}

/// The comparison operators of strings, by name; `like` takes a `String`.
pub open spec fn is_string_operators(d: Dict<ComparisonOperatorDefinition>) -> bool {
    &&& d.items().len() == 13
    &&& d.items()[0] == ("contains"@, ComparisonOperatorDefinition::Contains)
    &&& d.items()[1] == ("ends_with"@, ComparisonOperatorDefinition::EndsWith)
    &&& d.items()[2] == ("eq"@, ComparisonOperatorDefinition::Equal)
    &&& d.items()[3] == ("gt"@, ComparisonOperatorDefinition::GreaterThan)
    &&& d.items()[4] == ("gte"@, ComparisonOperatorDefinition::GreaterThanOrEqual)
    &&& d.items()[5] == ("icontains"@, ComparisonOperatorDefinition::ContainsInsensitive)
    &&& d.items()[6] == ("iends_with"@, ComparisonOperatorDefinition::EndsWithInsensitive)
    &&& d.items()[7] == ("in"@, ComparisonOperatorDefinition::In)
    &&& d.items()[8] == ("istarts_with"@, ComparisonOperatorDefinition::StartsWithInsensitive)
    &&& d.items()[9].0 == "like"@
    &&& d.items()[9].1 matches ComparisonOperatorDefinition::Custom { argument_type } && is_named(
        argument_type,
        "String"@,
    )
    &&& d.items()[10] == ("lt"@, ComparisonOperatorDefinition::LessThan)
    &&& d.items()[11] == ("lte"@, ComparisonOperatorDefinition::LessThanOrEqual)
    &&& d.items()[12] == ("starts_with"@, ComparisonOperatorDefinition::StartsWith)
}

/// An extraction function giving an `Int`.
pub open spec fn is_int_extraction(e: (Seq<char>, ExtractionFunctionDefinition), name: Seq<char>, f: ExtractionFunctionType) -> bool {
    e.0 == name && e.1.result_type@ == "Int"@ && e.1.function_type == f
}

fn string_type() -> (s: ScalarType)
    ensures
        is_string_scalar(s),
{
    let aggregates = Dict::from_entries(
        vec![
            ("max".to_string(), AggregateFunctionDefinition::Max),
            ("min".to_string(), AggregateFunctionDefinition::Min),
        ],
    );
    let operators = Dict::from_entries(
        vec![
            ("contains".to_string(), ComparisonOperatorDefinition::Contains),
            ("ends_with".to_string(), ComparisonOperatorDefinition::EndsWith),
            ("eq".to_string(), ComparisonOperatorDefinition::Equal),
            ("gt".to_string(), ComparisonOperatorDefinition::GreaterThan),
            ("gte".to_string(), ComparisonOperatorDefinition::GreaterThanOrEqual),
            ("icontains".to_string(), ComparisonOperatorDefinition::ContainsInsensitive),
            ("iends_with".to_string(), ComparisonOperatorDefinition::EndsWithInsensitive),
            ("in".to_string(), ComparisonOperatorDefinition::In),
            ("istarts_with".to_string(), ComparisonOperatorDefinition::StartsWithInsensitive),
            ("like".to_string(), ComparisonOperatorDefinition::Custom { argument_type: named("String") }),
            ("lt".to_string(), ComparisonOperatorDefinition::LessThan),
            ("lte".to_string(), ComparisonOperatorDefinition::LessThanOrEqual),
            ("starts_with".to_string(), ComparisonOperatorDefinition::StartsWith),
        ],
    );
    proof {
        assert(aggregates.items() =~= seq![
            ("max"@, AggregateFunctionDefinition::Max),
            ("min"@, AggregateFunctionDefinition::Min),
        ]);
    }
    ScalarType {
        representation: TypeRepresentation::String,
        aggregate_functions: aggregates,
        comparison_operators: operators,
        extraction_functions: Dict::new(),
    }
}

fn date_type() -> (s: ScalarType)
    ensures
        is_date_scalar(s),
{
    let operators = Dict::from_entries(
        vec![
            ("eq".to_string(), ComparisonOperatorDefinition::Equal),
            ("in".to_string(), ComparisonOperatorDefinition::In),
        ],
    );
    let extractions = Dict::from_entries(
        vec![
            (
                "day".to_string(),
                ExtractionFunctionDefinition { result_type: "Int".to_string(), function_type: ExtractionFunctionType::Day },
            ),
            (
                "month".to_string(),
                ExtractionFunctionDefinition { result_type: "Int".to_string(), function_type: ExtractionFunctionType::Month },
            ),
            (
                "year".to_string(),
                ExtractionFunctionDefinition { result_type: "Int".to_string(), function_type: ExtractionFunctionType::Year },
            ),
        ],
    );
    proof {
        assert(operators.items() =~= seq![
            ("eq"@, ComparisonOperatorDefinition::Equal),
            ("in"@, ComparisonOperatorDefinition::In),
        ]);
    }
    ScalarType {
        representation: TypeRepresentation::Date,
        aggregate_functions: Dict::new(),
        comparison_operators: operators,
        extraction_functions: extractions,
    }
}

/// A foreign key from one column to the `id` of a collection.
fn foreign_key(column: &str, collection: &str) -> (k: ForeignKeyConstraint)
    ensures
        is_foreign_key(k, column@, collection@),
{
    let mapping = Dict::from_entries(vec![(column.to_string(), vec!["id".to_string()])]);
    let k = ForeignKeyConstraint { column_mapping: mapping, foreign_collection: collection.to_string() };
    proof {
        assert(crate::error::path_view(k.column_mapping.items()[0].1@) =~= seq!["id"@]);
    }
    k
}

fn article_type() -> (t: ObjectType)
    ensures
        is_article_type(t),
{
    let fields = Dict::from_entries(
        vec![
            ("author_id".to_string(), field("The article's author ID", named("Int"))),
            ("id".to_string(), field("The article's primary key", named("Int"))),
            ("published_date".to_string(), field("The article's date of publication", named("Date"))),
            ("title".to_string(), field("The article's title", named("String"))),
        ],
    );
    let keys = Dict::from_entries(vec![("Article_AuthorID".to_string(), foreign_key("author_id", "authors"))]);
    ObjectType { description: Some("An article".to_string()), fields, foreign_keys: keys }
}

fn author_type() -> (t: ObjectType)
    ensures
        is_author_type(t),
{
    let fields = Dict::from_entries(
        vec![
            ("first_name".to_string(), field("The author's first name", named("String"))),
            ("id".to_string(), field("The author's primary key", named("Int"))),
            ("last_name".to_string(), field("The author's last name", named("String"))),
        ],
    );
    ObjectType { description: Some("An author".to_string()), fields, foreign_keys: Dict::new() }
}

fn city_type() -> (t: ObjectType)
    ensures
        is_city_type(t),
{
    let fields = Dict::from_entries(vec![("name".to_string(), field("The institution's name", named("String")))]);
    ObjectType { description: Some("A city".to_string()), fields, foreign_keys: Dict::new() }
}

fn country_type() -> (t: ObjectType)
    ensures
        is_country_type(t),
{
    let fields = Dict::from_entries(
        vec![
            ("area_km2".to_string(), field("The country's area size in square kilometers", named("Int"))),
            ("cities".to_string(), array_field("The cities in the country", "city")),
            ("id".to_string(), field("The country's primary key", named("Int"))),
            ("name".to_string(), field("The country's name", named("String"))),
        ],
    );
    ObjectType { description: Some("A country".to_string()), fields, foreign_keys: Dict::new() }
}

fn institution_type() -> (t: ObjectType)
    ensures
        is_institution_type(t),
{
    let fields = Dict::from_entries(
        vec![
            ("departments".to_string(), array_field("The institution's departments", "String")),
            ("id".to_string(), field("The institution's primary key", named("Int"))),
            ("location".to_string(), field("The institution's location", named("location"))),
            ("name".to_string(), field("The institution's name", named("String"))),
            ("staff".to_string(), array_field("The institution's staff", "staff_member")),
        ],
    );
    ObjectType { description: Some("An institution".to_string()), fields, foreign_keys: Dict::new() }
}

fn location_type() -> (t: ObjectType)
    ensures
        is_location_type(t),
{
    let fields = Dict::from_entries(
        vec![
            ("campuses".to_string(), array_field("The location's campuses", "String")),
            ("city".to_string(), field("The location's city", named("String"))),
            ("country".to_string(), field("The location's country", named("String"))),
            ("country_id".to_string(), field("The location's country ID", named("Int"))),
        ],
    );
    let keys = Dict::from_entries(vec![("Location_CountryID".to_string(), foreign_key("country_id", "countries"))]);
    ObjectType { description: Some("A location".to_string()), fields, foreign_keys: keys }
}

fn staff_member_type() -> (t: ObjectType)
    ensures
        is_staff_member_type(t),
{
    let fields = Dict::from_entries(
        vec![
            (
                "born_country_id".to_string(),
                field("The ID of the country the staff member was born in", named("Int")),
            ),
            ("first_name".to_string(), field("The staff member's first name", named("String"))),
            ("last_name".to_string(), field("The staff member's last name", named("String"))),
            ("specialities".to_string(), array_field("The staff member's specialities", "String")),
        ],
    );
    let keys = Dict::from_entries(vec![("Staff_BornCountryID".to_string(), foreign_key("born_country_id", "countries"))]);
    ObjectType { description: Some("A staff member".to_string()), fields, foreign_keys: keys }
}

/// A collection of rows of an object type, unique by `id`: no arguments,
/// and one uniqueness constraint on `id`.
pub open spec fn is_table_collection(c: CollectionInfo, name: Seq<char>, description: Seq<char>, object_type: Seq<char>, constraint: Seq<char>) -> bool {
    &&& c.name@ == name
    &&& has_text(c.description, description)
    &&& c.arguments.items().len() == 0
    &&& c.collection_type@ == object_type
    &&& c.uniqueness_constraints.items().len() == 1
    &&& c.uniqueness_constraints.items()[0].0 == constraint
    &&& crate::error::path_view(c.uniqueness_constraints.items()[0].1.unique_columns@) == seq!["id"@]
}

/// A collection of rows of an object type, unique by `id`.
fn table_collection(name: &str, description: &str, object_type: &str, constraint: &str) -> (c: CollectionInfo)
    ensures
        is_table_collection(c, name@, description@, object_type@, constraint@),
{
    let constraints = Dict::from_entries(
        vec![(constraint.to_string(), UniquenessConstraint { unique_columns: vec!["id".to_string()] })],
    );
    let c = CollectionInfo {
        name: name.to_string(),
        description: Some(description.to_string()),
        arguments: Dict::new(),
        collection_type: object_type.to_string(),
        uniqueness_constraints: constraints,
    };
    proof {
        assert(crate::error::path_view(c.uniqueness_constraints.items()[0].1.unique_columns@) =~= seq!["id"@]);
    }
    c
}

/// The names of the collections of the reference schema.
pub open spec fn collection_names() -> Seq<Seq<char>> {
    seq!["articles"@, "authors"@, "institutions"@, "countries"@, "articles_by_author"@]
}

/// The names of the scalar types of the reference schema.
pub open spec fn scalar_type_names() -> Set<Seq<char>> {
    set!["Date"@, "Float"@, "Int"@, "Int64"@, "String"@]
}

/// The names of the object types of the reference schema.
pub open spec fn object_type_names() -> Set<Seq<char>> {
    set!["article"@, "author"@, "city"@, "country"@, "institution"@, "location"@, "staff_member"@]
}

/// The object types of the collections of the reference schema, in order.
pub open spec fn collection_types() -> Seq<Seq<char>> {
    seq!["article"@, "author"@, "institution"@, "country"@, "article"@]
}

/// The names of the functions of the reference schema.
pub open spec fn function_names() -> Seq<Seq<char>> {
    seq!["latest_article_id"@, "latest_article"@]
}

/// The names of the procedures of the reference schema.
pub open spec fn procedure_names() -> Seq<Seq<char>> {
    seq!["upsert_article"@, "delete_articles"@]
}

/// A nullable named type.
pub open spec fn is_nullable_named(t: Type, name: Seq<char>) -> bool {
    t matches Type::Nullable { underlying_type } && is_named(*underlying_type, name)
}

/// A single argument with a description and a type.
pub open spec fn is_one_argument(d: Dict<ArgumentInfo>, name: Seq<char>, description: Option<Seq<char>>) -> bool {
    &&& d.items().len() == 1
    &&& d.items()[0].0 == name
    &&& match description {
        Some(text) => has_text(d.items()[0].1.description, text),
        None => d.items()[0].1.description is None,
    }
}

/// The schema of the reference service, in full.
pub open spec fn is_reference_schema(r: SchemaResponse) -> bool {
    &&& r.scalar_types.items().len() == 5
    &&& r.scalar_types.items()[0].0 == "Date"@ && is_date_scalar(r.scalar_types.items()[0].1)
    &&& r.scalar_types.items()[1].0 == "Float"@ && is_number_scalar(r.scalar_types.items()[1].1, TypeRepresentation::Float64, "Float"@)
    &&& r.scalar_types.items()[2].0 == "Int"@ && is_number_scalar(r.scalar_types.items()[2].1, TypeRepresentation::Int32, "Int64"@)
    &&& r.scalar_types.items()[3].0 == "Int64"@ && is_number_scalar(r.scalar_types.items()[3].1, TypeRepresentation::Int64, "Int64"@)
    &&& r.scalar_types.items()[4].0 == "String"@ && is_string_scalar(r.scalar_types.items()[4].1)
    &&& r.object_types.items().len() == 7
    &&& r.object_types.items()[0].0 == "article"@ && is_article_type(r.object_types.items()[0].1)
    &&& r.object_types.items()[1].0 == "author"@ && is_author_type(r.object_types.items()[1].1)
    &&& r.object_types.items()[2].0 == "city"@ && is_city_type(r.object_types.items()[2].1)
    &&& r.object_types.items()[3].0 == "country"@ && is_country_type(r.object_types.items()[3].1)
    &&& r.object_types.items()[4].0 == "institution"@ && is_institution_type(r.object_types.items()[4].1)
    &&& r.object_types.items()[5].0 == "location"@ && is_location_type(r.object_types.items()[5].1)
    &&& r.object_types.items()[6].0 == "staff_member"@ && is_staff_member_type(r.object_types.items()[6].1)
    &&& r.collections.len() == 5
    &&& is_table_collection(r.collections@[0], "articles"@, "A collection of articles"@, "article"@, "ArticleByID"@)
    &&& is_table_collection(r.collections@[1], "authors"@, "A collection of authors"@, "author"@, "AuthorByID"@)
    &&& is_table_collection(r.collections@[2], "institutions"@, "A collection of institutions"@, "institution"@, "InstitutionByID"@)
    &&& is_table_collection(r.collections@[3], "countries"@, "A collection of countries"@, "country"@, "CountryByID"@)
    &&& r.collections@[4].name@ == "articles_by_author"@
    &&& has_text(r.collections@[4].description, "Articles parameterized by author"@)
    &&& is_one_argument(r.collections@[4].arguments, "author_id"@, None)
    &&& is_named(r.collections@[4].arguments.items()[0].1.argument_type, "Int"@)
    &&& r.collections@[4].collection_type@ == "article"@
    &&& r.collections@[4].uniqueness_constraints.items().len() == 0
    &&& r.functions.len() == 2
    &&& r.functions@[0].name@ == "latest_article_id"@
    &&& has_text(r.functions@[0].description, "Get the ID of the most recent article"@)
    &&& r.functions@[0].arguments.items().len() == 0
    &&& is_nullable_named(r.functions@[0].result_type, "Int"@)
    &&& r.functions@[1].name@ == "latest_article"@
    &&& has_text(r.functions@[1].description, "Get the most recent article"@)
    &&& r.functions@[1].arguments.items().len() == 0
    &&& is_nullable_named(r.functions@[1].result_type, "article"@)
    &&& r.procedures.len() == 2
    &&& r.procedures@[0].name@ == "upsert_article"@
    &&& has_text(r.procedures@[0].description, "Insert or update an article"@)
    &&& is_one_argument(r.procedures@[0].arguments, "article"@, Some("The article to insert or update"@))
    &&& is_named(r.procedures@[0].arguments.items()[0].1.argument_type, "article"@)
    &&& is_nullable_named(r.procedures@[0].result_type, "article"@)
    &&& r.procedures@[1].name@ == "delete_articles"@
    &&& has_text(r.procedures@[1].description, "Delete articles which match a predicate"@)
    &&& is_one_argument(r.procedures@[1].arguments, "where"@, Some("The predicate"@))
    &&& r.procedures@[1].arguments.items()[0].1.argument_type matches Type::Predicate { object_type_name }
        && object_type_name@ == "article"@
    &&& r.procedures@[1].result_type matches Type::Array { element_type } && is_named(*element_type, "article"@)
    &&& r.capabilities matches Some(c) && c.query matches Some(q) && q.aggregates matches Some(a)
        && a.count_scalar_type@ == "Int"@
}

/// The schema of the reference service: scalar types `Date`, `Float`,
/// `Int`, `Int64` and `String`; object types for articles, authors,
/// institutions, their locations and staff, countries and cities; the
/// collections `articles`, `authors`, `institutions`, `countries` and
/// `articles_by_author`; the functions `latest_article_id` and
/// `latest_article`; the procedures `upsert_article` and `delete_articles`.
/// Every check of a schema passes on it; every type that a field or a
/// field's argument names is defined; the result type of each extraction
/// function is a scalar type of it; its scalar types, its object types and
/// each object type's fields are listed in ascending order of their names.
pub fn get_schema() -> (r: SchemaResponse)
    ensures
        is_reference_schema(r),
        r.collections@.map_values(|c: CollectionInfo| c.name@) == collection_names(),
        r.functions@.map_values(|f: FunctionInfo| f.name@) == function_names(),
        r.procedures@.map_values(|p: ProcedureInfo| p.name@) == procedure_names(),
        r.scalar_types.map().dom() == scalar_type_names(),
        r.object_types.map().dom() == object_type_names(),
        r.collections@.map_values(|c: CollectionInfo| c.collection_type@) == collection_types(),
        forall|i: int| 0 <= i < r.collections.len() ==> r.object_types.map().contains_key(#[trigger] r.collections@[i].collection_type@),
        forall|i: int| 0 <= i < schema_checks(r).len() ==> (#[trigger] schema_checks(r)[i]).1 is None,
        forall|i: int, j: int|
            0 <= i < r.scalar_types.items().len() && 0 <= j < r.scalar_types.items()[i].1.extraction_functions.items().len()
                ==> r.scalar_types.map().contains_key(
                #[trigger] r.scalar_types.items()[i].1.extraction_functions.items()[j].1.result_type@,
            ),
        crate::common::keys_ascending(r.scalar_types.items()),
        crate::common::keys_ascending(r.object_types.items()),
        forall|i: int| 0 <= i < r.object_types.items().len() ==> crate::common::keys_ascending(
            (#[trigger] r.object_types.items()[i]).1.fields.items(),
        ),
        forall|k: int, i: int|
            0 <= k < r.object_types.items().len() && 0 <= i < r.object_types.items()[k].1.fields.items().len()
                ==> type_fault(r, (#[trigger] r.object_types.items()[k].1.fields.items()[i]).1.field_type) is None,
        forall|k: int, i: int, m: int|
            0 <= k < r.object_types.items().len() && 0 <= i < r.object_types.items()[k].1.fields.items().len() && 0 <= m
                < r.object_types.items()[k].1.fields.items()[i].1.arguments.items().len() ==> type_fault(
                r,
                (#[trigger] r.object_types.items()[k].1.fields.items()[i].1.arguments.items()[m]).1.argument_type,
            ) is None,
{
    let scalar_types = Dict::from_entries(
        vec![
            ("Date".to_string(), date_type()),
            ("Float".to_string(), number_type(TypeRepresentation::Float64, "Float")),
            ("Int".to_string(), number_type(TypeRepresentation::Int32, "Int64")),
            ("Int64".to_string(), number_type(TypeRepresentation::Int64, "Int64")),
            ("String".to_string(), string_type()),
        ],
    );
    let object_types = Dict::from_entries(
        vec![
            ("article".to_string(), article_type()),
            ("author".to_string(), author_type()),
            ("city".to_string(), city_type()),
            ("country".to_string(), country_type()),
            ("institution".to_string(), institution_type()),
            ("location".to_string(), location_type()),
            ("staff_member".to_string(), staff_member_type()),
        ],
    );
    let author_argument = Dict::from_entries(
        vec![("author_id".to_string(), ArgumentInfo { description: None, argument_type: named("Int") })],
    );
    let collections = vec![
        table_collection("articles", "A collection of articles", "article", "ArticleByID"),
        table_collection("authors", "A collection of authors", "author", "AuthorByID"),
        table_collection("institutions", "A collection of institutions", "institution", "InstitutionByID"),
        table_collection("countries", "A collection of countries", "country", "CountryByID"),
        CollectionInfo {
            name: "articles_by_author".to_string(),
            description: Some("Articles parameterized by author".to_string()),
            arguments: author_argument,
            collection_type: "article".to_string(),
            uniqueness_constraints: Dict::new(),
        },
    ];
    let article_argument = Dict::from_entries(
        vec![
            (
                "article".to_string(),
                ArgumentInfo { description: Some("The article to insert or update".to_string()), argument_type: named("article") },
            ),
        ],
    );
    let where_argument = Dict::from_entries(
        vec![
            (
                "where".to_string(),
                ArgumentInfo {
                    description: Some("The predicate".to_string()),
                    argument_type: Type::Predicate { object_type_name: "article".to_string() },
                },
            ),
        ],
    );
    let procedures = vec![
        ProcedureInfo {
            name: "upsert_article".to_string(),
            description: Some("Insert or update an article".to_string()),
            arguments: article_argument,
            result_type: nullable(named("article")),
        },
        ProcedureInfo {
            name: "delete_articles".to_string(),
            description: Some("Delete articles which match a predicate".to_string()),
            arguments: where_argument,
            result_type: array_of(named("article")),
        },
    ];
    let functions = vec![
        FunctionInfo {
            name: "latest_article_id".to_string(),
            description: Some("Get the ID of the most recent article".to_string()),
            arguments: Dict::new(),
            result_type: nullable(named("Int")),
        },
        FunctionInfo {
            name: "latest_article".to_string(),
            description: Some("Get the most recent article".to_string()),
            arguments: Dict::new(),
            result_type: nullable(named("article")),
        },
    ];
    let capabilities = Some(
        CapabilitySchemaInfo {
            query: Some(
                QueryCapabilitiesSchemaInfo {
                    aggregates: Some(AggregateCapabilitiesSchemaInfo { count_scalar_type: "Int".to_string() }),
                },
            ),
        },
    );
    let r = SchemaResponse { scalar_types, object_types, collections, functions, procedures, capabilities };
    proof {
        assert(is_reference_schema(r));
        assert(r.collections@.map_values(|c: CollectionInfo| c.name@) =~= collection_names());
        assert(r.functions@.map_values(|f: FunctionInfo| f.name@) =~= function_names());
        assert(r.procedures@.map_values(|p: ProcedureInfo| p.name@) =~= procedure_names());
        lemma_reference_names(r);
        assert(r.collections@.map_values(|c: CollectionInfo| c.collection_type@) =~= collection_types());
        lemma_reference_schema_valid(r);
        lemma_reference_names_ascend(r);
    }
    r
}

/// Outcomes that are all passes have no first fault.
proof fn lemma_no_fault(s: Seq<Option<Fault>>)
    requires
        forall|i: int| 0 <= i < s.len() ==> (#[trigger] s[i]) is None,
    ensures
        first_fault(s) is None,
    decreases s.len(),
{
    if s.len() > 0 {
        assert forall|i: int| 0 <= i < s.drop_first().len() implies (#[trigger] s.drop_first()[i]) is None by {
            assert(s.drop_first()[i] == s[i + 1]);
        }
        lemma_no_fault(s.drop_first());
    }
}

/// Comparison operators with at most one equality, none after an earlier
/// one, and valid custom argument types have no fault.
proof fn lemma_operators_ok(
    schema: SchemaResponse,
    scalar_name: Seq<char>,
    ops: Seq<(Seq<char>, ComparisonOperatorDefinition)>,
    has_equality: bool,
)
    requires
        forall|i: int, j: int| 0 <= i < j < ops.len() ==> !((#[trigger] ops[i]).1 is Equal && (#[trigger] ops[j]).1 is Equal),
        has_equality ==> forall|i: int| 0 <= i < ops.len() ==> !((#[trigger] ops[i]).1 is Equal),
        forall|i: int| 0 <= i < ops.len() ==> ((#[trigger] ops[i]).1 matches ComparisonOperatorDefinition::Custom { argument_type } ==> type_fault(schema, argument_type) is None),
    ensures
        comparison_operators_fault(schema, scalar_name, ops, has_equality) is None,
    decreases ops.len(),
{
    if ops.len() > 0 {
        let rest = ops.drop_first();
        assert forall|i: int, j: int| 0 <= i < j < rest.len() implies !((#[trigger] rest[i]).1 is Equal && (#[trigger] rest[j]).1 is Equal) by {
            assert(rest[i] == ops[i + 1] && rest[j] == ops[j + 1]);
        }
        assert forall|i: int| 0 <= i < rest.len() implies ((#[trigger] rest[i]).1 matches ComparisonOperatorDefinition::Custom { argument_type } ==> type_fault(schema, argument_type) is None) by {
            assert(rest[i] == ops[i + 1]);
        }
        let now = has_equality || ops[0].1 is Equal;
        assert forall|i: int| now && 0 <= i < rest.len() implies !((#[trigger] rest[i]).1 is Equal) by {
            assert(rest[i] == ops[i + 1]);
            assert(ops[0] == ops[0]);
        }
        lemma_operators_ok(schema, scalar_name, rest, now);
    }
}

/// A named type of a defined name is valid.
proof fn lemma_named_ok(schema: SchemaResponse, t: Type, name: Seq<char>)
    requires
        is_named(t, name),
        schema.object_types.map().contains_key(name) || schema.scalar_types.map().contains_key(name),
    ensures
        type_fault(schema, t) is None,
{
}

/// A nullable or array type of a defined name is valid.
proof fn lemma_wrapped_ok(schema: SchemaResponse, t: Type, name: Seq<char>)
    requires
        (t matches Type::Nullable { underlying_type } && is_named(*underlying_type, name)) || (t matches Type::Array { element_type } && is_named(*element_type, name)),
        schema.object_types.map().contains_key(name) || schema.scalar_types.map().contains_key(name),
    ensures
        type_fault(schema, t) is None,
{
    reveal_with_fuel(type_fault, 2);
}

/// The names that the reference schema's types refer to.
pub open spec fn names_defined(r: SchemaResponse) -> bool {
    &&& r.scalar_types.map().contains_key("Date"@)
    &&& r.scalar_types.map().contains_key("Float"@)
    &&& r.scalar_types.map().contains_key("Int"@)
    &&& r.scalar_types.map().contains_key("Int64"@)
    &&& r.scalar_types.map().contains_key("String"@)
    &&& r.object_types.map().contains_key("article"@)
    &&& r.object_types.map().contains_key("author"@)
    &&& r.object_types.map().contains_key("city"@)
    &&& r.object_types.map().contains_key("country"@)
    &&& r.object_types.map().contains_key("institution"@)
    &&& r.object_types.map().contains_key("location"@)
    &&& r.object_types.map().contains_key("staff_member"@)
}

proof fn lemma_number_scalar_ok(r: SchemaResponse, name: Seq<char>, s: ScalarType, representation: TypeRepresentation, sum_type: Seq<char>)
    requires
        is_number_scalar(s, representation, sum_type),
        names_defined(r),
        sum_type == "Float"@ || sum_type == "Int64"@,
    ensures
        scalar_type_fault(r, name, s) is None,
{
    let a = aggregate_faults(r, s);
    assert forall|i: int| 0 <= i < a.len() implies (#[trigger] a[i]) is None by {
        assert(a[i] == aggregate_function_fault(r, s.aggregate_functions.items()[i].1));
    }
    lemma_no_fault(a);
    let ops = s.comparison_operators.items();
    assert(ops == number_operator_entries());
    lemma_operators_ok(r, name, ops, false);
}

proof fn lemma_string_scalar_ok(r: SchemaResponse, name: Seq<char>, s: ScalarType)
    requires
        is_string_scalar(s),
        names_defined(r),
    ensures
        scalar_type_fault(r, name, s) is None,
{
    let a = aggregate_faults(r, s);
    assert forall|i: int| 0 <= i < a.len() implies (#[trigger] a[i]) is None by {
        assert(a[i] == aggregate_function_fault(r, s.aggregate_functions.items()[i].1));
    }
    lemma_no_fault(a);
    let ops = s.comparison_operators.items();
    assert forall|i: int| 0 <= i < ops.len() implies ((#[trigger] ops[i]).1 matches ComparisonOperatorDefinition::Custom { argument_type } ==> type_fault(r, argument_type) is None) by {
        if i == 9 {
            if let ComparisonOperatorDefinition::Custom { argument_type } = ops[i].1 {
                lemma_named_ok(r, argument_type, "String"@);
            }
        }
    }
    lemma_operators_ok(r, name, ops, false);
}

proof fn lemma_date_scalar_ok(r: SchemaResponse, name: Seq<char>, s: ScalarType)
    requires
        is_date_scalar(s),
    ensures
        scalar_type_fault(r, name, s) is None,
{
    lemma_no_fault(aggregate_faults(r, s));
    lemma_operators_ok(r, name, s.comparison_operators.items(), false);
}

/// An object type whose fields' types are all valid has no fault.
proof fn lemma_fields_ok(r: SchemaResponse, t: ObjectType)
    requires
        forall|i: int| 0 <= i < t.fields.items().len() ==> type_fault(r, (#[trigger] t.fields.items()[i]).1.field_type) is None,
    ensures
        object_type_fault(r, t) is None,
{
    let f = field_type_faults(r, t);
    assert forall|i: int| 0 <= i < f.len() implies (#[trigger] f[i]) is None by {
        assert(f[i] == type_fault(r, t.fields.items()[i].1.field_type));
    }
    lemma_no_fault(f);
}

/// A field of the reference schema: a plain or array field of a name.
pub open spec fn field_of(f: ObjectField, name: Seq<char>) -> bool {
    is_named(f.field_type, name) || (f.field_type matches Type::Array { element_type } && is_named(*element_type, name))
}

proof fn lemma_field_ok(r: SchemaResponse, f: ObjectField, name: Seq<char>)
    requires
        field_of(f, name),
        r.object_types.map().contains_key(name) || r.scalar_types.map().contains_key(name),
    ensures
        type_fault(r, f.field_type) is None,
{
    if is_named(f.field_type, name) {
        lemma_named_ok(r, f.field_type, name);
    } else {
        lemma_wrapped_ok(r, f.field_type, name);
    }
}

/// Every object type of the reference schema has valid field types.
proof fn lemma_object_types_ok(r: SchemaResponse)
    requires
        is_reference_schema(r),
        names_defined(r),
    ensures
        object_types_fault(r) is None,
        forall|k: int, i: int|
            0 <= k < r.object_types.items().len() && 0 <= i < r.object_types.items()[k].1.fields.items().len()
                ==> type_fault(r, (#[trigger] r.object_types.items()[k].1.fields.items()[i]).1.field_type) is None,
        forall|k: int, i: int, m: int|
            0 <= k < r.object_types.items().len() && 0 <= i < r.object_types.items()[k].1.fields.items().len() && 0 <= m
                < r.object_types.items()[k].1.fields.items()[i].1.arguments.items().len() ==> type_fault(
                r,
                (#[trigger] r.object_types.items()[k].1.fields.items()[i].1.arguments.items()[m]).1.argument_type,
            ) is None,
{
    let ts = r.object_types.items();
    assert forall|k: int, i: int|
        0 <= k < ts.len() && 0 <= i < ts[k].1.fields.items().len() implies type_fault(r, (#[trigger] ts[k].1.fields.items()[i]).1.field_type) is None
            && (ts[k].1.fields.items()[i].1.arguments.items().len() == 0 || is_limit_arguments(ts[k].1.fields.items()[i].1.arguments)) by {
        let t = ts[k].1;
        let f = t.fields.items()[i].1;
        if k == 0 {
            if i == 2 { lemma_field_ok(r, f, "Date"@); } else if i == 3 { lemma_field_ok(r, f, "String"@); } else { lemma_field_ok(r, f, "Int"@); }
        } else if k == 1 {
            if i == 1 { lemma_field_ok(r, f, "Int"@); } else { lemma_field_ok(r, f, "String"@); }
        } else if k == 2 {
            lemma_field_ok(r, f, "String"@);
        } else if k == 3 {
            if i == 1 { lemma_field_ok(r, f, "city"@); } else if i == 3 { lemma_field_ok(r, f, "String"@); } else { lemma_field_ok(r, f, "Int"@); }
        } else if k == 4 {
            if i == 1 { lemma_field_ok(r, f, "Int"@); } else if i == 2 { lemma_field_ok(r, f, "location"@); } else if i == 4 { lemma_field_ok(r, f, "staff_member"@); } else { lemma_field_ok(r, f, "String"@); }
        } else if k == 5 {
            if i == 3 { lemma_field_ok(r, f, "Int"@); } else { lemma_field_ok(r, f, "String"@); }
        } else {
            if i == 0 { lemma_field_ok(r, f, "Int"@); } else { lemma_field_ok(r, f, "String"@); }
        }
    }
    assert forall|k: int, i: int, m: int|
        0 <= k < ts.len() && 0 <= i < ts[k].1.fields.items().len() && 0 <= m < ts[k].1.fields.items()[i].1.arguments.items().len()
            implies type_fault(r, (#[trigger] ts[k].1.fields.items()[i].1.arguments.items()[m]).1.argument_type) is None by {
        let f = ts[k].1.fields.items()[i].1;
        assert(f.arguments.items().len() == 0 || is_limit_arguments(f.arguments));
        lemma_wrapped_ok(r, f.arguments.items()[0].1.argument_type, "Int"@);
    }
    assert forall|k: int| 0 <= k < ts.len() implies object_type_fault(r, (#[trigger] ts[k]).1) is None by {
        let t = ts[k].1;
        assert forall|i: int| 0 <= i < t.fields.items().len() implies type_fault(r, (#[trigger] t.fields.items()[i]).1.field_type) is None by {
            assert(type_fault(r, ts[k].1.fields.items()[i].1.field_type) is None);
        }
        lemma_fields_ok(r, t);
    }
    let o = object_type_faults(r);
    assert forall|k: int| 0 <= k < o.len() implies (#[trigger] o[k]) is None by {
        assert(o[k] == object_type_fault(r, ts[k].1));
    }
    lemma_no_fault(o);
}

/// Every scalar type of the reference schema passes its checks.
proof fn lemma_scalar_types_ok(r: SchemaResponse)
    requires
        is_reference_schema(r),
        names_defined(r),
    ensures
        scalar_types_fault(r) is None,
{
    let ss = r.scalar_types.items();
    let f = scalar_faults(r);
    assert forall|k: int| 0 <= k < f.len() implies (#[trigger] f[k]) is None by {
        assert(f[k] == scalar_type_fault(r, ss[k].0, ss[k].1));
        if k == 0 {
            lemma_date_scalar_ok(r, ss[k].0, ss[k].1);
        } else if k == 1 {
            lemma_number_scalar_ok(r, ss[k].0, ss[k].1, TypeRepresentation::Float64, "Float"@);
        } else if k == 2 {
            lemma_number_scalar_ok(r, ss[k].0, ss[k].1, TypeRepresentation::Int32, "Int64"@);
        } else if k == 3 {
            lemma_number_scalar_ok(r, ss[k].0, ss[k].1, TypeRepresentation::Int64, "Int64"@);
        } else {
            lemma_string_scalar_ok(r, ss[k].0, ss[k].1);
        }
    }
    lemma_no_fault(f);
}

/// Arguments of no type, or of one valid type, have no fault.
proof fn lemma_arguments_ok(r: SchemaResponse, args: Dict<ArgumentInfo>)
    requires
        args.items().len() == 0 || (args.items().len() == 1 && type_fault(r, args.items()[0].1.argument_type) is None),
    ensures
        arguments_fault(r, args) is None,
{
    let a = argument_faults(r, args);
    assert forall|i: int| 0 <= i < a.len() implies (#[trigger] a[i]) is None by {
        assert(a[i] == type_fault(r, args.items()[i].1.argument_type));
    }
    lemma_no_fault(a);
}

/// The checks of the first `n` collections pass when each does.
proof fn lemma_collections_ok(r: SchemaResponse, n: nat)
    requires
        n <= r.collections.len(),
        forall|i: int| 0 <= i < n ==> (#[trigger] collection_checks(r, i))[0].1 is None && collection_checks(r, i)[1].1 is None,
    ensures
        forall|k: int| 0 <= k < collections_checks(r, n).len() ==> (#[trigger] collections_checks(r, n)[k]).1 is None,
    decreases n,
{
    if n > 0 {
        lemma_collections_ok(r, (n - 1) as nat);
        let c = collection_checks(r, n - 1);
        assert(c.len() == 2);
    }
}

/// The checks of the first `n` functions pass when each does.
proof fn lemma_functions_ok(r: SchemaResponse, n: nat)
    requires
        n <= r.functions.len(),
        forall|i: int| 0 <= i < n ==> (#[trigger] function_checks(r, i))[0].1 is None && function_checks(r, i)[1].1 is None,
    ensures
        forall|k: int| 0 <= k < functions_checks(r, n).len() ==> (#[trigger] functions_checks(r, n)[k]).1 is None,
    decreases n,
{
    if n > 0 {
        lemma_functions_ok(r, (n - 1) as nat);
        let c = function_checks(r, n - 1);
        assert(c.len() == 2);
    }
}

/// The checks of the first `n` procedures pass when each does.
proof fn lemma_procedures_ok(r: SchemaResponse, n: nat)
    requires
        n <= r.procedures.len(),
        forall|i: int| 0 <= i < n ==> (#[trigger] procedure_checks(r, i))[0].1 is None && procedure_checks(r, i)[1].1 is None,
    ensures
        forall|k: int| 0 <= k < procedures_checks(r, n).len() ==> (#[trigger] procedures_checks(r, n)[k]).1 is None,
    decreases n,
{
    if n > 0 {
        lemma_procedures_ok(r, (n - 1) as nat);
        let c = procedure_checks(r, n - 1);
        assert(c.len() == 2);
    }
}

/// The names of the reference schema's types are defined, and they are
/// exactly its scalar and object type names.
proof fn lemma_reference_names(r: SchemaResponse)
    requires
        is_reference_schema(r),
    ensures
        names_defined(r),
        r.scalar_types.map().dom() == scalar_type_names(),
        r.object_types.map().dom() == object_type_names(),
        forall|i: int| 0 <= i < r.collections.len() ==> r.object_types.map().contains_key(#[trigger] r.collections@[i].collection_type@),
        forall|i: int, j: int|
            0 <= i < r.scalar_types.items().len() && 0 <= j < r.scalar_types.items()[i].1.extraction_functions.items().len()
                ==> r.scalar_types.map().contains_key(
                #[trigger] r.scalar_types.items()[i].1.extraction_functions.items()[j].1.result_type@,
            ),
{
    let ss = r.scalar_types.items();
    let os = r.object_types.items();
    lemma_entries_has(ss, 0);
    lemma_entries_has(ss, 1);
    lemma_entries_has(ss, 2);
    lemma_entries_has(ss, 3);
    lemma_entries_has(ss, 4);
    lemma_entries_has(os, 0);
    lemma_entries_has(os, 1);
    lemma_entries_has(os, 2);
    lemma_entries_has(os, 3);
    lemma_entries_has(os, 4);
    lemma_entries_has(os, 5);
    lemma_entries_has(os, 6);
    assert forall|k: Seq<char>| r.scalar_types.map().contains_key(k) implies scalar_type_names().contains(k) by {
        lemma_entries_key(ss, k);
    }
    assert forall|k: Seq<char>| r.object_types.map().contains_key(k) implies object_type_names().contains(k) by {
        lemma_entries_key(os, k);
    }
    assert(r.scalar_types.map().dom() =~= scalar_type_names());
    assert(r.object_types.map().dom() =~= object_type_names());
}

/// The names of the reference schema's scalar and object types ascend.
proof fn lemma_reference_names_ascend(r: SchemaResponse)
    requires
        is_reference_schema(r),
    ensures
        crate::common::keys_ascending(r.scalar_types.items()),
        crate::common::keys_ascending(r.object_types.items()),
        forall|i: int| 0 <= i < r.object_types.items().len() ==> crate::common::keys_ascending(
            (#[trigger] r.object_types.items()[i]).1.fields.items(),
        ),
{
    reveal_with_fuel(crate::strings::lex_order, 9);
    reveal_strlit("Date");
    reveal_strlit("Float");
    reveal_strlit("Int");
    reveal_strlit("Int64");
    reveal_strlit("String");
    reveal_strlit("article");
    reveal_strlit("author");
    reveal_strlit("city");
    reveal_strlit("country");
    reveal_strlit("institution");
    reveal_strlit("location");
    reveal_strlit("staff_member");
    reveal_strlit("author_id");
    reveal_strlit("id");
    reveal_strlit("published_date");
    reveal_strlit("title");
    reveal_strlit("first_name");
    reveal_strlit("last_name");
    reveal_strlit("name");
    reveal_strlit("area_km2");
    reveal_strlit("cities");
    reveal_strlit("departments");
    reveal_strlit("location");
    reveal_strlit("staff");
    reveal_strlit("campuses");
    reveal_strlit("city");
    reveal_strlit("country");
    reveal_strlit("country_id");
    reveal_strlit("born_country_id");
    reveal_strlit("specialities");
    let ss = r.scalar_types.items();
    let os = r.object_types.items();
    assert(crate::strings::lex_order("Date"@, "Float"@) < 0);
    assert(crate::strings::lex_order("Float"@, "Int"@) < 0);
    assert(crate::strings::lex_order("Int"@, "Int64"@) < 0);
    assert(crate::strings::lex_order("Int64"@, "String"@) < 0);
    assert(crate::strings::lex_order("article"@, "author"@) < 0);
    assert(crate::strings::lex_order("author"@, "city"@) < 0);
    assert(crate::strings::lex_order("city"@, "country"@) < 0);
    assert(crate::strings::lex_order("country"@, "institution"@) < 0);
    assert(crate::strings::lex_order("institution"@, "location"@) < 0);
    assert(crate::strings::lex_order("location"@, "staff_member"@) < 0);
    assert(crate::strings::lex_order("author_id"@, "id"@) < 0);
    assert(crate::strings::lex_order("id"@, "published_date"@) < 0);
    assert(crate::strings::lex_order("published_date"@, "title"@) < 0);
    assert(crate::strings::lex_order("first_name"@, "id"@) < 0);
    assert(crate::strings::lex_order("id"@, "last_name"@) < 0);
    assert(crate::strings::lex_order("area_km2"@, "cities"@) < 0);
    assert(crate::strings::lex_order("cities"@, "id"@) < 0);
    assert(crate::strings::lex_order("id"@, "name"@) < 0);
    assert(crate::strings::lex_order("departments"@, "id"@) < 0);
    assert(crate::strings::lex_order("id"@, "location"@) < 0);
    assert(crate::strings::lex_order("location"@, "name"@) < 0);
    assert(crate::strings::lex_order("name"@, "staff"@) < 0);
    assert(crate::strings::lex_order("campuses"@, "city"@) < 0);
    assert(crate::strings::lex_order("city"@, "country"@) < 0);
    assert(crate::strings::lex_order("country"@, "country_id"@) < 0);
    assert(crate::strings::lex_order("born_country_id"@, "first_name"@) < 0);
    assert(crate::strings::lex_order("first_name"@, "last_name"@) < 0);
    assert(crate::strings::lex_order("last_name"@, "specialities"@) < 0);
    crate::common::lemma_adjacent_ascending(ss);
    crate::common::lemma_adjacent_ascending(os);
    assert forall|i: int| 0 <= i < os.len() implies crate::common::keys_ascending((#[trigger] os[i]).1.fields.items()) by {
        crate::common::lemma_adjacent_ascending(os[i].1.fields.items());
    }
}

/// Every check of a schema passes on the reference schema: its named
/// types are defined, the result types of its sums and averages are
/// scalar types, no scalar type has two equality operators, and the
/// arguments, collection types and result types of its collections,
/// functions and procedures are valid.
pub proof fn lemma_reference_schema_valid(r: SchemaResponse)
    requires
        is_reference_schema(r),
    ensures
        forall|i: int| 0 <= i < schema_checks(r).len() ==> (#[trigger] schema_checks(r)[i]).1 is None,
        forall|k: int, i: int|
            0 <= k < r.object_types.items().len() && 0 <= i < r.object_types.items()[k].1.fields.items().len()
                ==> type_fault(r, (#[trigger] r.object_types.items()[k].1.fields.items()[i]).1.field_type) is None,
        forall|k: int, i: int, m: int|
            0 <= k < r.object_types.items().len() && 0 <= i < r.object_types.items()[k].1.fields.items().len() && 0 <= m
                < r.object_types.items()[k].1.fields.items()[i].1.arguments.items().len() ==> type_fault(
                r,
                (#[trigger] r.object_types.items()[k].1.fields.items()[i].1.arguments.items()[m]).1.argument_type,
            ) is None,
{
    lemma_reference_names(r);
    lemma_scalar_types_ok(r);
    lemma_object_types_ok(r);
    assert forall|i: int| 0 <= i < 5 implies (#[trigger] collection_checks(r, i))[0].1 is None && collection_checks(r, i)[1].1 is None by {
        let c = r.collections@[i];
        if i == 4 {
            lemma_named_ok(r, c.arguments.items()[0].1.argument_type, "Int"@);
        }
        lemma_arguments_ok(r, c.arguments);
    }
    assert forall|i: int| 0 <= i < 2 implies (#[trigger] function_checks(r, i))[0].1 is None && function_checks(r, i)[1].1 is None by {
        let f = r.functions@[i];
        if i == 0 {
            lemma_wrapped_ok(r, f.result_type, "Int"@);
        } else {
            lemma_wrapped_ok(r, f.result_type, "article"@);
        }
        lemma_arguments_ok(r, f.arguments);
    }
    assert forall|i: int| 0 <= i < 2 implies (#[trigger] procedure_checks(r, i))[0].1 is None && procedure_checks(r, i)[1].1 is None by {
        let p = r.procedures@[i];
        lemma_wrapped_ok(r, p.result_type, "article"@);
        if i == 0 {
            lemma_named_ok(r, p.arguments.items()[0].1.argument_type, "article"@);
        }
        lemma_arguments_ok(r, p.arguments);
    }
    lemma_collections_ok(r, 5);
    lemma_functions_ok(r, 2);
    lemma_procedures_ok(r, 2);
    let head = seq![
        (seq!["scalar_types"@], scalar_types_fault(r)),
        (seq!["object_types"@], object_types_fault(r)),
    ];
    let cs = collections_checks(r, r.collections.len() as nat);
    let fs = functions_checks(r, r.functions.len() as nat);
    let ps = procedures_checks(r, r.procedures.len() as nat);
    assert(schema_checks(r) == head + cs + fs + ps);
    assert forall|i: int| 0 <= i < schema_checks(r).len() implies (#[trigger] schema_checks(r)[i]).1 is None by {
        if i < 2 {
        } else if i < 2 + cs.len() {
            assert(schema_checks(r)[i] == cs[i - 2]);
        } else if i < 2 + cs.len() + fs.len() {
            assert(schema_checks(r)[i] == fs[i - 2 - cs.len()]);
        } else {
            assert(schema_checks(r)[i] == ps[i - 2 - cs.len() - fs.len()]);
        }
    }
}

/// Every collection and function that the schema names is one the data
/// serves: asking for it never fails as an unknown collection.
pub proof fn lemma_schema_collections_are_served(state: crate::state::AppState, name: Seq<char>, arguments: Map<Seq<char>, crate::json::Json>)
    requires
        collection_names().contains(name) || function_names().contains(name),
    ensures
        crate::state::collection_rows(state, name, arguments) != Err::<Seq<Map<Seq<char>, crate::json::Json>>, (u16, Seq<char>)>((400, "invalid collection name"@)),
{
    reveal_strlit("articles");
    reveal_strlit("authors");
    reveal_strlit("institutions");
    reveal_strlit("countries");
    reveal_strlit("articles_by_author");
    reveal_strlit("latest_article_id");
    reveal_strlit("latest_article");
    reveal_strlit("invalid collection name");
    reveal_strlit("missing argument author_id");
    reveal_strlit("author_id must be an integer");
    reveal_strlit("author_id out of range");
    reveal_strlit("author_id not found");
    assert("invalid collection name"@.len() == 23);
    assert("missing argument author_id"@.len() == 26);
    assert("author_id must be an integer"@.len() == 28);
    assert("author_id out of range"@.len() == 22);
    assert(collection_names()[4] == "articles_by_author"@);
    if name == "articles_by_author"@ && arguments.contains_key("author_id"@) {
        if let Some(a) = crate::json::json_as_i64(arguments["author_id"@]) {
            lemma_search_messages(crate::state::table_view(state.articles@), a);
        }
    }
}

/// A failed search through the articles reports a problem with an
/// article's `author_id`, never an unknown collection.
proof fn lemma_search_messages(articles: Seq<Map<Seq<char>, crate::json::Json>>, author: int)
    ensures
        crate::state::articles_written_by(articles, author) != Err::<Seq<Map<Seq<char>, crate::json::Json>>, (u16, Seq<char>)>((400, "invalid collection name"@)),
    decreases articles.len(),
{
    reveal_strlit("invalid collection name");
    reveal_strlit("author_id not found");
    reveal_strlit("author_id must be an integer");
    reveal_strlit("author_id out of range");
    if articles.len() > 0 {
        lemma_search_messages(articles.drop_last(), author);
        assert("invalid collection name"@.len() == 23);
        assert("author_id out of range"@.len() == 22);
        assert("invalid collection name"@ != "author_id out of range"@);
    }
}

} // verus!
