use vstd::prelude::*;

verus! {

#[derive(Clone, Debug, PartialEq, Eq)]
pub struct CapabilitiesResponse {
    pub version: String,
    pub capabilities: Capabilities,
}

/// A unit value to indicate a particular leaf capability is supported.
/// This is an empty struct to allow for future sub-capabilities.
#[derive(Clone, Debug, PartialEq, Eq)]
pub struct LeafCapability {}

/// Describes the features of the specification which a data connector implements.
#[derive(Clone, Debug, PartialEq, Eq)]
pub struct Capabilities {
    pub query: QueryCapabilities,
    pub mutation: MutationCapabilities,
    pub relationships: Option<RelationshipCapabilities>,
    /// Does the connector support the relational query API? This feature is experimental and subject
    /// to breaking changes within minor versions.
    pub relational_query: Option<RelationalQueryCapabilities>,
}

#[derive(Clone, Debug, PartialEq, Eq)]
pub struct QueryCapabilities {
    /// Does the connector support aggregate queries
    pub aggregates: Option<AggregateCapabilities>,
    /// Does the connector support queries which use variables
    pub variables: Option<LeafCapability>,
    /// Does the connector support explaining queries
    pub explain: Option<LeafCapability>,
    /// Does the connector support nested fields
    pub nested_fields: NestedFieldCapabilities,
    /// Does the connector support EXISTS predicates
    pub exists: ExistsCapabilities,
}

#[derive(Clone, Debug, PartialEq, Eq)]
pub struct ExistsCapabilities {
    /// Does the connector support named scopes in column references inside
    /// EXISTS predicates
    pub named_scopes: Option<LeafCapability>,
    /// Does the connector support ExistsInCollection::Unrelated
    pub unrelated: Option<LeafCapability>,
    /// Does the connector support ExistsInCollection::NestedCollection
    pub nested_collections: Option<LeafCapability>,
    /// Does the connector support filtering over nested scalar arrays using existential quantification.
    /// This means the connector must support ExistsInCollection::NestedScalarCollection.
    pub nested_scalar_collections: Option<LeafCapability>,
}

#[derive(Clone, Debug, PartialEq, Eq)]
pub struct NestedFieldCapabilities {
    /// Does the connector support filtering by values of nested fields
    pub filter_by: Option<NestedFieldFilterByCapabilities>,
    /// Does the connector support ordering by values of nested fields
    pub order_by: Option<LeafCapability>,
    /// Does the connector support aggregating values within nested fields
    pub aggregates: Option<LeafCapability>,
    /// Does the connector support nested collection queries using
    /// `NestedField::NestedCollection`
    pub nested_collections: Option<LeafCapability>,
}

#[derive(Clone, Debug, PartialEq, Eq)]
pub struct NestedFieldFilterByCapabilities {
    /// Does the connector support filtering over nested arrays (ie. Expression::ArrayComparison)
    pub nested_arrays: Option<NestedArrayFilterByCapabilities>,
}

#[derive(Clone, Debug, PartialEq, Eq)]
pub struct NestedArrayFilterByCapabilities {
    /// Does the connector support filtering over nested arrays by checking if the array contains a value.
    /// This must be supported for all types that can be contained in an array that implement an 'eq'
    /// comparison operator.
    pub contains: Option<LeafCapability>,
    /// Does the connector support filtering over nested arrays by checking if the array is empty.
    /// This must be supported no matter what type is contained in the array.
    pub is_empty: Option<LeafCapability>,
}

#[derive(Clone, Debug, PartialEq, Eq)]
pub struct AggregateCapabilities {
    /// Does the connector support filtering based on aggregated values
    pub filter_by: Option<LeafCapability>,
    /// Does the connector support aggregations over groups
    pub group_by: Option<GroupByCapabilities>,
}

#[derive(Clone, Debug, PartialEq, Eq)]
pub struct GroupByCapabilities {
    /// Does the connector support post-grouping predicates
    pub filter: Option<LeafCapability>,
    /// Does the connector support post-grouping ordering
    pub order: Option<LeafCapability>,
    /// Does the connector support post-grouping pagination
    pub paginate: Option<LeafCapability>,
}

#[derive(Clone, Debug, PartialEq, Eq)]
pub struct MutationCapabilities {
    /// Does the connector support executing multiple mutations in a transaction.
    pub transactional: Option<LeafCapability>,
    /// Does the connector support explaining mutations
    pub explain: Option<LeafCapability>,
}

#[derive(Clone, Debug, PartialEq, Eq)]
pub struct RelationshipCapabilities {
    /// Does the connector support comparisons that involve related collections (ie. joins)?
    pub relation_comparisons: Option<LeafCapability>,
    /// Does the connector support ordering by an aggregated array relationship?
    pub order_by_aggregate: Option<LeafCapability>,
    /// Does the connector support navigating a relationship from inside a nested object
    pub nested: Option<NestedRelationshipCapabilities>,
}

#[derive(Clone, Debug, PartialEq, Eq)]
pub struct NestedRelationshipCapabilities {
    /// Does the connector support navigating a relationship from inside a nested object inside a nested array
    pub array: Option<LeafCapability>,
    /// Does the connector support filtering over a relationship that starts from inside a nested object
    pub filtering: Option<LeafCapability>,
    /// Does the connector support ordering over a relationship that starts from inside a nested object
    pub ordering: Option<LeafCapability>,
}

/// Describes which features of the relational query API are supported by the connector.
/// This feature is experimental and subject to breaking changes within minor versions.
#[derive(Clone, Debug, PartialEq, Eq)]
pub struct RelationalQueryCapabilities {
    pub project: RelationalProjectionCapabilities,
    pub filter: Option<RelationalExpressionCapabilities>,
    pub sort: Option<RelationalSortCapabilities>,
    pub join: Option<RelationalJoinCapabilities>,
    pub aggregate: Option<RelationalAggregateCapabilities>,
    pub window: Option<RelationalWindowCapabilities>,
    pub union: Option<LeafCapability>,
}

#[derive(Clone, Debug, PartialEq, Eq)]
pub struct RelationalProjectionCapabilities {
    pub expression: RelationalExpressionCapabilities,
}

#[derive(Clone, Debug, PartialEq, Eq)]
pub struct RelationalSortCapabilities {
    pub expression: RelationalExpressionCapabilities,
}

#[derive(Clone, Debug, PartialEq, Eq)]
pub struct RelationalJoinCapabilities {
    pub expression: RelationalExpressionCapabilities,
    pub join_types: RelationalJoinTypeCapabilities,
}

#[derive(Clone, Debug, PartialEq, Eq)]
pub struct RelationalJoinTypeCapabilities {
    pub left: Option<LeafCapability>,
    pub right: Option<LeafCapability>,
    pub inner: Option<LeafCapability>,
    pub full: Option<LeafCapability>,
    pub left_semi: Option<LeafCapability>,
    pub left_anti: Option<LeafCapability>,
    pub right_semi: Option<LeafCapability>,
    pub right_anti: Option<LeafCapability>,
}

#[derive(Clone, Debug, PartialEq, Eq)]
pub struct RelationalAggregateCapabilities {
    pub expression: RelationalExpressionCapabilities,
    pub group_by: Option<LeafCapability>,
}

#[derive(Clone, Debug, PartialEq, Eq)]
pub struct RelationalWindowCapabilities {
    pub expression: RelationalExpressionCapabilities,
}

#[derive(Clone, Debug, PartialEq, Eq)]
pub struct RelationalExpressionCapabilities {
    pub conditional: RelationalConditionalExpressionCapabilities,
    pub comparison: RelationalComparisonExpressionCapabilities,
    pub scalar: RelationalScalarExpressionCapabilities,
    pub aggregate: RelationalAggregateExpressionCapabilities,
    pub window: RelationalWindowExpressionCapabilities,
}

#[derive(Clone, Debug, PartialEq, Eq)]
pub struct RelationalConditionalExpressionCapabilities {
    pub case: Option<LeafCapability>,
    pub nullif: Option<LeafCapability>,
}

#[derive(Clone, Debug, PartialEq, Eq)]
pub struct RelationalComparisonExpressionCapabilities {
    pub between: Option<LeafCapability>,
    pub contains: Option<LeafCapability>,
    pub greater_than_eq: Option<LeafCapability>,
    pub greater_than: Option<LeafCapability>,
    pub ilike: Option<LeafCapability>,
    pub in_list: Option<LeafCapability>,
    pub is_false: Option<LeafCapability>,
    pub is_nan: Option<LeafCapability>,
    pub is_null: Option<LeafCapability>,
    pub is_true: Option<LeafCapability>,
    pub is_zero: Option<LeafCapability>,
    pub less_than_eq: Option<LeafCapability>,
    pub less_than: Option<LeafCapability>,
    pub like: Option<LeafCapability>,
}

#[derive(Clone, Debug, PartialEq, Eq)]
pub struct RelationalScalarExpressionCapabilities {
    pub abs: Option<LeafCapability>,
    pub and: Option<LeafCapability>,
    pub array_element: Option<LeafCapability>,
    pub binary_concat: Option<LeafCapability>,
    pub btrim: Option<LeafCapability>,
    pub ceil: Option<LeafCapability>,
    pub character_length: Option<LeafCapability>,
    pub coalesce: Option<LeafCapability>,
    pub concat: Option<LeafCapability>,
    pub cos: Option<LeafCapability>,
    pub current_date: Option<LeafCapability>,
    pub current_time: Option<LeafCapability>,
    pub current_timestamp: Option<LeafCapability>,
    pub date_part: Option<DatePartScalarExpressionCapability>,
    pub date_trunc: Option<LeafCapability>,
    pub divide: Option<LeafCapability>,
    pub exp: Option<LeafCapability>,
    pub floor: Option<LeafCapability>,
    pub get_field: Option<LeafCapability>,
    pub greatest: Option<LeafCapability>,
    pub least: Option<LeafCapability>,
    pub left: Option<LeafCapability>,
    pub ln: Option<LeafCapability>,
    pub log: Option<LeafCapability>,
    pub log10: Option<LeafCapability>,
    pub log2: Option<LeafCapability>,
    pub lpad: Option<LeafCapability>,
    pub ltrim: Option<LeafCapability>,
    pub minus: Option<LeafCapability>,
    pub modulo: Option<LeafCapability>,
    pub multiply: Option<LeafCapability>,
    pub negate: Option<LeafCapability>,
    pub not: Option<LeafCapability>,
    pub nvl: Option<LeafCapability>,
    pub or: Option<LeafCapability>,
    pub plus: Option<LeafCapability>,
    pub power: Option<LeafCapability>,
    pub random: Option<LeafCapability>,
    pub replace: Option<LeafCapability>,
    pub reverse: Option<LeafCapability>,
    pub right: Option<LeafCapability>,
    pub round: Option<LeafCapability>,
    pub rpad: Option<LeafCapability>,
    pub rtrim: Option<LeafCapability>,
    pub sqrt: Option<LeafCapability>,
    pub str_pos: Option<LeafCapability>,
    pub substr_index: Option<LeafCapability>,
    pub substr: Option<LeafCapability>,
    pub tan: Option<LeafCapability>,
    pub to_date: Option<LeafCapability>,
    pub to_lower: Option<LeafCapability>,
    pub to_timestamp: Option<LeafCapability>,
    pub to_upper: Option<LeafCapability>,
    pub trunc: Option<LeafCapability>,
}

#[derive(Clone, Debug, PartialEq, Eq)]
pub struct DatePartScalarExpressionCapability {
    pub year: Option<LeafCapability>,
    pub quarter: Option<LeafCapability>,
    pub month: Option<LeafCapability>,
    pub week: Option<LeafCapability>,
    pub day_of_week: Option<LeafCapability>,
    pub day_of_year: Option<LeafCapability>,
    pub day: Option<LeafCapability>,
    pub hour: Option<LeafCapability>,
    pub minute: Option<LeafCapability>,
    pub second: Option<LeafCapability>,
    pub microsecond: Option<LeafCapability>,
    pub millisecond: Option<LeafCapability>,
    pub nanosecond: Option<LeafCapability>,
    pub epoch: Option<LeafCapability>,
}

#[derive(Clone, Debug, PartialEq, Eq)]
pub struct RelationalAggregateExpressionCapabilities {
    pub avg: Option<LeafCapability>,
    pub bool_and: Option<LeafCapability>,
    pub bool_or: Option<LeafCapability>,
    pub count: Option<RelationalAggregateFunctionCapabilities>,
    pub first_value: Option<LeafCapability>,
    pub last_value: Option<LeafCapability>,
    pub max: Option<LeafCapability>,
    pub median: Option<LeafCapability>,
    pub min: Option<LeafCapability>,
    pub string_agg: Option<LeafCapability>,
    pub sum: Option<LeafCapability>,
    pub var: Option<LeafCapability>,
    pub stddev: Option<LeafCapability>,
    pub stddev_pop: Option<LeafCapability>,
    pub approx_percentile_cont: Option<LeafCapability>,
    pub array_agg: Option<LeafCapability>,
}

#[derive(Clone, Debug, PartialEq, Eq)]
pub struct RelationalAggregateFunctionCapabilities {
    pub distinct: Option<LeafCapability>,
}

#[derive(Clone, Debug, PartialEq, Eq)]
pub struct RelationalWindowExpressionCapabilities {
    pub row_number: Option<LeafCapability>,
    pub dense_rank: Option<LeafCapability>,
    pub ntile: Option<LeafCapability>,
    pub rank: Option<LeafCapability>,
    pub cume_dist: Option<LeafCapability>,
    pub percent_rank: Option<LeafCapability>,
}

/// Describes which features of the relational mutation API are supported by the connector.
/// This feature is experimental and subject to breaking changes within minor versions.
#[derive(Clone, Debug, PartialEq, Eq)]
pub struct RelationalMutationCapabilities {
    pub insert: Option<LeafCapability>,
}

} // verus!
