use vstd::prelude::*;
use crate::dict::Dict;
use crate::json::JsonValue;
use crate::schema::{
    AggregateFunctionName, CollectionName, ComparisonOperatorName, ExtractionFunctionName,
    FieldName, ProcedureName, RelationshipName, VariableName,
};

verus! {

/// This is the request body of the query POST endpoint
pub struct QueryRequest {
    /// The name of a collection
    pub collection: CollectionName,
    /// The query syntax tree
    pub query: Query,
    /// Values to be provided to any collection arguments
    pub arguments: Dict<Argument>,
    /// Any relationships between collections involved in the query request
    pub collection_relationships: Dict<Relationship>,
    /// One set of named variables for each rowset to fetch. Each variable set
    /// should be subtituted in turn, and a fresh set of rows returned.
    pub variables: Option<Vec<Dict<JsonValue>>>,
}

/// The query syntax tree
pub struct Query {
    /// Aggregate fields of the query
    pub aggregates: Option<Dict<Aggregate>>,
    /// Fields of the query
    pub fields: Option<Dict<Field>>,
    /// Optionally limit to N results
    pub limit: Option<u32>,
    /// Optionally offset from the Nth result
    pub offset: Option<u32>,
    pub order_by: Option<OrderBy>,
    pub predicate: Option<Expression>,
    /// Optionally group and aggregate the selected rows
    pub groups: Option<Grouping>,
}

pub enum Argument {
    /// The argument is provided by reference to a variable
    Variable { name: VariableName },
    /// The argument is provided as a literal value
    Literal { value: JsonValue },
}

pub struct Relationship {
    /// A mapping between columns on the source row to columns on the target collection.
    pub column_mapping: Dict<Vec<FieldName>>,
    pub relationship_type: RelationshipType,
    /// The name of a collection
    pub target_collection: CollectionName,
    /// Values to be provided to any collection arguments
    pub arguments: Dict<RelationshipArgument>,
}

pub enum RelationshipArgument {
    /// The argument is provided by reference to a variable
    Variable { name: VariableName },
    /// The argument is provided as a literal value
    Literal { value: JsonValue },
    /// The argument is provided based on a column of the source collection
    Column { name: FieldName },
}

#[derive(Clone, Copy, Debug, PartialEq, Eq)]
pub enum RelationshipType {
    Object,
    Array,
}

pub enum Field {
    Column {
        column: FieldName,
        /// When the type of the column is a (possibly-nullable) array or object,
        /// the caller can request a subset of the complete column data,
        /// by specifying fields to fetch here.
        /// If omitted, the column data will be fetched in full.
        fields: Option<NestedField>,
        arguments: Dict<Argument>,
    },
    Relationship {
        query: Box<Query>,
        /// The name of the relationship to follow for the subquery
        relationship: RelationshipName,
        /// Values to be provided to any collection arguments
        arguments: Dict<RelationshipArgument>,
    },
}

pub struct NestedObject {
    pub fields: Dict<Field>,
}

pub struct NestedArray {
    pub fields: Box<NestedField>,
}

/// Perform a query over the nested array's rows
pub struct NestedCollection {
    pub query: Query,
}

pub enum NestedField {
    Object(NestedObject),
    Array(NestedArray),
    Collection(NestedCollection),
}

pub struct PathElement {
    /// Path to a nested field within an object column that must be navigated
    /// before the relationship is navigated.
    pub field_path: Option<Vec<FieldName>>,
    /// The name of the relationship to follow
    pub relationship: RelationshipName,
    /// Values to be provided to any collection arguments
    pub arguments: Dict<RelationshipArgument>,
    /// A predicate expression to apply to the target collection
    pub predicate: Option<Box<Expression>>,
}

pub enum Aggregate {
    ColumnCount {
        /// The column to apply the count aggregate function to
        column: FieldName,
        /// Arguments to satisfy the column specified by 'column'
        arguments: Dict<Argument>,
        /// Path to a nested field within an object column
        field_path: Option<Vec<FieldName>>,
        /// Whether or not only distinct items should be counted
        distinct: bool,
    },
    SingleColumn {
        /// The column to apply the aggregation function to
        column: FieldName,
        /// Arguments to satisfy the column specified by 'column'
        arguments: Dict<Argument>,
        /// Path to a nested field within an object column
        field_path: Option<Vec<FieldName>>,
        /// Single column aggregate function name.
        function: AggregateFunctionName,
    },
    StarCount {},
}

pub struct Grouping {
    /// Dimensions along which to partition the data
    pub dimensions: Vec<Dimension>,
    /// Aggregates to compute in each group
    pub aggregates: Dict<Aggregate>,
    /// Optionally specify a predicate to apply after grouping rows.
    pub predicate: Option<GroupExpression>,
    /// Optionally specify how groups should be ordered
    pub order_by: Option<GroupOrderBy>,
    /// Optionally limit to N groups
    pub limit: Option<u32>,
    /// Optionally offset from the Nth group
    pub offset: Option<u32>,
}

pub enum GroupExpression {
    And { expressions: Vec<GroupExpression> },
    Or { expressions: Vec<GroupExpression> },
    Not { expression: Box<GroupExpression> },
    UnaryComparisonOperator { target: GroupComparisonTarget, operator: UnaryComparisonOperator },
    BinaryComparisonOperator {
        target: GroupComparisonTarget,
        operator: ComparisonOperatorName,
        value: GroupComparisonValue,
    },
}

pub enum GroupComparisonTarget {
    Aggregate { aggregate: Aggregate },
}

pub enum GroupComparisonValue {
    /// A scalar value to compare against
    Scalar { value: JsonValue },
    /// A value extracted from request variables
    Variable { name: VariableName },
}

pub enum Dimension {
    Column {
        /// Any (object) relationships to traverse to reach this column.
        path: Vec<PathElement>,
        /// The name of the column
        column_name: FieldName,
        /// Arguments to satisfy the column specified by 'column_name'
        arguments: Dict<Argument>,
        /// Path to a nested field within an object column
        field_path: Option<Vec<FieldName>>,
        /// The name of the extraction function to apply to the selected value, if any
        extraction: Option<ExtractionFunctionName>,
    },
}

pub struct GroupOrderBy {
    /// The elements to order by, in priority order
    pub elements: Vec<GroupOrderByElement>,
}

pub struct GroupOrderByElement {
    pub order_direction: OrderDirection,
    pub target: GroupOrderByTarget,
}

pub enum GroupOrderByTarget {
    Dimension {
        /// The index of the dimension to order by, selected from the
        /// dimensions provided in the `Grouping` request.
        index: usize,
    },
    Aggregate {
        /// Aggregation method to apply
        aggregate: Aggregate,
    },
}

pub enum Expression {
    And { expressions: Vec<Expression> },
    Or { expressions: Vec<Expression> },
    Not { expression: Box<Expression> },
    UnaryComparisonOperator { column: ComparisonTarget, operator: UnaryComparisonOperator },
    BinaryComparisonOperator {
        column: ComparisonTarget,
        operator: ComparisonOperatorName,
        value: ComparisonValue,
    },
    /// A comparison against a nested array column.
    ArrayComparison { column: ComparisonTarget, comparison: ArrayComparison },
    Exists { in_collection: ExistsInCollection, predicate: Option<Box<Expression>> },
}

pub enum ArrayComparison {
    /// Check if the array contains the specified value.
    Contains { value: ComparisonValue },
    /// Check is the array is empty.
    IsEmpty,
}

#[derive(Clone, Copy, Debug, PartialEq, Eq)]
pub enum UnaryComparisonOperator {
    IsNull,
}

pub enum ComparisonTarget {
    /// The comparison targets a column.
    Column {
        /// The name of the column
        name: FieldName,
        /// Arguments to satisfy the column specified by 'name'
        arguments: Dict<Argument>,
        /// Path to a nested field within an object column
        field_path: Option<Vec<FieldName>>,
    },
    /// The comparison targets the result of aggregation.
    Aggregate {
        /// Non-empty collection of relationships to traverse
        path: Vec<PathElement>,
        /// The aggregation method to use
        aggregate: Aggregate,
    },
}

pub enum ComparisonValue {
    /// The value to compare against should be drawn from another column
    Column {
        /// Any relationships to traverse to reach this column.
        path: Vec<PathElement>,
        /// The name of the column
        name: FieldName,
        /// Arguments to satisfy the column specified by 'name'
        arguments: Dict<Argument>,
        /// Path to a nested field within an object column
        field_path: Option<Vec<FieldName>>,
        /// The scope in which this column exists, identified
        /// by an top-down index into the stack of scopes.
        scope: Option<usize>,
    },
    /// A scalar value to compare against
    Scalar { value: JsonValue },
    /// A value extracted from request variables
    Variable { name: VariableName },
}

pub enum ExistsInCollection {
    /// The rows to evaluate the exists predicate against come from a related collection.
    Related {
        /// Path to a nested field within an object column
        field_path: Option<Vec<FieldName>>,
        /// The name of the relationship to follow
        relationship: RelationshipName,
        /// Values to be provided to any collection arguments
        arguments: Dict<RelationshipArgument>,
    },
    /// The rows to evaluate the exists predicate against come from an unrelated collection
    Unrelated {
        /// The name of a collection
        collection: CollectionName,
        /// Values to be provided to any collection arguments
        arguments: Dict<RelationshipArgument>,
    },
    /// The rows to evaluate the exists predicate against come from a nested array field.
    NestedCollection {
        column_name: FieldName,
        arguments: Dict<Argument>,
        /// Path to a nested collection via object columns
        field_path: Vec<FieldName>,
    },
    /// Specifies a column that contains a nested array of scalars.
    NestedScalarCollection {
        column_name: FieldName,
        arguments: Dict<Argument>,
        /// Path to a nested collection via object columns
        field_path: Vec<FieldName>,
    },
}

pub struct OrderBy {
    /// The elements to order by, in priority order
    pub elements: Vec<OrderByElement>,
}

pub struct OrderByElement {
    pub order_direction: OrderDirection,
    pub target: OrderByTarget,
}

pub enum OrderByTarget {
    Column {
        /// Any relationships to traverse to reach this column.
        path: Vec<PathElement>,
        /// The name of the column
        name: FieldName,
        /// Arguments to satisfy the column specified by 'name'
        arguments: Dict<Argument>,
        /// Path to a nested field within an object column
        field_path: Option<Vec<FieldName>>,
    },
    Aggregate {
        /// Non-empty collection of relationships to traverse
        path: Vec<PathElement>,
        /// The aggregation method to use
        aggregate: Aggregate,
    },
}

#[derive(Clone, Copy, Debug, PartialEq, Eq)]
pub enum OrderDirection {
    Asc,
    Desc,
}

/// Query responses may return multiple RowSets when using queries with variables.
/// Else, there should always be exactly one RowSet
#[derive(Debug)]
pub struct QueryResponse(pub Vec<RowSet>);

#[derive(Debug)]
pub struct RowSet {
    /// The results of the aggregates returned by the query
    pub aggregates: Option<Dict<JsonValue>>,
    /// The rows returned by the query, corresponding to the query's fields
    pub rows: Option<Vec<Dict<RowFieldValue>>>,
    /// The results of any grouping operation
    pub groups: Option<Vec<Group>>,
}

#[derive(Debug)]
pub struct Group {
    /// Values of dimensions which identify this group
    pub dimensions: Vec<JsonValue>,
    /// Aggregates computed within this group
    pub aggregates: Dict<JsonValue>,
}

/// A value of a field in a row.
#[derive(Debug)]
pub struct RowFieldValue(pub JsonValue);

pub struct ExplainResponse {
    /// A list of human-readable key-value pairs describing
    /// a query execution plan and any other pertinent details.
    pub details: Dict<String>,
}

pub struct MutationRequest {
    /// The mutation operations to perform
    pub operations: Vec<MutationOperation>,
    /// The relationships between collections involved in the entire mutation request
    pub collection_relationships: Dict<Relationship>,
}

pub enum MutationOperation {
    Procedure {
        /// The name of a procedure
        name: ProcedureName,
        /// Any named procedure arguments
        arguments: Dict<JsonValue>,
        /// The fields to return from the result, or null to return everything.
        fields: Option<NestedField>,
    },
}

pub struct MutationResponse {
    /// The results of each mutation operation, in the same order as they were received
    pub operation_results: Vec<MutationOperationResults>,
}

pub enum MutationOperationResults {
    Procedure { result: JsonValue },
}

/// A standard error response.
pub struct ErrorResponse {
    /// A human-readable summary of the error
    pub message: String,
    /// Any additional structured information about the error
    pub details: JsonValue,
}

} // verus!
