use vstd::prelude::*;
use crate::dict::Dict;

verus! {

pub type FieldName = String;
pub type TypeName = String;
pub type ScalarTypeName = String;
pub type ObjectTypeName = String;
pub type CollectionName = String;
pub type FunctionName = String;
pub type ProcedureName = String;
pub type ArgumentName = String;
pub type AggregateFunctionName = String;
pub type ComparisonOperatorName = String;
pub type ExtractionFunctionName = String;
pub type RelationshipName = String;
pub type VariableName = String;

/// The schema of a data connector: its types, collections, functions and
/// procedures.
pub struct SchemaResponse {
    /// A list of scalar types which will be used as the types of collection columns
    pub scalar_types: Dict<ScalarType>,
    /// A list of object types which can be used as the types of arguments, or return types of procedures.
    /// Names should not overlap with scalar type names.
    pub object_types: Dict<ObjectType>,
    /// Collections which are available for queries
    pub collections: Vec<CollectionInfo>,
    /// Functions (i.e. collections which return a single column and row)
    pub functions: Vec<FunctionInfo>,
    /// Procedures which are available for execution as part of mutations
    pub procedures: Vec<ProcedureInfo>,
    /// Schema data which is relevant to features enabled by capabilities
    pub capabilities: Option<CapabilitySchemaInfo>,
}

/// The definition of a scalar type, i.e. types that can be used as the types of columns.
pub struct ScalarType {
    /// A description of valid values for this scalar type.
    pub representation: TypeRepresentation,
    /// A map from aggregate function names to their definitions.
    pub aggregate_functions: Dict<AggregateFunctionDefinition>,
    /// A map from comparison operator names to their definitions.
    pub comparison_operators: Dict<ComparisonOperatorDefinition>,
    /// A map from extraction function names to their definitions.
    pub extraction_functions: Dict<ExtractionFunctionDefinition>,
}

/// Representations of scalar types
#[derive(Clone, Debug, PartialEq, Eq)]
pub enum TypeRepresentation {
    /// JSON booleans
    Boolean,
    /// Any JSON string
    String,
    /// A 8-bit signed integer with a minimum value of -2^7 and a maximum value of 2^7 - 1
    Int8,
    /// A 16-bit signed integer with a minimum value of -2^15 and a maximum value of 2^15 - 1
    Int16,
    /// A 32-bit signed integer with a minimum value of -2^31 and a maximum value of 2^31 - 1
    Int32,
    /// A 64-bit signed integer with a minimum value of -2^63 and a maximum value of 2^63 - 1
    Int64,
    /// An IEEE-754 single-precision floating-point number
    Float32,
    /// An IEEE-754 double-precision floating-point number
    Float64,
    /// Arbitrary-precision integer string
    BigInteger,
    /// Arbitrary-precision decimal string
    BigDecimal,
    /// UUID string (8-4-4-4-12)
    UUID,
    /// ISO 8601 date
    Date,
    /// ISO 8601 timestamp
    Timestamp,
    /// ISO 8601 timestamp-with-timezone
    TimestampTZ,
    /// GeoJSON, per RFC 7946
    Geography,
    /// GeoJSON Geometry object, per RFC 7946
    Geometry,
    /// Base64-encoded bytes
    Bytes,
    /// Arbitrary JSON
    JSON,
    /// One of the specified string values
    Enum { one_of: Vec<String> },
}

/// The definition of an object type
pub struct ObjectType {
    /// Description of this type
    pub description: Option<String>,
    /// Fields defined on this object type
    pub fields: Dict<ObjectField>,
    /// Any foreign keys defined for this object type's columns
    pub foreign_keys: Dict<ForeignKeyConstraint>,
}

/// The definition of an object field
pub struct ObjectField {
    /// Description of this field
    pub description: Option<String>,
    /// The type of this field
    pub field_type: Type,
    /// The arguments available to the field - Matches implementation from CollectionInfo
    pub arguments: Dict<ArgumentInfo>,
}

/// Types track the valid representations of values as JSON
#[derive(Debug, PartialEq, Eq)]
pub enum Type {
    /// A named type
    Named {
        /// The name can refer to a scalar or object type
        name: TypeName,
    },
    /// A nullable type
    Nullable {
        /// The type of the non-null inhabitants of this type
        underlying_type: Box<Type>,
    },
    /// An array type
    Array {
        /// The type of the elements of the array
        element_type: Box<Type>,
    },
    /// A predicate type for a given object type
    Predicate {
        /// The object type name
        object_type_name: ObjectTypeName,
    },
}

impl Type {
    /// A copy of the type.
    pub fn clone_type(&self) -> (r: Type)
        ensures
            r == *self,
        decreases self,
    {
        match self {
            Type::Named { name } => Type::Named { name: name.clone() },
            Type::Nullable { underlying_type } => Type::Nullable {
                underlying_type: Box::new(underlying_type.clone_type()),
            },
            Type::Array { element_type } => Type::Array {
                element_type: Box::new(element_type.clone_type()),
            },
            Type::Predicate { object_type_name } => Type::Predicate {
                object_type_name: object_type_name.clone(),
            },
        }
    }
}

/// The definition of a comparison operator on a scalar type
#[derive(Debug, PartialEq, Eq)]
pub enum ComparisonOperatorDefinition {
    Equal,
    In,
    LessThan,
    LessThanOrEqual,
    GreaterThan,
    GreaterThanOrEqual,
    Contains,
    ContainsInsensitive,
    StartsWith,
    StartsWithInsensitive,
    EndsWith,
    EndsWithInsensitive,
    Custom {
        /// The type of the argument to this operator
        argument_type: Type,
    },
}

/// The definition of an aggregation function on a scalar type
#[derive(Debug, PartialEq, Eq)]
pub enum AggregateFunctionDefinition {
    Min,
    Max,
    Sum {
        /// The scalar type of the result of this function, which should have
        /// one of the type representations Int64 or Float64, depending on
        /// whether this function is defined on a scalar type with an integer or
        /// floating-point representation, respectively.
        result_type: ScalarTypeName,
    },
    Average {
        /// The scalar type of the result of this function, which should have
        /// the type representation Float64
        result_type: ScalarTypeName,
    },
    Custom {
        /// The scalar or object type of the result of this function
        result_type: Type,
    },
}

/// The definition of an extraction function on a scalar type
#[derive(Clone, Debug, PartialEq, Eq)]
pub struct ExtractionFunctionDefinition {
    /// The result type, which must be a defined scalar types in the schema response.
    pub result_type: ScalarTypeName,
    /// The meaning of this extraction function
    pub function_type: ExtractionFunctionType,
}

/// The meaning of an extraction function
#[derive(Clone, Copy, Debug, PartialEq, Eq)]
pub enum ExtractionFunctionType {
    Nanosecond,
    Microsecond,
    Second,
    Minute,
    Hour,
    Day,
    Week,
    Month,
    Quarter,
    Year,
    DayOfWeek,
    DayOfYear,
    Custom,
}

pub struct CollectionInfo {
    /// The name of the collection
    ///
    /// Note: these names are abstract - there is no requirement that this name correspond to
    /// the name of an actual collection in the database.
    pub name: CollectionName,
    /// Description of the collection
    pub description: Option<String>,
    /// Any arguments that this collection requires
    pub arguments: Dict<ArgumentInfo>,
    /// The name of the collection's object type
    pub collection_type: ObjectTypeName,
    /// Any uniqueness constraints enforced on this collection
    pub uniqueness_constraints: Dict<UniquenessConstraint>,
}

pub struct FunctionInfo {
    /// The name of the function
    pub name: FunctionName,
    /// Description of the function
    pub description: Option<String>,
    /// Any arguments that this collection requires
    pub arguments: Dict<ArgumentInfo>,
    /// The name of the function's result type
    pub result_type: Type,
}

#[derive(Debug, PartialEq, Eq)]
pub struct ArgumentInfo {
    /// Argument description
    pub description: Option<String>,
    /// The name of the type of this argument
    pub argument_type: Type,
}

#[derive(Clone, Debug, PartialEq, Eq)]
pub struct UniquenessConstraint {
    /// A list of columns which this constraint requires to be unique
    pub unique_columns: Vec<FieldName>,
}

pub struct ForeignKeyConstraint {
    /// The columns on which you want want to define the foreign key.
    /// This is a mapping between fields on object type to columns on the foreign collection.
    pub column_mapping: Dict<Vec<FieldName>>,
    /// The name of a collection
    pub foreign_collection: CollectionName,
}

pub struct ProcedureInfo {
    /// The name of the procedure
    pub name: ProcedureName,
    /// Column description
    pub description: Option<String>,
    /// Any arguments that this collection requires
    pub arguments: Dict<ArgumentInfo>,
    /// The name of the result type
    pub result_type: Type,
}

#[derive(Clone, Debug, PartialEq, Eq)]
pub struct CapabilitySchemaInfo {
    /// Schema information relevant to query capabilities
    pub query: Option<QueryCapabilitiesSchemaInfo>,
}

#[derive(Clone, Debug, PartialEq, Eq)]
pub struct QueryCapabilitiesSchemaInfo {
    /// Schema information relevant to aggregate query capabilities
    pub aggregates: Option<AggregateCapabilitiesSchemaInfo>,
}

#[derive(Clone, Debug, PartialEq, Eq)]
pub struct AggregateCapabilitiesSchemaInfo {
    /// The scalar type which should be used for the return type of count
    /// (star_count and column_count) operations.
    pub count_scalar_type: ScalarTypeName,
}

} // verus!
