use vstd::prelude::*;
use crate::error::{
    fault_of, first_fault, lemma_first_fault_all, lemma_first_fault_prefix, lemma_first_fault_step,
    path_view, Error, Fault,
};
use crate::json::{
    string_entries, entries_map, lemma_last_key_index, entry_keys, find_last_key, json_as_i64, last_key_index, lemma_array_view,
    lemma_entries_map, lemma_object_view, object_entries, string_keys, Json, JsonValue,
};
use crate::query::{
    Aggregate, Field, NestedField, Query, QueryRequest, QueryResponse, Relationship, RowFieldValue,
    RowSet,
};
use crate::rowset::{
    lookup, response_equal, response_value, row_entries, rowset_of_json, rowset_parts_of_json, rowset_spec, EntriesRef, RowSetParts,
    RowSetSpec,
};
use crate::common::{array_element, nullable, object_type_of};
use crate::dict::Dict;
use crate::schema::{
    CollectionInfo, FunctionInfo, ObjectField, ObjectType, SchemaResponse, Type, TypeRepresentation,
};
use crate::text::{decimal, extend_path, usize_to_string};

verus! {

broadcast use crate::dict::Dict::lemma_value_decreases;

/// What is wrong with a type, given the types that a schema defines.
pub open spec fn type_fault(schema: SchemaResponse, ty: Type) -> Option<Fault>
    decreases ty,
{
    match ty {
        Type::Named { name } => if !schema.object_types.map().contains_key(name@)
            && !schema.scalar_types.map().contains_key(name@) {
            Some(Fault::NamedTypeIsNotDefined(name@))
        } else {
            None
        },
        Type::Array { element_type } => type_fault(schema, *element_type),
        Type::Nullable { underlying_type } => type_fault(schema, *underlying_type),
        Type::Predicate { object_type_name } => if !schema.object_types.map().contains_key(
            object_type_name@,
        ) {
            Some(Fault::ObjectTypeIsNotDefined(object_type_name@))
        } else {
            None
        },
    }
}

/// Checks that every name a type refers to is defined by the schema.
pub fn validate_type(schema: &SchemaResponse, ty: &Type) -> (r: Result<(), Error>)
    ensures
        fault_of(r) == type_fault(*schema, *ty),
    decreases ty,
{
    match ty {
        Type::Named { name } => {
            if !schema.object_types.contains_key(name) && !schema.scalar_types.contains_key(name) {
                return Err(Error::NamedTypeIsNotDefined(name.clone()));
            }
        },
        Type::Array { element_type } => {
            validate_type(schema, element_type)?;
        },
        Type::Nullable { underlying_type } => {
            validate_type(schema, underlying_type)?;
        },
        Type::Predicate { object_type_name } => {
            if !schema.object_types.contains_key(object_type_name) {
                return Err(Error::ObjectTypeIsNotDefined(object_type_name.clone()));
            }
        },
    }
    Ok(())
}

/// The fault of a value that does not have a representation, at `path`.
pub open spec fn representation_fault(rep: TypeRepresentation, j: Json, path: Seq<Seq<char>>) -> Option<Fault> {
    match rep {
        TypeRepresentation::Boolean => if j is Bool {
            None
        } else {
            Some(Fault::InvalidValueInResponse(path, "boolean"@))
        },
        TypeRepresentation::Float32 | TypeRepresentation::Float64 => if j is Int || j is Float {
            None
        } else {
            Some(Fault::InvalidValueInResponse(path, "number"@))
        },
        TypeRepresentation::Int8 | TypeRepresentation::Int16 | TypeRepresentation::Int32 => if json_as_i64(j) is Some {
            None
        } else {
            Some(Fault::InvalidValueInResponse(path, "integer"@))
        },
        TypeRepresentation::String | TypeRepresentation::Int64 | TypeRepresentation::BigInteger
        | TypeRepresentation::BigDecimal | TypeRepresentation::UUID | TypeRepresentation::Date
        | TypeRepresentation::Timestamp | TypeRepresentation::TimestampTZ
        | TypeRepresentation::Bytes => if j is Str {
            None
        } else {
            Some(Fault::InvalidValueInResponse(path, "string"@))
        },
        TypeRepresentation::Enum { one_of } => if j is Str && one_of@.map_values(|s: String| s@).contains(j->Str_0) {
            None
        } else {
            Some(Fault::InvalidValueInResponse(path, "string"@))
        },
        TypeRepresentation::Geography | TypeRepresentation::Geometry | TypeRepresentation::JSON => None,
    }
}

/// A value has a representation exactly when it is the kind of JSON value
/// that the representation names: a number for floats, a whole number
/// within 64 bits for small integers, a boolean for booleans, a string for
/// strings, dates, times and the like, one of the listed strings for an
/// enumeration; any other value is refused as not being that kind.
pub proof fn lemma_representation_kinds(v: JsonValue, path: Seq<Seq<char>>, one_of: Vec<String>)
    ensures
        representation_fault(TypeRepresentation::Float64, v@, path) is None <==> v is Number,
        representation_fault(TypeRepresentation::Float32, v@, path) is None <==> v is Number,
        !(v is Number) ==> representation_fault(TypeRepresentation::Float64, v@, path) == Some(
            Fault::InvalidValueInResponse(path, "number"@),
        ),
        !(v is Number) ==> representation_fault(TypeRepresentation::Float32, v@, path) == Some(
            Fault::InvalidValueInResponse(path, "number"@),
        ),
        representation_fault(TypeRepresentation::Boolean, v@, path) is None <==> v is Bool,
        representation_fault(TypeRepresentation::String, v@, path) is None <==> v is String,
        representation_fault(TypeRepresentation::Date, v@, path) is None <==> v is String,
        representation_fault(TypeRepresentation::Int64, v@, path) is None <==> v is String,
        representation_fault(TypeRepresentation::JSON, v@, path) is None,
        representation_fault(TypeRepresentation::Geography, v@, path) is None,
        representation_fault(TypeRepresentation::Geometry, v@, path) is None,
        !(v is Bool) ==> representation_fault(TypeRepresentation::Boolean, v@, path) == Some(
            Fault::InvalidValueInResponse(path, "boolean"@),
        ),
        representation_fault(TypeRepresentation::Int8, v@, path) is None <==> (v@ matches Json::Int(k)
            && i64::MIN <= k <= i64::MAX),
        representation_fault(TypeRepresentation::Int16, v@, path) is None <==> (v@ matches Json::Int(k)
            && i64::MIN <= k <= i64::MAX),
        representation_fault(TypeRepresentation::Int32, v@, path) is None <==> (v@ matches Json::Int(k)
            && i64::MIN <= k <= i64::MAX),
        !(v@ matches Json::Int(k) && i64::MIN <= k <= i64::MAX) ==> representation_fault(
            TypeRepresentation::Int32,
            v@,
            path,
        ) == Some(Fault::InvalidValueInResponse(path, "integer"@)),
        representation_fault(TypeRepresentation::BigInteger, v@, path) is None <==> v is String,
        representation_fault(TypeRepresentation::BigDecimal, v@, path) is None <==> v is String,
        representation_fault(TypeRepresentation::UUID, v@, path) is None <==> v is String,
        representation_fault(TypeRepresentation::Timestamp, v@, path) is None <==> v is String,
        representation_fault(TypeRepresentation::TimestampTZ, v@, path) is None <==> v is String,
        representation_fault(TypeRepresentation::Bytes, v@, path) is None <==> v is String,
        !(v is String) ==> representation_fault(TypeRepresentation::String, v@, path) == Some(
            Fault::InvalidValueInResponse(path, "string"@),
        ),
        representation_fault(TypeRepresentation::Enum { one_of }, v@, path) is None <==> (
        v matches JsonValue::String(s) && exists|i: int| 0 <= i < one_of.len() && #[trigger] one_of@[i]@ == s@),
        representation_fault(TypeRepresentation::Enum { one_of }, v@, path) is Some ==> representation_fault(
            TypeRepresentation::Enum { one_of },
            v@,
            path,
        ) == Some(Fault::InvalidValueInResponse(path, "string"@)),
{
    let names = one_of@.map_values(|x: String| x@);
    if let JsonValue::String(s) = v {
        if exists|i: int| 0 <= i < one_of.len() && #[trigger] one_of@[i]@ == s@ {
            let i = choose|i: int| 0 <= i < one_of.len() && #[trigger] one_of@[i]@ == s@;
            assert(names[i] == s@);
        }
        if names.contains(s@) {
            let i = choose|i: int| 0 <= i < names.len() && names[i] == s@;
            assert(one_of@[i]@ == s@);
        }
    }
    match v {
        JsonValue::Number(n) => {
            assert(n.json() is Int || n.json() is Float);
        },
        JsonValue::Array(xs) => {
            crate::json::lemma_array_view(xs);
        },
        JsonValue::Object(es) => {
            crate::json::lemma_object_view(es);
        },
        _ => {},
    }
}

/// Checks that a value has the representation of a scalar type.
pub fn check_value_has_representation(
    representation: &TypeRepresentation,
    value: &JsonValue,
    json_path: &Vec<String>,
) -> (r: Result<(), Error>)
    ensures
        fault_of(r) == representation_fault(*representation, value@, path_view(json_path@)),
{
    proof {
        reveal_strlit("boolean");
        reveal_strlit("number");
        reveal_strlit("integer");
        reveal_strlit("string");
    }
    let ok = match representation {
        TypeRepresentation::Boolean => match value {
            JsonValue::Bool(_) => true,
            _ => false,
        },
        TypeRepresentation::Float32 | TypeRepresentation::Float64 => match value {
            JsonValue::Number(_) => true,
            _ => false,
        },
        TypeRepresentation::Int8 | TypeRepresentation::Int16 | TypeRepresentation::Int32 => value.as_i64().is_some(),
        TypeRepresentation::String | TypeRepresentation::Int64 | TypeRepresentation::BigInteger
        | TypeRepresentation::BigDecimal | TypeRepresentation::UUID | TypeRepresentation::Date
        | TypeRepresentation::Timestamp | TypeRepresentation::TimestampTZ
        | TypeRepresentation::Bytes => value.as_str().is_some(),
        TypeRepresentation::Enum { one_of } => match value.as_str() {
            Some(s) => contains_string(one_of, s),
            None => false,
        },
        TypeRepresentation::Geography | TypeRepresentation::Geometry | TypeRepresentation::JSON => true,
    };
    if ok {
        Ok(())
    } else {
        let expected = match representation {
            TypeRepresentation::Boolean => "boolean",
            TypeRepresentation::Float32 | TypeRepresentation::Float64 => "number",
            TypeRepresentation::Int8 | TypeRepresentation::Int16 | TypeRepresentation::Int32 => "integer",
            _ => "string",
        };
        Err(Error::InvalidValueInResponse(json_path.clone(), expected.to_string()))
    }
}

/// Whether a list of strings holds one equal to `s`.
pub fn contains_string(list: &Vec<String>, s: &String) -> (b: bool)
    ensures
        b == list@.map_values(|x: String| x@).contains(s@),
{
    let mut i: usize = 0;
    while i < list.len()
        invariant
            i <= list.len(),
            forall|j: int| 0 <= j < i ==> list@[j]@ != s@,
        decreases list.len() - i,
    {
        if list[i] == *s {
            proof {
                assert(list@.map_values(|x: String| x@)[i as int] == s@);
            }
            return true;
        }
        i += 1;
    }
    proof {
        if list@.map_values(|x: String| x@).contains(s@) {
            let m = list@.map_values(|x: String| x@);
            let j = choose|j: int| 0 <= j < m.len() && #[trigger] m[j] == s@;
            assert(list@[j]@ == s@);
        }
    }
    false
}

/// Whether a test of values on predicate types depends on nothing but the
/// meaning of the value it is given.
pub open spec fn deterministic<F: Fn(&JsonValue) -> bool>(is_expression: F) -> bool {
    forall|v: &JsonValue, w: &JsonValue, a: bool, b: bool|
        v@ == w@ && is_expression.ensures((v,), a) && is_expression.ensures((w,), b) ==> a == b
}

/// The values that a test of values on predicate types accepts.
pub open spec fn accepted_by<F: Fn(&JsonValue) -> bool>(is_expression: F) -> spec_fn(Json) -> bool {
    |j: Json| exists|v: &JsonValue| v@ == j && is_expression.ensures((v,), true)
}

/// How deeply a type nests nullable and array types.
pub open spec fn type_height(ty: Type) -> nat
    decreases ty,
{
    match ty {
        Type::Nullable { underlying_type } => 1 + type_height(*underlying_type),
        Type::Array { element_type } => 1 + type_height(*element_type),
        Type::Named { .. } => 0,
        Type::Predicate { .. } => 0,
    }
}

/// The faults of an object's fields against the fields of an object type,
/// in the order of the object type's fields: a field the object lacks is
/// missing, a field it has is checked against the field's type.
pub open spec fn object_faults(
    schema: SchemaResponse,
    v: Json,
    fields: Seq<(Seq<char>, ObjectField)>,
    path: Seq<Seq<char>>,
    accepts: spec_fn(Json) -> bool,
) -> Seq<Option<Fault>>
    decreases v, 0nat,
{
    let m = v->Object_0;
    Seq::new(
        fields.len(),
        |i: int|
            {
                let k = fields[i].0;
                if v is Object && m.contains_key(k) {
                    value_type_fault(schema, m[k], fields[i].1.field_type, path.push(k), accepts)
                } else {
                    Some(Fault::MissingField(k))
                }
            },
    )
}

/// The faults of an array's elements against an element type, in order.
pub open spec fn element_faults(
    schema: SchemaResponse,
    v: Json,
    element_type: Type,
    path: Seq<Seq<char>>,
    accepts: spec_fn(Json) -> bool,
) -> Seq<Option<Fault>>
    decreases v, 0nat,
{
    let vs = v->Array_0;
    Seq::new(
        vs.len(),
        |i: int|
            if v is Array && 0 <= i < vs.len() {
                value_type_fault(schema, vs[i], element_type, path.push(decimal(i as nat)), accepts)
            } else {
                None
            },
    )
}

/// The first fault of a value against a type, at `path`: nulls are admitted
/// by nullable types only, objects are checked field by field against the
/// object type a name refers to, scalars against their representation,
/// arrays element by element, and values of predicate types must be
/// accepted by `accepts`.
pub open spec fn value_type_fault(
    schema: SchemaResponse,
    v: Json,
    ty: Type,
    path: Seq<Seq<char>>,
    accepts: spec_fn(Json) -> bool,
) -> Option<Fault>
    decreases v, 1 + type_height(ty),
{
    match ty {
        Type::Nullable { underlying_type } => if v is Null {
            None
        } else {
            value_type_fault(schema, v, *underlying_type, path, accepts)
        },
        Type::Named { name } => if schema.object_types.map().contains_key(name@) {
            match v {
                Json::Object(_) => first_fault(
                    object_faults(schema, v, schema.object_types.map()[name@].fields.items(), path, accepts),
                ),
                _ => Some(Fault::InvalidValueInResponse(path, "object"@)),
            }
        } else if schema.scalar_types.map().contains_key(name@) {
            representation_fault(schema.scalar_types.map()[name@].representation, v, path)
        } else {
            Some(Fault::NamedTypeIsNotDefined(name@))
        },
        Type::Array { element_type } => match v {
            Json::Array(_) => first_fault(element_faults(schema, v, *element_type, path, accepts)),
            _ => Some(Fault::InvalidValueInResponse(path, "array"@)),
        },
        Type::Predicate { .. } => if accepts(v) {
            None
        } else {
            Some(Fault::InvalidValueInResponse(path, "expression"@))
        },
    }
}

/// Nullable types admit null and otherwise check as their underlying type;
/// an array type admits an array exactly when each element has the
/// element type, at the path of its index, and refuses any other value as
/// not an array.
pub proof fn lemma_value_type_laws(
    schema: SchemaResponse,
    v: Json,
    vs: Seq<Json>,
    t: Type,
    path: Seq<Seq<char>>,
    accepts: spec_fn(Json) -> bool,
)
    ensures
        value_type_fault(schema, Json::Null, Type::Nullable { underlying_type: Box::new(t) }, path, accepts) is None,
        !(v is Null) ==> value_type_fault(schema, v, Type::Nullable { underlying_type: Box::new(t) }, path, accepts)
            == value_type_fault(schema, v, t, path, accepts),
        value_type_fault(schema, Json::Array(vs), Type::Array { element_type: Box::new(t) }, path, accepts) is None
            <==> forall|i: int| 0 <= i < vs.len() ==> (#[trigger] value_type_fault(
            schema,
            vs[i],
            t,
            path.push(decimal(i as nat)),
            accepts,
        )) is None,
        !(v is Array) ==> value_type_fault(schema, v, Type::Array { element_type: Box::new(t) }, path, accepts)
            == Some(Fault::InvalidValueInResponse(path, "array"@)),
{
    let a = Json::Array(vs);
    let fs = element_faults(schema, a, t, path, accepts);
    crate::error::lemma_first_fault_none(fs);
    assert forall|i: int| 0 <= i < vs.len() implies #[trigger] fs[i] == value_type_fault(
        schema,
        vs[i],
        t,
        path.push(decimal(i as nat)),
        accepts,
    ) by {}
    assert(fs.len() == vs.len());
    if value_type_fault(schema, a, Type::Array { element_type: Box::new(t) }, path, accepts) is None {
        assert(first_fault(fs) is None);
        assert forall|i: int| 0 <= i < vs.len() implies (#[trigger] value_type_fault(
            schema,
            vs[i],
            t,
            path.push(decimal(i as nat)),
            accepts,
        )) is None by {
            assert(fs[i] is None);
        }
    }
    if forall|i: int| 0 <= i < vs.len() ==> (#[trigger] value_type_fault(
        schema,
        vs[i],
        t,
        path.push(decimal(i as nat)),
        accepts,
    )) is None {
        assert forall|i: int| 0 <= i < fs.len() implies #[trigger] fs[i] is None by {
            assert(fs[i] == value_type_fault(schema, vs[i], t, path.push(decimal(i as nat)), accepts));
        }
        assert(first_fault(fs) is None);
    }
}

/// Checks that a value has a type: nulls only where the type is nullable,
/// objects field by field against the object type that a name refers to,
/// scalars against their representation, arrays element by element, and
/// values of predicate types by `is_expression`.
pub fn check_value_has_type<F: Fn(&JsonValue) -> bool>(
    schema: &SchemaResponse,
    collection_relationships: &Dict<Relationship>,
    value: &JsonValue,
    ty: &Type,
    json_path: &Vec<String>,
    is_expression: &F,
) -> (r: Result<(), Error>)
    requires
        forall|v: &JsonValue| is_expression.requires((v,)),
        deterministic(*is_expression),
    ensures
        fault_of(r) == value_type_fault(
            *schema,
            value@,
            *ty,
            path_view(json_path@),
            accepted_by(*is_expression),
        ),
    decreases value, ty,
{
    let ghost accepts = accepted_by(*is_expression);
    let ghost path = path_view(json_path@);
    proof {
        reveal_strlit("object");
        reveal_strlit("array");
        reveal_strlit("expression");
    }
    match ty {
        Type::Nullable { underlying_type } => {
            if value.is_null() {
                Ok(())
            } else {
                check_value_has_type(
                    schema,
                    collection_relationships,
                    value,
                    underlying_type,
                    json_path,
                    is_expression,
                )
            }
        },
        Type::Named { name } => {
            match schema.object_types.get(name) {
                Some(object_type) => {
                    match value {
                        JsonValue::Object(es) => {
                            let ghost fields = object_type.fields.items();
                            let ghost m = entries_map(object_entries(es@));
                            let ghost results = object_faults(*schema, value@, fields, path, accepts);
                            proof {
                                lemma_object_view(*es);
                                assert(entry_keys(object_entries(es@)) =~= string_keys(es@));
                            }
                            proof {
                                assert(value_type_fault(*schema, value@, *ty, path, accepts)
                                    == first_fault(results));
                            }
                            let mut i: usize = 0;
                            while i < object_type.fields.len()
                                invariant
                                    forall|v: &JsonValue| is_expression.requires((v,)),
                                    deterministic(*is_expression),
                                    accepts == accepted_by(*is_expression),
                                    path == path_view(json_path@),
                                    *value == JsonValue::Object(*es),
                                    fields == object_type.fields.items(),
                                    i <= fields.len(),
                                    results.len() == fields.len(),
                                    m == entries_map(object_entries(es@)),
                                    value@ == Json::Object(m),
                                    entry_keys(object_entries(es@)) == string_keys(es@),
                                    results == object_faults(*schema, value@, fields, path, accepts),
                                    value_type_fault(*schema, value@, *ty, path, accepts) == first_fault(results),
                                    first_fault(results.take(i as int)) is None,
                                decreases fields.len() - i,
                            {
                                let (k, f) = object_type.fields.get_index(i);
                                proof {
                                    lemma_first_fault_step(results, i as int);
                                }
                                proof {
                                    crate::json::lemma_last_key_index(string_keys(es@), k@);
                                    lemma_entries_map(object_entries(es@), k@);
                                    assert(string_keys(es@).len() == es.len());
                                }
                                match find_last_key(es, k) {
                                    Some(idx) => {
                                        let new_path = extend_path(json_path, k.clone());
                                        proof {
                                            assert(object_entries(es@)[idx as int].1 == es@[idx as int].1@);
                                            assert(decreases_to!(*value => (*value)->Object_0));
                                            assert(decreases_to!(*es => es[idx as int]));
                                            assert(decreases_to!(es[idx as int] => es[idx as int].1));
                                        }
                                        let res = check_value_has_type(
                                            schema,
                                            collection_relationships,
                                            &es[idx].1,
                                            &f.field_type,
                                            &new_path,
                                            is_expression,
                                        );
                                        match res {
                                            Err(e) => {
                                                proof {
                                                    lemma_first_fault_prefix(results, i + 1);
                                                }
                                                return Err(e);
                                            },
                                            Ok(()) => {},
                                        }
                                    },
                                    None => {
                                        proof {
                                            lemma_first_fault_prefix(results, i + 1);
                                        }
                                        return Err(Error::MissingField(k.clone()));
                                    },
                                }
                                i += 1;
                            }
                            proof {
                                lemma_first_fault_all(results);
                            }
                            Ok(())
                        },
                        _ => Err(Error::InvalidValueInResponse(json_path.clone(), "object".to_string())),
                    }
                },
                None => match schema.scalar_types.get(name) {
                    Some(scalar_type) => check_value_has_representation(
                        &scalar_type.representation,
                        value,
                        json_path,
                    ),
                    None => Err(Error::NamedTypeIsNotDefined(name.clone())),
                },
            }
        },
        Type::Array { element_type } => {
            match value {
                JsonValue::Array(vs) => {
                    let ghost js = vs@.map_values(|x: JsonValue| x@);
                    let ghost results = element_faults(*schema, value@, **element_type, path, accepts);
                    proof {
                        lemma_array_view(*vs);
                    }
                    proof {
                        assert(value_type_fault(*schema, value@, *ty, path, accepts) == first_fault(
                            results,
                        ));
                    }
                    let mut i: usize = 0;
                    while i < vs.len()
                        invariant
                            forall|v: &JsonValue| is_expression.requires((v,)),
                            deterministic(*is_expression),
                            accepts == accepted_by(*is_expression),
                            path == path_view(json_path@),
                            *value == JsonValue::Array(*vs),
                            i <= vs.len(),
                            results.len() == vs.len(),
                            js == vs@.map_values(|x: JsonValue| x@),
                            value@ == Json::Array(js),
                            results == element_faults(*schema, value@, **element_type, path, accepts),
                            value_type_fault(*schema, value@, *ty, path, accepts) == first_fault(results),
                            first_fault(results.take(i as int)) is None,
                        decreases vs.len() - i,
                    {
                        proof {
                            lemma_first_fault_step(results, i as int);
                            assert(decreases_to!(*value => (*value)->Array_0));
                            assert(decreases_to!(*vs => vs[i as int]));
                        }
                        let new_path = extend_path(json_path, usize_to_string(i));
                        let res = check_value_has_type(
                            schema,
                            collection_relationships,
                            &vs[i],
                            element_type,
                            &new_path,
                            is_expression,
                        );
                        match res {
                            Err(e) => {
                                proof {
                                    lemma_first_fault_prefix(results, i + 1);
                                }
                                return Err(e);
                            },
                            Ok(()) => {},
                        }
                        i += 1;
                    }
                    proof {
                        lemma_first_fault_all(results);
                    }
                    Ok(())
                },
                _ => Err(Error::InvalidValueInResponse(json_path.clone(), "array".to_string())),
            }
        },
        Type::Predicate { object_type_name: _ } => {
            if is_expression(value) {
                proof {
                    assert(accepts(value@));
                }
                Ok(())
            } else {
                Err(Error::InvalidValueInResponse(json_path.clone(), "expression".to_string()))
            }
        },
    }
}

/// The type of each field of an object type.
pub open spec fn field_types(ot: ObjectType) -> Map<Seq<char>, Type> {
    ot.fields.map().map_values(|f: ObjectField| f.field_type)
}

/// The first collection with a name.
pub open spec fn first_collection(cs: Seq<CollectionInfo>, name: Seq<char>) -> Option<CollectionInfo>
    decreases cs.len(),
{
    if cs.len() == 0 {
        None
    } else if cs[0].name@ == name {
        Some(cs[0])
    } else {
        first_collection(cs.drop_first(), name)
    }
}

/// The first function with a name.
pub open spec fn first_function(fs: Seq<FunctionInfo>, name: Seq<char>) -> Option<FunctionInfo>
    decreases fs.len(),
{
    if fs.len() == 0 {
        None
    } else if fs[0].name@ == name {
        Some(fs[0])
    } else {
        first_function(fs.drop_first(), name)
    }
}

/// The field types of the rows of a collection: those of its object type
/// for a collection, a single field `__value` of the result type for a
/// function.
pub open spec fn collection_field_types(schema: SchemaResponse, name: Seq<char>) -> Result<
    Map<Seq<char>, Type>,
    Fault,
> {
    match first_collection(schema.collections@, name) {
        Some(c) => if schema.object_types.map().contains_key(c.collection_type@) {
            Ok(field_types(schema.object_types.map()[c.collection_type@]))
        } else {
            Err(Fault::ObjectTypeIsNotDefined(c.collection_type@))
        },
        None => match first_function(schema.functions@, name) {
            Some(f) => Ok(map!["__value"@ => f.result_type]),
            None => Err(Fault::CollectionIsNotDefined(name)),
        },
    }
}

/// A row set returned for a function is checked as one for a collection
/// whose object type has the single field `__value`, of the function's
/// result type.
pub proof fn lemma_function_rowset_as_value_column(
    schema: SchemaResponse,
    rels: Dict<Relationship>,
    name: Seq<char>,
    query: Query,
    rs: RowSetSpec,
    path: Seq<Seq<char>>,
    accepts: spec_fn(Json) -> bool,
    f: FunctionInfo,
    ot: ObjectType,
)
    requires
        first_collection(schema.collections@, name) is None,
        first_function(schema.functions@, name) == Some(f),
        ot.fields.items().len() == 1,
        ot.fields.items()[0].0 == "__value"@,
        ot.fields.items()[0].1.field_type == f.result_type,
    ensures
        rowset_fault(schema, rels, name, query, rs, path, accepts) == rowset_vs_fault(
            schema,
            rels,
            field_types(ot),
            query,
            rs,
            path,
            accepts,
        ),
{
    reveal_with_fuel(crate::json::entries_map, 2);
    let items = ot.fields.items();
    assert(items.drop_last().len() == 0);
    assert(ot.fields.map() =~= Map::<Seq<char>, ObjectField>::empty().insert("__value"@, items[0].1));
    assert(field_types(ot) =~= map!["__value"@ => f.result_type]);
}

/// Removes the entry at `i` by moving the last entry into its place.
pub open spec fn swap_remove_at<A>(s: Seq<A>, i: int) -> Seq<A> {
    s.update(i, s.last()).drop_last()
}

/// Whether a value can be a count.
pub open spec fn is_number(j: Json) -> bool {
    j is Int || j is Float
}

/// The first fault of returned aggregates against the requested ones: each
/// requested aggregate must be returned, counts as numbers, and nothing may
/// be returned that was not requested.
pub open spec fn aggregates_fault(
    requested: Seq<(Seq<char>, Aggregate)>,
    remaining: Seq<(Seq<char>, JsonValue)>,
) -> Option<Fault>
    decreases requested.len(),
{
    if requested.len() == 0 {
        if remaining.len() > 0 {
            Some(Fault::UnexpectedField(remaining[0].0))
        } else {
            None
        }
    } else {
        let name = requested[0].0;
        let idx = last_key_index(entry_keys(remaining), name);
        if 0 <= idx < remaining.len() {
            if (requested[0].1 is ColumnCount || requested[0].1 is StarCount) && !is_number(
                remaining[idx].1@,
            ) {
                Some(Fault::ResponseDoesNotSatisfy("count should be an integer"@))
            } else {
                aggregates_fault(requested.drop_first(), swap_remove_at(remaining, idx))
            }
        } else {
            Some(Fault::MissingField(name))
        }
    }
}

/// The message of a number of rows that does not fit in 32 bits.
pub open spec fn row_count_overflow_message() -> Seq<char> {
    "out of range integral type conversion attempted"@
}

/// The first fault of a row set returned for a query on a collection.
pub open spec fn rowset_fault(
    schema: SchemaResponse,
    rels: Dict<Relationship>,
    collection: Seq<char>,
    query: Query,
    rs: RowSetSpec,
    path: Seq<Seq<char>>,
    accepts: spec_fn(Json) -> bool,
) -> Option<Fault>
    decreases query, 2nat,
{
    match collection_field_types(schema, collection) {
        Err(f) => Some(f),
        Ok(ot) => rowset_vs_fault(schema, rels, ot, query, rs, path, accepts),
    }
}

/// The first fault of a row set returned for a query on rows with the given
/// field types: rows are present exactly when fields were requested, and
/// aggregates exactly when aggregates were.
pub open spec fn rowset_vs_fault(
    schema: SchemaResponse,
    rels: Dict<Relationship>,
    ot: Map<Seq<char>, Type>,
    query: Query,
    rs: RowSetSpec,
    path: Seq<Seq<char>>,
    accepts: spec_fn(Json) -> bool,
) -> Option<Fault>
    decreases query, 1nat,
{
    let rows_part = match query.fields {
        Some(fields) => match rs.rows {
            Some(rows) => rows_fault(schema, rels, ot, query.limit, fields, rows, path.push("rows"@), accepts),
            None => Some(Fault::RowsShouldBeNonNullInRowSet),
        },
        None => match rs.rows {
            Some(_) => Some(Fault::RowsShouldBeNullInRowSet),
            None => None,
        },
    };
    if rows_part is Some {
        rows_part
    } else {
        match query.aggregates {
            Some(requested) => match rs.aggregates {
                Some(aggs) => aggregates_fault(requested.items(), aggs),
                None => Some(Fault::AggregatesShouldBeNonNullInRowSet),
            },
            None => match rs.aggregates {
                Some(_) => Some(Fault::AggregatesShouldBeNullInRowSet),
                None => None,
            },
        }
    }
}

/// The first fault of returned rows: no more than the limit, and each
/// requested field present in each row with a value that fits it.
pub open spec fn rows_fault(
    schema: SchemaResponse,
    rels: Dict<Relationship>,
    ot: Map<Seq<char>, Type>,
    limit: Option<u32>,
    fields: Dict<Field>,
    rows: Seq<Seq<(Seq<char>, JsonValue)>>,
    path: Seq<Seq<char>>,
    accepts: spec_fn(Json) -> bool,
) -> Option<Fault>
    decreases fields, 2nat,
{
    if limit is Some && rows.len() > u32::MAX {
        Some(Fault::OtherError(row_count_overflow_message()))
    } else if limit is Some && rows.len() > limit->0 {
        Some(Fault::TooManyRowsInResponse(limit->0 as nat, rows.len()))
    } else {
        first_fault(row_faults(schema, rels, ot, fields, rows, path, accepts))
    }
}

/// The first fault of each row, in order.
pub open spec fn row_faults(
    schema: SchemaResponse,
    rels: Dict<Relationship>,
    ot: Map<Seq<char>, Type>,
    fields: Dict<Field>,
    rows: Seq<Seq<(Seq<char>, JsonValue)>>,
    path: Seq<Seq<char>>,
    accepts: spec_fn(Json) -> bool,
) -> Seq<Option<Fault>>
    decreases fields, 1nat,
{
    Seq::new(
        rows.len(),
        |i: int|
            first_fault(
                row_field_faults(schema, rels, ot, fields, rows[i], path.push(decimal(i as nat)), accepts),
            ),
    )
}

/// The faults of one row against the requested fields, in the order of the
/// fields.
pub open spec fn row_field_faults(
    schema: SchemaResponse,
    rels: Dict<Relationship>,
    ot: Map<Seq<char>, Type>,
    fields: Dict<Field>,
    row: Seq<(Seq<char>, JsonValue)>,
    path: Seq<Seq<char>>,
    accepts: spec_fn(Json) -> bool,
) -> Seq<Option<Fault>>
    decreases fields, 0nat,
{
    Seq::new(
        fields.items().len(),
        |j: int|
            {
                let k = fields.items()[j].0;
                match lookup(row, k) {
                    Some(v) => if 0 <= j < fields.items().len() {
                        field_fault(schema, rels, ot, k, fields.items()[j].1, v, path.push(k), accepts)
                    } else {
                        None
                    },
                    None => Some(Fault::MissingField(k)),
                }
            },
    )
}

/// The first fault of the value of a requested field: a column's value
/// must fit the column's type and any nested selection, a relationship's
/// value must be a row set that fits the subquery.
pub open spec fn field_fault(
    schema: SchemaResponse,
    rels: Dict<Relationship>,
    ot: Map<Seq<char>, Type>,
    name: Seq<char>,
    field: Field,
    v: JsonValue,
    path: Seq<Seq<char>>,
    accepts: spec_fn(Json) -> bool,
) -> Option<Fault>
    decreases field, 0nat,
{
    match field {
        Field::Column { column, fields, .. } => if ot.contains_key(column@) {
            match fields {
                Some(n) => nested_fault(schema, rels, v, ot[column@], n, path, accepts),
                None => value_type_fault(schema, v@, ot[column@], path, accepts),
            }
        } else {
            Some(Fault::FieldIsNotDefined(column@))
        },
        Field::Relationship { query, relationship, .. } => match rowset_of_json(v) {
            Some(rs) => if rels.map().contains_key(relationship@) {
                rowset_fault(
                    schema,
                    rels,
                    rels.map()[relationship@].target_collection@,
                    *query,
                    rs,
                    path,
                    accepts,
                )
            } else {
                Some(Fault::RelationshipIsNotDefined(relationship@))
            },
            None => Some(Fault::ExpectedRowSet(name)),
        },
    }
}

/// The first fault of a value against a type and a nested selection.
pub open spec fn nested_fault(
    schema: SchemaResponse,
    rels: Dict<Relationship>,
    v: JsonValue,
    ty: Type,
    n: NestedField,
    path: Seq<Seq<char>>,
    accepts: spec_fn(Json) -> bool,
) -> Option<Fault>
    decreases n, 3nat,
{
    match n {
        NestedField::Object(o) => nested_object_fault(schema, rels, v, ty, o.fields, path, accepts),
        NestedField::Array(a) => nested_array_fault(schema, rels, v, ty, *a.fields, path, accepts),
        NestedField::Collection(c) => nested_collection_fault(schema, rels, v, ty, c.query, path, accepts),
    }
}

/// The first fault of a value against an object selection: null where the
/// type is nullable, or an object of an object type whose selected fields
/// fit.
pub open spec fn nested_object_fault(
    schema: SchemaResponse,
    rels: Dict<Relationship>,
    v: JsonValue,
    ty: Type,
    fields: Dict<Field>,
    path: Seq<Seq<char>>,
    accepts: spec_fn(Json) -> bool,
) -> Option<Fault>
    decreases fields, 2nat,
{
    match v {
        JsonValue::Null => if nullable(ty) {
            None
        } else {
            Some(Fault::InvalidValueInResponse(path, "object"@))
        },
        JsonValue::Object(es) => match object_type_of(schema, ty) {
            None => Some(Fault::ExpectedObjectType(path)),
            Some(ot2) => first_fault(
                object_selection_faults(schema, rels, es, field_types(ot2), fields, path, accepts),
            ),
        },
        _ => Some(Fault::InvalidValueInResponse(path, "object"@)),
    }
}

/// The faults of the selected fields of an object, in the order of the
/// selection; fields the object lacks are passed over.
pub open spec fn object_selection_faults(
    schema: SchemaResponse,
    rels: Dict<Relationship>,
    es: Vec<(String, JsonValue)>,
    ot: Map<Seq<char>, Type>,
    fields: Dict<Field>,
    path: Seq<Seq<char>>,
    accepts: spec_fn(Json) -> bool,
) -> Seq<Option<Fault>>
    decreases fields, 1nat,
{
    Seq::new(
        fields.items().len(),
        |j: int|
            {
                let k = fields.items()[j].0;
                match lookup(string_entries(es@), k) {
                    Some(x) => if 0 <= j < fields.items().len() {
                        field_fault(schema, rels, ot, k, fields.items()[j].1, x, path.push(k), accepts)
                    } else {
                        None
                    },
                    None => None,
                }
            },
    )
}

/// The first fault of a value against an array selection: null where the
/// type is nullable, or an array whose elements fit the element type and
/// the inner selection.
pub open spec fn nested_array_fault(
    schema: SchemaResponse,
    rels: Dict<Relationship>,
    v: JsonValue,
    ty: Type,
    inner: NestedField,
    path: Seq<Seq<char>>,
    accepts: spec_fn(Json) -> bool,
) -> Option<Fault>
    decreases inner, 5nat,
{
    match v {
        JsonValue::Null => if nullable(ty) {
            None
        } else {
            Some(Fault::InvalidValueInResponse(path, "array"@))
        },
        JsonValue::Array(vs) => first_fault(array_selection_faults(schema, rels, vs, ty, inner, path, accepts)),
        _ => Some(Fault::InvalidValueInResponse(path, "array"@)),
    }
}

/// The faults of the elements of an array against the element type of an
/// array type and an inner selection, in order.
pub open spec fn array_selection_faults(
    schema: SchemaResponse,
    rels: Dict<Relationship>,
    vs: Vec<JsonValue>,
    ty: Type,
    inner: NestedField,
    path: Seq<Seq<char>>,
    accepts: spec_fn(Json) -> bool,
) -> Seq<Option<Fault>>
    decreases inner, 4nat,
{
    Seq::new(
        vs.len() as nat,
        |i: int|
            match array_element(ty) {
                None => Some(Fault::ExpectedArrayType(path)),
                Some(et) => if 0 <= i < vs.len() {
                    nested_fault(schema, rels, vs@[i], et, inner, path.push(decimal(i as nat)), accepts)
                } else {
                    None
                },
            },
    )
}

/// The first fault of a value against a nested collection query: null
/// where the type is nullable, or a row set that fits the query on the
/// object type of the array type's elements.
pub open spec fn nested_collection_fault(
    schema: SchemaResponse,
    rels: Dict<Relationship>,
    v: JsonValue,
    ty: Type,
    query: Query,
    path: Seq<Seq<char>>,
    accepts: spec_fn(Json) -> bool,
) -> Option<Fault>
    decreases query, 3nat,
{
    if v is Null {
        if nullable(ty) {
            None
        } else {
            Some(Fault::InvalidValueInResponse(path, "rowset"@))
        }
    } else {
        match rowset_of_json(v) {
            None => Some(Fault::InvalidValueInResponse(path, "rowset"@)),
            Some(rs) => match array_element(ty) {
                None => Some(Fault::ExpectedArrayType(path)),
                Some(at) => match object_type_of(schema, at) {
                    None => Some(Fault::ExpectedObjectType(path)),
                    Some(ot2) => rowset_vs_fault(schema, rels, field_types(ot2), query, rs, path, accepts),
                },
            },
        }
    }
}

/// The object type of the rows of a collection: declared by the schema, or
/// made for the result of a function.
pub enum CollectionType<'a> {
    Declared(&'a ObjectType),
    FunctionResult(ObjectType),
}

impl<'a> CollectionType<'a> {
    pub open spec fn object_type(&self) -> ObjectType {
        match self {
            CollectionType::Declared(o) => **o,
            CollectionType::FunctionResult(o) => *o,
        }
    }

    pub fn get(&self) -> (r: &ObjectType)
        ensures
            *r == self.object_type(),
    {
        match self {
            CollectionType::Declared(o) => o,
            CollectionType::FunctionResult(o) => o,
        }
    }
}

/// Finds the object type of the rows of a collection: that of the first
/// collection with the name, or a single field `__value` of the result type
/// of the first function with the name.
pub fn find_collection_type_by_name<'a>(
    schema: &'a SchemaResponse,
    collection_name: &String,
) -> (r: Result<CollectionType<'a>, Error>)
    ensures
        match r {
            Ok(t) => collection_field_types(*schema, collection_name@) == Ok::<
                Map<Seq<char>, Type>,
                Fault,
            >(field_types(t.object_type())),
            Err(e) => collection_field_types(*schema, collection_name@) == Err::<
                Map<Seq<char>, Type>,
                Fault,
            >(e@),
        },
{
    let ghost name = collection_name@;
    let ghost cs = schema.collections@;
    proof {
        assert(cs.skip(0) =~= cs);
    }
    let mut i: usize = 0;
    while i < schema.collections.len()
        invariant
            i <= cs.len(),
            cs == schema.collections@,
            name == collection_name@,
            first_collection(cs, name) == first_collection(cs.skip(i as int), name),
        decreases cs.len() - i,
    {
        let c = &schema.collections[i];
        proof {
            assert(cs.skip(i as int)[0] == cs[i as int]);
            assert(cs.skip(i as int).drop_first() =~= cs.skip(i + 1));
        }
        if c.name == *collection_name {
            return match schema.object_types.get(&c.collection_type) {
                Some(o) => Ok(CollectionType::Declared(o)),
                None => Err(Error::ObjectTypeIsNotDefined(c.collection_type.clone())),
            };
        }
        i += 1;
    }
    proof {
        assert(cs.skip(i as int).len() == 0);
    }
    let ghost fs = schema.functions@;
    proof {
        assert(fs.skip(0) =~= fs);
    }
    let mut j: usize = 0;
    while j < schema.functions.len()
        invariant
            j <= fs.len(),
            fs == schema.functions@,
            cs == schema.collections@,
            name == collection_name@,
            first_collection(cs, name) is None,
            first_function(fs, name) == first_function(fs.skip(j as int), name),
        decreases fs.len() - j,
    {
        let f = &schema.functions[j];
        proof {
            assert(fs.skip(j as int)[0] == fs[j as int]);
            assert(fs.skip(j as int).drop_first() =~= fs.skip(j + 1));
        }
        if f.name == *collection_name {
            let field = ObjectField {
                description: None,
                field_type: f.result_type.clone_type(),
                arguments: Dict::new(),
            };
            let mut fields: Dict<ObjectField> = Dict::new();
            let key = "__value".to_string();
            proof {
                reveal_strlit("__value");
            }
            let ghost field_copy = field;
            fields.insert(key, field);
            proof {
                assert(fields.map() == Map::<Seq<char>, ObjectField>::empty().insert("__value"@, field_copy));
                assert(fields.map().map_values(|o: ObjectField| o.field_type) =~= map!["__value"@ => f.result_type]);
            }
            let t = CollectionType::FunctionResult(
                ObjectType { description: None, fields, foreign_keys: Dict::new() },
            );
            proof {
                assert(first_function(fs.skip(j as int), name) == Some(fs[j as int]));
                assert(first_function(fs, name) == Some(*f));
                assert(field_types(t.object_type()) == map!["__value"@ => f.result_type]);
            }
            return Ok(t);
        }
        j += 1;
    }
    proof {
        assert(fs.skip(j as int).len() == 0);
    }
    Err(Error::CollectionIsNotDefined(collection_name.clone()))
}

/// Whether a test of values on predicate types can be called on any value
/// and depends on nothing but the meaning of its argument.
pub open spec fn expression_test<F: Fn(&JsonValue) -> bool>(is_expression: F) -> bool {
    &&& forall|v: &JsonValue| is_expression.requires((v,))
    &&& deterministic(is_expression)
}

/// The entries of a list of key and value references.
pub open spec fn ref_entries(s: Seq<(&String, &JsonValue)>) -> Seq<(Seq<char>, JsonValue)> {
    s.map_values(|p: (&String, &JsonValue)| (p.0@, *p.1))
}

/// The position of the last entry with a key.
fn find_ref(remaining: &Vec<(&String, &JsonValue)>, name: &String) -> (r: Option<usize>)
    ensures
        match r {
            Some(k) => k == last_key_index(entry_keys(ref_entries(remaining@)), name@),
            None => last_key_index(entry_keys(ref_entries(remaining@)), name@) == -1,
        },
{
    let ghost rem = ref_entries(remaining@);
    let mut idx = remaining.len();
    proof {
        assert(entry_keys(rem).subrange(0, idx as int) =~= entry_keys(rem));
    }
    while idx > 0
        invariant
            idx <= remaining.len(),
            rem == ref_entries(remaining@),
            last_key_index(entry_keys(rem), name@) == last_key_index(
                entry_keys(rem).subrange(0, idx as int),
                name@,
            ),
        decreases idx,
    {
        proof {
            assert(entry_keys(rem).subrange(0, idx as int).drop_last() =~= entry_keys(rem).subrange(
                0,
                idx - 1,
            ));
            assert(entry_keys(rem)[idx - 1] == remaining@[idx - 1].0@);
        }
        if *remaining[idx - 1].0 == *name {
            return Some(idx - 1);
        }
        idx -= 1;
    }
    None
}

/// Checks the returned aggregates against the requested ones: each
/// requested aggregate must be returned, counts as numbers, and nothing may
/// be returned that was not requested.
pub fn validate_aggregates(requested_aggregates: &Dict<Aggregate>, aggregates: &EntriesRef) -> (r: Result<(), Error>)
    ensures
        fault_of(r) == aggregates_fault(requested_aggregates.items(), aggregates.entries()),
{
    let ghost requested = requested_aggregates.items();
    let mut remaining: Vec<(&String, &JsonValue)> = Vec::new();
    let mut i: usize = 0;
    while i < aggregates.len()
        invariant
            i <= aggregates.entries().len(),
            ref_entries(remaining@) == aggregates.entries().take(i as int),
        decreases aggregates.entries().len() - i,
    {
        let (k, v) = aggregates.get_index(i);
        let ghost before = remaining@;
        remaining.push((k, v));
        proof {
            assert(ref_entries(remaining@) =~= ref_entries(before).push((k@, *v)));
            assert(aggregates.entries().take(i + 1) =~= aggregates.entries().take(i as int).push(
                aggregates.entries()[i as int],
            ));
        }
        i += 1;
    }
    proof {
        assert(aggregates.entries().take(i as int) =~= aggregates.entries());
        assert(requested.skip(0) =~= requested);
        reveal_strlit("count should be an integer");
    }
    let mut j: usize = 0;
    while j < requested_aggregates.len()
        invariant
            j <= requested.len(),
            requested == requested_aggregates.items(),
            aggregates_fault(requested, aggregates.entries()) == aggregates_fault(
                requested.skip(j as int),
                ref_entries(remaining@),
            ),
        decreases requested.len() - j,
    {
        let (name, aggregate) = requested_aggregates.get_index(j);
        let ghost rem = ref_entries(remaining@);
        proof {
            assert(requested.skip(j as int)[0] == requested[j as int]);
            assert(requested.skip(j as int).drop_first() =~= requested.skip(j + 1));
            lemma_last_key_index(entry_keys(rem), name@);
        }
        let k = match find_ref(&remaining, name) {
            Some(k) => k,
            None => {
                return Err(Error::MissingField(name.clone()));
            },
        };
        let value = remaining[k].1;
        let is_count = match aggregate {
            Aggregate::ColumnCount { .. } => true,
            Aggregate::StarCount { .. } => true,
            Aggregate::SingleColumn { .. } => false,
        };
        if is_count {
            let number = match value {
                JsonValue::Number(_) => true,
                _ => false,
            };
            if !number {
                return Err(Error::ResponseDoesNotSatisfy("count should be an integer".to_string()));
            }
        }
        let ghost before = remaining@;
        remaining.swap_remove(k);
        proof {
            assert(ref_entries(remaining@) =~= swap_remove_at(ref_entries(before), k as int));
        }
        j += 1;
    }
    proof {
        assert(requested.skip(j as int).len() == 0);
    }
    if remaining.len() > 0 {
        return Err(Error::UnexpectedField(remaining[0].0.clone()));
    }
    Ok(())
}

/// Checks a value against a type and an optional nested selection of its
/// fields.
pub fn check_value_matches_request<F: Fn(&JsonValue) -> bool>(
    schema: &SchemaResponse,
    collection_relationships: &Dict<Relationship>,
    value: &JsonValue,
    input_type: &Type,
    fields: Option<&NestedField>,
    json_path: &Vec<String>,
    is_expression: &F,
) -> (r: Result<(), Error>)
    requires
        expression_test(*is_expression),
    ensures
        fault_of(r) == match fields {
            Some(n) => nested_fault(
                *schema,
                *collection_relationships,
                *value,
                *input_type,
                *n,
                path_view(json_path@),
                accepted_by(*is_expression),
            ),
            None => value_type_fault(
                *schema,
                value@,
                *input_type,
                path_view(json_path@),
                accepted_by(*is_expression),
            ),
        },
{
    match fields {
        Some(n) => check_value_matches_nested(
            schema,
            collection_relationships,
            value,
            input_type,
            n,
            json_path,
            is_expression,
        ),
        None => check_value_has_type(
            schema,
            collection_relationships,
            value,
            input_type,
            json_path,
            is_expression,
        ),
    }
}

fn check_value_matches_nested<F: Fn(&JsonValue) -> bool>(
    schema: &SchemaResponse,
    collection_relationships: &Dict<Relationship>,
    value: &JsonValue,
    input_type: &Type,
    nested: &NestedField,
    json_path: &Vec<String>,
    is_expression: &F,
) -> (r: Result<(), Error>)
    requires
        expression_test(*is_expression),
    ensures
        fault_of(r) == nested_fault(
            *schema,
            *collection_relationships,
            *value,
            *input_type,
            *nested,
            path_view(json_path@),
            accepted_by(*is_expression),
        ),
    decreases *nested, 3nat,
{
    match nested {
        NestedField::Object(o) => {
            proof {
                assert(decreases_to!(*nested => nested->Object_0));
                assert(decreases_to!(nested->Object_0 => o.fields));
            }
            check_nested_object(
                schema,
                collection_relationships,
                value,
                input_type,
                &o.fields,
                json_path,
                is_expression,
            )
        },
        NestedField::Array(a) => {
            proof {
                assert(decreases_to!(*nested => nested->Array_0));
                assert(decreases_to!(nested->Array_0 => a.fields));
            }
            check_nested_array(
                schema,
                collection_relationships,
                value,
                input_type,
                &a.fields,
                json_path,
                is_expression,
            )
        },
        NestedField::Collection(c) => {
            proof {
                assert(decreases_to!(*nested => nested->Collection_0));
                assert(decreases_to!(nested->Collection_0 => c.query));
            }
            check_nested_collection(
                schema,
                collection_relationships,
                value,
                input_type,
                &c.query,
                json_path,
                is_expression,
            )
        },
    }
}

fn check_nested_object<F: Fn(&JsonValue) -> bool>(
    schema: &SchemaResponse,
    collection_relationships: &Dict<Relationship>,
    value: &JsonValue,
    input_type: &Type,
    fields: &Dict<Field>,
    json_path: &Vec<String>,
    is_expression: &F,
) -> (r: Result<(), Error>)
    requires
        expression_test(*is_expression),
    ensures
        fault_of(r) == nested_object_fault(
            *schema,
            *collection_relationships,
            *value,
            *input_type,
            *fields,
            path_view(json_path@),
            accepted_by(*is_expression),
        ),
    decreases *fields, 2nat,
{
    proof {
        reveal_strlit("object");
    }
    match value {
        JsonValue::Null => {
            if crate::common::is_nullable_type(input_type) {
                Ok(())
            } else {
                Err(Error::InvalidValueInResponse(json_path.clone(), "object".to_string()))
            }
        },
        JsonValue::Object(es) => {
            let object_type = match crate::common::get_object_type(schema, input_type) {
                Some(o) => o,
                None => {
                    return Err(Error::ExpectedObjectType(json_path.clone()));
                },
            };
            let ghost path = path_view(json_path@);
            let ghost accepts = accepted_by(*is_expression);
            let ghost items = fields.items();
            let ghost results = object_selection_faults(
                *schema,
                *collection_relationships,
                *es,
                field_types(*object_type),
                *fields,
                path,
                accepts,
            );
            let object = EntriesRef::Object(es);
            let mut j: usize = 0;
            while j < fields.len()
                invariant
                    expression_test(*is_expression),
                    path == path_view(json_path@),
                    accepts == accepted_by(*is_expression),
                    items == fields.items(),
                    object.entries() == string_entries(es@),
                    results == object_selection_faults(
                        *schema,
                        *collection_relationships,
                        *es,
                        field_types(*object_type),
                        *fields,
                        path,
                        accepts,
                    ),
                    object_type_of(*schema, *input_type) == Some(*object_type),
                    *value == JsonValue::Object(*es),
                    j <= items.len(),
                    first_fault(results.take(j as int)) is None,
                decreases items.len() - j,
            {
                let (k, fd) = fields.get_index(j);
                proof {
                    lemma_first_fault_step(results, j as int);
                }
                match object.find(k) {
                    Some(x) => {
                        let new_path = extend_path(json_path, k.clone());
                        proof {
                            assert(decreases_to!(*fields => fields.items()[j as int].1));
                        }
                        let res = validate_field_value(
                            schema,
                            collection_relationships,
                            object_type,
                            k,
                            fd,
                            x,
                            &new_path,
                            is_expression,
                        );
                        match res {
                            Err(e) => {
                                proof {
                                    lemma_first_fault_prefix(results, j + 1);
                                }
                                return Err(e);
                            },
                            Ok(()) => {},
                        }
                    },
                    None => {},
                }
                j += 1;
            }
            proof {
                lemma_first_fault_all(results);
            }
            Ok(())
        },
        _ => Err(Error::InvalidValueInResponse(json_path.clone(), "object".to_string())),
    }
}

fn check_nested_array<F: Fn(&JsonValue) -> bool>(
    schema: &SchemaResponse,
    collection_relationships: &Dict<Relationship>,
    value: &JsonValue,
    input_type: &Type,
    inner: &NestedField,
    json_path: &Vec<String>,
    is_expression: &F,
) -> (r: Result<(), Error>)
    requires
        expression_test(*is_expression),
    ensures
        fault_of(r) == nested_array_fault(
            *schema,
            *collection_relationships,
            *value,
            *input_type,
            *inner,
            path_view(json_path@),
            accepted_by(*is_expression),
        ),
    decreases *inner, 5nat,
{
    proof {
        reveal_strlit("array");
    }
    match value {
        JsonValue::Null => {
            if crate::common::is_nullable_type(input_type) {
                Ok(())
            } else {
                Err(Error::InvalidValueInResponse(json_path.clone(), "array".to_string()))
            }
        },
        JsonValue::Array(vs) => {
            let ghost path = path_view(json_path@);
            let ghost accepts = accepted_by(*is_expression);
            let ghost results = array_selection_faults(
                *schema,
                *collection_relationships,
                *vs,
                *input_type,
                *inner,
                path,
                accepts,
            );
            let mut i: usize = 0;
            while i < vs.len()
                invariant
                    expression_test(*is_expression),
                    path == path_view(json_path@),
                    accepts == accepted_by(*is_expression),
                    results == array_selection_faults(
                        *schema,
                        *collection_relationships,
                        *vs,
                        *input_type,
                        *inner,
                        path,
                        accepts,
                    ),
                    *value == JsonValue::Array(*vs),
                    i <= vs.len(),
                    first_fault(results.take(i as int)) is None,
                decreases vs.len() - i,
            {
                proof {
                    lemma_first_fault_step(results, i as int);
                }
                let element_type = match crate::common::as_array_type(input_type) {
                    Some(t) => t,
                    None => {
                        proof {
                            lemma_first_fault_prefix(results, i + 1);
                        }
                        return Err(Error::ExpectedArrayType(json_path.clone()));
                    },
                };
                let new_path = extend_path(json_path, usize_to_string(i));
                let res = check_value_matches_nested(
                    schema,
                    collection_relationships,
                    &vs[i],
                    element_type,
                    inner,
                    &new_path,
                    is_expression,
                );
                match res {
                    Err(e) => {
                        proof {
                            lemma_first_fault_prefix(results, i + 1);
                        }
                        return Err(e);
                    },
                    Ok(()) => {},
                }
                i += 1;
            }
            proof {
                lemma_first_fault_all(results);
            }
            Ok(())
        },
        _ => Err(Error::InvalidValueInResponse(json_path.clone(), "array".to_string())),
    }
}

fn check_nested_collection<F: Fn(&JsonValue) -> bool>(
    schema: &SchemaResponse,
    collection_relationships: &Dict<Relationship>,
    value: &JsonValue,
    input_type: &Type,
    query: &Query,
    json_path: &Vec<String>,
    is_expression: &F,
) -> (r: Result<(), Error>)
    requires
        expression_test(*is_expression),
    ensures
        fault_of(r) == nested_collection_fault(
            *schema,
            *collection_relationships,
            *value,
            *input_type,
            *query,
            path_view(json_path@),
            accepted_by(*is_expression),
        ),
    decreases *query, 3nat,
{
    proof {
        reveal_strlit("rowset");
    }
    if value.is_null() {
        if crate::common::is_nullable_type(input_type) {
            return Ok(());
        } else {
            return Err(Error::InvalidValueInResponse(json_path.clone(), "rowset".to_string()));
        }
    }
    match rowset_parts_of_json(value) {
        None => Err(Error::InvalidValueInResponse(json_path.clone(), "rowset".to_string())),
        Some(parts) => match crate::common::as_array_type(input_type) {
            None => Err(Error::ExpectedArrayType(json_path.clone())),
            Some(array_type) => match crate::common::get_object_type(schema, array_type) {
                None => Err(Error::ExpectedObjectType(json_path.clone())),
                Some(object_type) => validate_parts_vs_object_type(
                    schema,
                    collection_relationships,
                    object_type,
                    query,
                    &parts,
                    json_path,
                    is_expression,
                ),
            },
        },
    }
}

/// Checks the value of a requested field.
fn validate_field_value<F: Fn(&JsonValue) -> bool>(
    schema: &SchemaResponse,
    collection_relationships: &Dict<Relationship>,
    object_type: &ObjectType,
    field_name: &String,
    field: &Field,
    value: &JsonValue,
    json_path: &Vec<String>,
    is_expression: &F,
) -> (r: Result<(), Error>)
    requires
        expression_test(*is_expression),
    ensures
        fault_of(r) == field_fault(
            *schema,
            *collection_relationships,
            field_types(*object_type),
            field_name@,
            *field,
            *value,
            path_view(json_path@),
            accepted_by(*is_expression),
        ),
    decreases *field, 0nat,
{
    match field {
        Field::Column { column, fields, arguments: _ } => {
            let object_field = match object_type.fields.get(column) {
                Some(o) => o,
                None => {
                    return Err(Error::FieldIsNotDefined(column.clone()));
                },
            };
            proof {
                assert(field_types(*object_type)[column@] == object_field.field_type);
            }
            match fields {
                Some(n) => {
                    proof {
                        assert(decreases_to!(*field => field->Column_fields));
                    }
                    check_value_matches_nested(
                        schema,
                        collection_relationships,
                        value,
                        &object_field.field_type,
                        n,
                        json_path,
                        is_expression,
                    )
                },
                None => check_value_has_type(
                    schema,
                    collection_relationships,
                    value,
                    &object_field.field_type,
                    json_path,
                    is_expression,
                ),
            }
        },
        Field::Relationship { query, relationship, arguments: _ } => {
            match rowset_parts_of_json(value) {
                Some(parts) => match collection_relationships.get(relationship) {
                    Some(rel) => {
                        proof {
                            assert(decreases_to!(*field => field->Relationship_query));
                        }
                        validate_rowset_parts(
                            schema,
                            collection_relationships,
                            &rel.target_collection,
                            query,
                            &parts,
                            json_path,
                            is_expression,
                        )
                    },
                    None => Err(Error::RelationshipIsNotDefined(relationship.clone())),
                },
                None => Err(Error::ExpectedRowSet(field_name.clone())),
            }
        },
    }
}

/// Checks a row set, as read in place, returned for a query on a
/// collection.
fn validate_rowset_parts<F: Fn(&JsonValue) -> bool>(
    schema: &SchemaResponse,
    collection_relationships: &Dict<Relationship>,
    collection_name: &String,
    query: &Query,
    parts: &RowSetParts,
    json_path: &Vec<String>,
    is_expression: &F,
) -> (r: Result<(), Error>)
    requires
        expression_test(*is_expression),
    ensures
        fault_of(r) == rowset_fault(
            *schema,
            *collection_relationships,
            collection_name@,
            *query,
            parts.spec(),
            path_view(json_path@),
            accepted_by(*is_expression),
        ),
    decreases *query, 2nat,
{
    let collection_type = match find_collection_type_by_name(schema, collection_name) {
        Ok(t) => t,
        Err(e) => {
            return Err(e);
        },
    };
    validate_parts_vs_object_type(
        schema,
        collection_relationships,
        collection_type.get(),
        query,
        parts,
        json_path,
        is_expression,
    )
}

/// Checks a row set, as read in place, returned for a query on rows of an
/// object type.
fn validate_parts_vs_object_type<F: Fn(&JsonValue) -> bool>(
    schema: &SchemaResponse,
    collection_relationships: &Dict<Relationship>,
    object_type: &ObjectType,
    query: &Query,
    parts: &RowSetParts,
    json_path: &Vec<String>,
    is_expression: &F,
) -> (r: Result<(), Error>)
    requires
        expression_test(*is_expression),
    ensures
        fault_of(r) == rowset_vs_fault(
            *schema,
            *collection_relationships,
            field_types(*object_type),
            *query,
            parts.spec(),
            path_view(json_path@),
            accepted_by(*is_expression),
        ),
    decreases *query, 1nat,
{
    proof {
        reveal_strlit("rows");
    }
    match &query.fields {
        Some(fields) => match &parts.rows {
            Some(rows) => {
                let new_path = extend_path(json_path, "rows".to_string());
                proof {
                    assert(decreases_to!(*query => query.fields));
                    assert(decreases_to!(query.fields => query.fields->Some_0));
                }
                let res = validate_row_entries(
                    schema,
                    collection_relationships,
                    object_type,
                    query.limit,
                    fields,
                    rows,
                    &new_path,
                    is_expression,
                );
                match res {
                    Err(e) => {
                        return Err(e);
                    },
                    Ok(()) => {},
                }
            },
            None => {
                return Err(Error::RowsShouldBeNonNullInRowSet);
            },
        },
        None => match &parts.rows {
            Some(_) => {
                return Err(Error::RowsShouldBeNullInRowSet);
            },
            None => {},
        },
    }
    match &query.aggregates {
        Some(requested) => match &parts.aggregates {
            Some(aggregates) => validate_aggregates(requested, aggregates),
            None => Err(Error::AggregatesShouldBeNonNullInRowSet),
        },
        None => match &parts.aggregates {
            Some(_) => Err(Error::AggregatesShouldBeNullInRowSet),
            None => Ok(()),
        },
    }
}

/// Checks one row, as read in place, against the requested fields.
fn validate_row<F: Fn(&JsonValue) -> bool>(
    schema: &SchemaResponse,
    collection_relationships: &Dict<Relationship>,
    object_type: &ObjectType,
    fields: &Dict<Field>,
    row: &EntriesRef,
    row_path: &Vec<String>,
    is_expression: &F,
) -> (r: Result<(), Error>)
    requires
        expression_test(*is_expression),
    ensures
        fault_of(r) == first_fault(
            row_field_faults(
                *schema,
                *collection_relationships,
                field_types(*object_type),
                *fields,
                row.entries(),
                path_view(row_path@),
                accepted_by(*is_expression),
            ),
        ),
    decreases *fields, 1nat,
{
    let ghost accepts = accepted_by(*is_expression);
    let ghost inner = row_field_faults(
        *schema,
        *collection_relationships,
        field_types(*object_type),
        *fields,
        row.entries(),
        path_view(row_path@),
        accepts,
    );
    let mut j: usize = 0;
    while j < fields.len()
        invariant
            expression_test(*is_expression),
            accepts == accepted_by(*is_expression),
            inner == row_field_faults(
                *schema,
                *collection_relationships,
                field_types(*object_type),
                *fields,
                row.entries(),
                path_view(row_path@),
                accepts,
            ),
            j <= fields.items().len(),
            first_fault(inner.take(j as int)) is None,
        decreases fields.items().len() - j,
    {
        let (k, fd) = fields.get_index(j);
        proof {
            lemma_first_fault_step(inner, j as int);
        }
        match row.find(k) {
            Some(x) => {
                let new_path = extend_path(row_path, k.clone());
                proof {
                    assert(decreases_to!(*fields => fields.items()[j as int].1));
                }
                let res = validate_field_value(
                    schema,
                    collection_relationships,
                    object_type,
                    k,
                    fd,
                    x,
                    &new_path,
                    is_expression,
                );
                match res {
                    Err(e) => {
                        proof {
                            lemma_first_fault_prefix(inner, j + 1);
                        }
                        return Err(e);
                    },
                    Ok(()) => {},
                }
            },
            None => {
                proof {
                    lemma_first_fault_prefix(inner, j + 1);
                }
                return Err(Error::MissingField(k.clone()));
            },
        }
        j += 1;
    }
    proof {
        lemma_first_fault_all(inner);
    }
    Ok(())
}

/// Checks returned rows, as read in place, against the requested fields.
fn validate_row_entries<F: Fn(&JsonValue) -> bool>(
    schema: &SchemaResponse,
    collection_relationships: &Dict<Relationship>,
    object_type: &ObjectType,
    limit: Option<u32>,
    fields: &Dict<Field>,
    rows: &Vec<EntriesRef>,
    json_path: &Vec<String>,
    is_expression: &F,
) -> (r: Result<(), Error>)
    requires
        expression_test(*is_expression),
    ensures
        fault_of(r) == rows_fault(
            *schema,
            *collection_relationships,
            field_types(*object_type),
            limit,
            *fields,
            rows@.map_values(|e: EntriesRef| e.entries()),
            path_view(json_path@),
            accepted_by(*is_expression),
        ),
    decreases *fields, 2nat,
{
    let ghost row_seq = rows@.map_values(|e: EntriesRef| e.entries());
    match limit {
        Some(limit) => {
            if rows.len() > 4294967295usize {
                proof {
                    reveal_strlit("out of range integral type conversion attempted");
                }
                return Err(Error::OtherError("out of range integral type conversion attempted".to_string()));
            }
            let rows_returned = rows.len() as u32;
            if rows_returned > limit {
                return Err(Error::TooManyRowsInResponse(limit, rows_returned));
            }
        },
        None => {},
    }
    let ghost path = path_view(json_path@);
    let ghost accepts = accepted_by(*is_expression);
    let ghost ot = field_types(*object_type);
    let ghost outer = row_faults(*schema, *collection_relationships, ot, *fields, row_seq, path, accepts);
    let mut i: usize = 0;
    while i < rows.len()
        invariant
            expression_test(*is_expression),
            path == path_view(json_path@),
            accepts == accepted_by(*is_expression),
            ot == field_types(*object_type),
            row_seq == rows@.map_values(|e: EntriesRef| e.entries()),
            outer == row_faults(*schema, *collection_relationships, ot, *fields, row_seq, path, accepts),
            rows_fault(*schema, *collection_relationships, ot, limit, *fields, row_seq, path, accepts) == first_fault(outer),
            i <= rows.len(),
            first_fault(outer.take(i as int)) is None,
        decreases rows.len() - i,
    {
        proof {
            lemma_first_fault_step(outer, i as int);
        }
        let row_path = extend_path(json_path, usize_to_string(i));
        proof {
            assert(row_seq[i as int] == rows@[i as int].entries());
        }
        let res = validate_row(
            schema,
            collection_relationships,
            object_type,
            fields,
            &rows[i],
            &row_path,
            is_expression,
        );
        match res {
            Err(e) => {
                proof {
                    lemma_first_fault_prefix(outer, i + 1);
                }
                return Err(e);
            },
            Ok(()) => {},
        }
        i += 1;
    }
    proof {
        lemma_first_fault_all(outer);
    }
    Ok(())
}

/// Checks a row set returned for a query on a collection.
pub fn validate_rowset<F: Fn(&JsonValue) -> bool>(
    schema: &SchemaResponse,
    collection_relationships: &Dict<Relationship>,
    collection_name: &String,
    query: &Query,
    rowset: &RowSet,
    json_path: &Vec<String>,
    is_expression: &F,
) -> (r: Result<(), Error>)
    requires
        expression_test(*is_expression),
    ensures
        fault_of(r) == rowset_fault(
            *schema,
            *collection_relationships,
            collection_name@,
            *query,
            rowset_spec(*rowset),
            path_view(json_path@),
            accepted_by(*is_expression),
        ),
{
    let parts = rowset.parts();
    validate_rowset_parts(
        schema,
        collection_relationships,
        collection_name,
        query,
        &parts,
        json_path,
        is_expression,
    )
}

/// Checks a row set returned for a query on rows of an object type.
pub fn validate_rowset_vs_object_type<F: Fn(&JsonValue) -> bool>(
    schema: &SchemaResponse,
    collection_relationships: &Dict<Relationship>,
    object_type: &ObjectType,
    query: &Query,
    rowset: &RowSet,
    json_path: &Vec<String>,
    is_expression: &F,
) -> (r: Result<(), Error>)
    requires
        expression_test(*is_expression),
    ensures
        fault_of(r) == rowset_vs_fault(
            *schema,
            *collection_relationships,
            field_types(*object_type),
            *query,
            rowset_spec(*rowset),
            path_view(json_path@),
            accepted_by(*is_expression),
        ),
{
    let parts = rowset.parts();
    validate_parts_vs_object_type(
        schema,
        collection_relationships,
        object_type,
        query,
        &parts,
        json_path,
        is_expression,
    )
}

/// Checks returned rows against the requested fields and the query's
/// limit.
pub fn validate_rows<F: Fn(&JsonValue) -> bool>(
    schema: &SchemaResponse,
    collection_relationships: &Dict<Relationship>,
    object_type: &ObjectType,
    query: &Query,
    fields: &Dict<Field>,
    rows: &Vec<Dict<RowFieldValue>>,
    json_path: &Vec<String>,
    is_expression: &F,
) -> (r: Result<(), Error>)
    requires
        expression_test(*is_expression),
    ensures
        fault_of(r) == rows_fault(
            *schema,
            *collection_relationships,
            field_types(*object_type),
            query.limit,
            *fields,
            rows@.map_values(|d: Dict<RowFieldValue>| row_entries(d)),
            path_view(json_path@),
            accepted_by(*is_expression),
        ),
{
    let mut refs: Vec<EntriesRef> = Vec::new();
    let mut i: usize = 0;
    while i < rows.len()
        invariant
            i <= rows.len(),
            refs.len() == i,
            forall|j: int| 0 <= j < i ==> #[trigger] refs@[j].entries() == row_entries(rows@[j]),
        decreases rows.len() - i,
    {
        refs.push(EntriesRef::Row(&rows[i]));
        i += 1;
    }
    proof {
        assert(refs@.map_values(|e: EntriesRef| e.entries()) =~= rows@.map_values(
            |d: Dict<RowFieldValue>| row_entries(d),
        ));
    }
    validate_row_entries(
        schema,
        collection_relationships,
        object_type,
        query.limit,
        fields,
        &refs,
        json_path,
        is_expression,
    )
}

/// Checks the value of a requested field in a row.
pub fn validate_field<F: Fn(&JsonValue) -> bool>(
    schema: &SchemaResponse,
    collection_relationships: &Dict<Relationship>,
    object_type: &ObjectType,
    field_name: &String,
    field: &Field,
    row_field_value: &RowFieldValue,
    json_path: &Vec<String>,
    is_expression: &F,
) -> (r: Result<(), Error>)
    requires
        expression_test(*is_expression),
    ensures
        fault_of(r) == field_fault(
            *schema,
            *collection_relationships,
            field_types(*object_type),
            field_name@,
            *field,
            row_field_value.0,
            path_view(json_path@),
            accepted_by(*is_expression),
        ),
{
    validate_field_value(
        schema,
        collection_relationships,
        object_type,
        field_name,
        field,
        &row_field_value.0,
        json_path,
        is_expression,
    )
}

/// The number of row sets a request asks for: one per set of variables, or
/// one when there are none.
pub open spec fn expected_rowsets(request: QueryRequest) -> nat {
    match request.variables {
        None => 1,
        Some(v) => v.len() as nat,
    }
}

/// The path of the row set at an index of a response.
pub open spec fn rowset_path(i: nat) -> Seq<Seq<char>> {
    seq!["$"@, decimal(i)]
}

/// The faults of each row set of a response, in order.
pub open spec fn response_rowset_faults(
    schema: SchemaResponse,
    request: QueryRequest,
    rowsets: Seq<RowSet>,
    accepts: spec_fn(Json) -> bool,
) -> Seq<Option<Fault>> {
    Seq::new(
        rowsets.len(),
        |i: int|
            rowset_fault(
                schema,
                request.collection_relationships,
                request.collection@,
                request.query,
                rowset_spec(rowsets[i]),
                rowset_path(i as nat),
                accepts,
            ),
    )
}

/// The first fault of a response to a request: one row set for each set of
/// variables, each of which fits the query.
pub open spec fn response_fault(
    schema: SchemaResponse,
    request: QueryRequest,
    response: QueryResponse,
    accepts: spec_fn(Json) -> bool,
) -> Option<Fault> {
    if response.0.len() != expected_rowsets(request) {
        Some(Fault::UnexpectedRowsets(expected_rowsets(request), response.0.len() as nat))
    } else {
        first_fault(response_rowset_faults(schema, request, response.0@, accepts))
    }
}

/// Checks a response to a query request against the schema.
pub fn validate_response<F: Fn(&JsonValue) -> bool>(
    schema: &SchemaResponse,
    request: &QueryRequest,
    response: &QueryResponse,
    is_expression: &F,
) -> (r: Result<(), Error>)
    requires
        expression_test(*is_expression),
    ensures
        fault_of(r) == response_fault(*schema, *request, *response, accepted_by(*is_expression)),
{
    let expected_number_of_rowsets = match &request.variables {
        None => 1,
        Some(variables) => variables.len(),
    };
    if response.0.len() != expected_number_of_rowsets {
        return Err(Error::UnexpectedRowsets(expected_number_of_rowsets, response.0.len()));
    }
    let ghost accepts = accepted_by(*is_expression);
    let ghost results = response_rowset_faults(*schema, *request, response.0@, accepts);
    let mut i: usize = 0;
    while i < response.0.len()
        invariant
            expression_test(*is_expression),
            accepts == accepted_by(*is_expression),
            results == response_rowset_faults(*schema, *request, response.0@, accepts),
            response_fault(*schema, *request, *response, accepts) == first_fault(results),
            i <= response.0.len(),
            first_fault(results.take(i as int)) is None,
        decreases response.0.len() - i,
    {
        proof {
            lemma_first_fault_step(results, i as int);
            reveal_strlit("$");
        }
        let mut path: Vec<String> = Vec::new();
        path.push("$".to_string());
        path.push(usize_to_string(i));
        proof {
            assert(path_view(path@) =~= rowset_path(i as nat));
        }
        let res = validate_rowset(
            schema,
            &request.collection_relationships,
            &request.collection,
            &request.query,
            &response.0[i],
            &path,
            is_expression,
        );
        match res {
            Err(e) => {
                proof {
                    lemma_first_fault_prefix(results, i + 1);
                }
                return Err(e);
            },
            Ok(()) => {},
        }
        i += 1;
    }
    proof {
        lemma_first_fault_all(results);
    }
    Ok(())
}

/// The only row set of a response.
pub fn expect_single_rowset(response: &QueryResponse) -> (r: Result<&RowSet, Error>)
    ensures
        match r {
            Ok(rs) => response.0.len() == 1 && *rs == response.0@[0],
            Err(e) => response.0.len() != 1 && e@ == Fault::UnexpectedRowsets(
                1,
                response.0.len() as nat,
            ),
        },
{
    if response.0.len() == 1 {
        Ok(&response.0[0])
    } else {
        Err(Error::UnexpectedRowsets(1, response.0.len()))
    }
}

/// The rows of the only row set of a response.
pub fn expect_single_rows(response: &QueryResponse) -> (r: Result<&Vec<Dict<RowFieldValue>>, Error>)
    ensures
        match r {
            Ok(rows) => response.0.len() == 1 && response.0@[0].rows == Some(*rows),
            Err(e) => if response.0.len() != 1 {
                e@ == Fault::UnexpectedRowsets(1, response.0.len() as nat)
            } else {
                response.0@[0].rows is None && e@ == Fault::RowsShouldBeNonNullInRowSet
            },
        },
{
    let rowset = expect_single_rowset(response)?;
    match &rowset.rows {
        Some(rows) => Ok(rows),
        None => Err(Error::RowsShouldBeNonNullInRowSet),
    }
}

/// Checks that a response has a single row set without rows.
pub fn expect_single_empty_rows(response: &QueryResponse) -> (r: Result<(), Error>)
    ensures
        match r {
            Ok(()) => response.0.len() == 1 && (response.0@[0].rows matches Some(rows) && rows.len()
                == 0),
            Err(e) => if response.0.len() != 1 {
                e@ == Fault::UnexpectedRowsets(1, response.0.len() as nat)
            } else if response.0@[0].rows is None {
                e@ == Fault::RowsShouldBeNonNullInRowSet
            } else {
                response.0@[0].rows->Some_0.len() > 0 && e@ == Fault::ExpectedEmptyRows
            },
        },
{
    let rows = expect_single_rows(response)?;
    if rows.len() != 0 {
        return Err(Error::ExpectedEmptyRows);
    }
    Ok(())
}

/// The rows of the only row set of a response, which must have some.
pub fn expect_single_non_empty_rows(response: &QueryResponse) -> (r: Result<&Vec<Dict<RowFieldValue>>, Error>)
    ensures
        match r {
            Ok(rows) => response.0.len() == 1 && response.0@[0].rows == Some(*rows) && rows.len() > 0,
            Err(e) => if response.0.len() != 1 {
                e@ == Fault::UnexpectedRowsets(1, response.0.len() as nat)
            } else if response.0@[0].rows is None {
                e@ == Fault::RowsShouldBeNonNullInRowSet
            } else {
                response.0@[0].rows->Some_0.len() == 0 && e@ == Fault::ExpectedNonEmptyRows
            },
        },
{
    let rows = expect_single_rows(response)?;
    if rows.len() == 0 {
        return Err(Error::ExpectedNonEmptyRows);
    }
    Ok(rows)
}

/// Checks that two responses have the same meaning; when they differ, the
/// error carries both.
pub fn expect_matching_query_responses(
    response_l: &QueryResponse,
    response_r: &QueryResponse,
) -> (r: Result<(), Error>)
    ensures
        match r {
            Ok(()) => response_value(*response_l) == response_value(*response_r),
            Err(e) => response_value(*response_l) != response_value(*response_r) && e@
                == Fault::ExpectedMatchingResponses(response_value(*response_l), response_value(*response_r)),
        },
{
    if response_equal(response_l, response_r) {
        Ok(())
    } else {
        Err(Error::ExpectedMatchingResponses(crate::rowset::copy_response(response_l), crate::rowset::copy_response(response_r)))
    }
}

} // verus!
