use vstd::prelude::*;
use crate::dict::Dict;
use crate::json::JsonValue;
use crate::query::{Argument, Field};
use crate::schema::{ObjectField, ObjectType, SchemaResponse, Type};

verus! {

/// Whether a type admits null at its top level.
pub open spec fn nullable(ty: Type) -> bool {
    ty is Nullable
}

/// The name a type refers to, looking through nullability.
pub open spec fn named_type(ty: Type) -> Option<Seq<char>>
    decreases ty,
{
    match ty {
        Type::Named { name } => Some(name@),
        Type::Nullable { underlying_type } => named_type(*underlying_type),
        Type::Array { .. } => None,
        Type::Predicate { .. } => None,
    }
}

/// The element type of an array type, looking through nullability.
pub open spec fn array_element(ty: Type) -> Option<Type>
    decreases ty,
{
    match ty {
        Type::Array { element_type } => Some(*element_type),
        Type::Nullable { underlying_type } => array_element(*underlying_type),
        Type::Named { .. } => None,
        Type::Predicate { .. } => None,
    }
}

/// The object type that a type names in a schema, looking through
/// nullability.
pub open spec fn object_type_of(schema: SchemaResponse, ty: Type) -> Option<ObjectType> {
    match named_type(ty) {
        Some(n) => if schema.object_types.map().contains_key(n) {
            Some(schema.object_types.map()[n])
        } else {
            None
        },
        None => None,
    }
}

pub fn is_nullable_type(ty: &Type) -> (b: bool)
    ensures
        b == nullable(*ty),
{
    match ty {
        Type::Nullable { underlying_type: _ } => true,
        Type::Named { name: _ } => false,
        Type::Array { element_type: _ } => false,
        Type::Predicate { object_type_name: _ } => false,
    }
}

pub fn as_named_type(ty: &Type) -> (r: Option<&String>)
    ensures
        match r {
            Some(s) => named_type(*ty) == Some(s@),
            None => named_type(*ty) is None,
        },
    decreases ty,
{
    match ty {
        Type::Named { name } => Some(name),
        Type::Nullable { underlying_type } => as_named_type(underlying_type),
        Type::Array { element_type: _ } => None,
        Type::Predicate { object_type_name: _ } => None,
    }
}

pub fn get_named_type(ty: &Type) -> (r: Option<&String>)
    ensures
        match r {
            Some(s) => named_type(*ty) == Some(s@),
            None => named_type(*ty) is None,
        },
    decreases ty,
{
    match ty {
        Type::Named { name } => Some(name),
        Type::Nullable { underlying_type } => get_named_type(underlying_type),
        Type::Array { element_type: _ } => None,
        Type::Predicate { object_type_name: _ } => None,
    }
}

/// The element type of an array type, looking through nullability.
pub fn as_array_type(ty: &Type) -> (r: Option<&Type>)
    ensures
        match r {
            Some(t) => array_element(*ty) == Some(*t),
            None => array_element(*ty) is None,
        },
    decreases ty,
{
    match ty {
        Type::Array { element_type } => Some(element_type),
        Type::Nullable { underlying_type } => as_array_type(underlying_type),
        Type::Named { name: _ } => None,
        Type::Predicate { object_type_name: _ } => None,
    }
}

/// The object type that a type names in the schema, if it names one.
pub fn get_object_type<'a>(schema: &'a SchemaResponse, ty: &Type) -> (r: Option<&'a ObjectType>)
    ensures
        match r {
            Some(o) => object_type_of(*schema, *ty) == Some(*o),
            None => object_type_of(*schema, *ty) is None,
        },
{
    match as_named_type(ty) {
        Some(name) => schema.object_types.get(name),
        None => None,
    }
}

/// Whether a field takes no arguments.
pub open spec fn without_arguments(e: (Seq<char>, ObjectField)) -> bool {
    e.1.arguments.items().len() == 0
}

/// Whether every object type of a schema lists its fields in ascending
/// order of their names, as a schema does.
pub open spec fn fields_ascend(schema: SchemaResponse) -> bool {
    forall|i: int| 0 <= i < schema.object_types.items().len() ==> keys_ascending(
        (#[trigger] schema.object_types.items()[i]).1.fields.items(),
    )
}

/// Whether entries are in strictly ascending order of their keys, so that
/// no key occurs twice: the order in which a map sorted by its keys lists
/// them.
pub open spec fn keys_ascending<V>(s: Seq<(Seq<char>, V)>) -> bool {
    forall|i: int, j: int| 0 <= i < j < s.len() ==> crate::strings::lex_order(#[trigger] s[i].0, #[trigger] s[j].0) < 0
}

/// Entries whose neighbouring keys ascend are in ascending order.
pub proof fn lemma_adjacent_ascending<V>(s: Seq<(Seq<char>, V)>)
    requires
        forall|i: int| 0 <= i < s.len() - 1 ==> crate::strings::lex_order(#[trigger] s[i].0, s[i + 1].0) < 0,
    ensures
        keys_ascending(s),
    decreases s.len(),
{
    if s.len() > 1 {
        let t = s.drop_last();
        assert forall|i: int| 0 <= i < t.len() - 1 implies crate::strings::lex_order(#[trigger] t[i].0, t[i + 1].0) < 0 by {
            assert(t[i] == s[i] && t[i + 1] == s[i + 1]);
        }
        lemma_adjacent_ascending(t);
        let n = s.len() - 1;
        assert forall|i: int, j: int| 0 <= i < j < s.len() implies crate::strings::lex_order(#[trigger] s[i].0, #[trigger] s[j].0) < 0 by {
            if j < n {
                assert(t[i] == s[i] && t[j] == s[j]);
            } else if i < n - 1 {
                assert(t[i] == s[i] && t[n - 1] == s[n - 1]);
                assert(crate::strings::lex_order(s[n - 1].0, s[n].0) < 0);
                crate::strings::lemma_lex_transitive(s[i].0, s[n - 1].0, s[n].0);
            }
        }
    }
}

/// The entries that a filter keeps stay in ascending order of their keys.
proof fn lemma_filter_ascending<V>(s: Seq<(Seq<char>, V)>, pred: spec_fn((Seq<char>, V)) -> bool)
    requires
        keys_ascending(s),
    ensures
        keys_ascending(s.filter(pred)),
    decreases s.len(),
{
    reveal(Seq::filter);
    if s.len() > 0 {
        let t = s.drop_last();
        assert forall|i: int, j: int| 0 <= i < j < t.len() implies crate::strings::lex_order(#[trigger] t[i].0, #[trigger] t[j].0) < 0 by {
            assert(t[i] == s[i] && t[j] == s[j]);
        }
        lemma_filter_ascending(t, pred);
        let ft = t.filter(pred);
        if pred(s.last()) {
            let f = ft.push(s.last());
            assert(s.filter(pred) == f);
            assert forall|i: int, j: int| 0 <= i < j < f.len() implies crate::strings::lex_order(#[trigger] f[i].0, #[trigger] f[j].0) < 0 by {
                if j == f.len() - 1 {
                    assert(f[i] == ft[i]);
                    assert(ft.contains(ft[i]));
                    t.lemma_filter_contains_rev(pred, ft[i]);
                    let k = choose|k: int| 0 <= k < t.len() && t[k] == ft[i];
                    assert(s[k] == t[k]);
                    assert(s[s.len() - 1] == s.last());
                } else {
                    assert(f[i] == ft[i] && f[j] == ft[j]);
                }
            }
        }
    }
}

/// The fields of an object type that take no arguments, in ascending order
/// of their names, each once.  An object type lists its fields so, once
/// each, in ascending order of their names.
pub fn select_all_columns_without_arguments(collection_type: &ObjectType) -> (r: Vec<
    (&String, &ObjectField),
>)
    requires
        keys_ascending(collection_type.fields.items()),
    ensures
        r@.map_values(|p: (&String, &ObjectField)| (p.0@, *p.1))
            == collection_type.fields.items().filter(|e: (Seq<char>, ObjectField)| without_arguments(e)),
        keys_ascending(r@.map_values(|p: (&String, &ObjectField)| (p.0@, *p.1))),
{
    proof {
        lemma_filter_ascending(collection_type.fields.items(), |e: (Seq<char>, ObjectField)| without_arguments(e));
    }
    let fields = &collection_type.fields;
    let ghost items = fields.items();
    let ghost pred = |e: (Seq<char>, ObjectField)| without_arguments(e);
    let mut out: Vec<(&String, &ObjectField)> = Vec::new();
    let mut i: usize = 0;
    while i < fields.len()
        invariant
            i <= items.len(),
            items == fields.items(),
            pred == (|e: (Seq<char>, ObjectField)| without_arguments(e)),
            out@.map_values(|p: (&String, &ObjectField)| (p.0@, *p.1)) == items.take(i as int).filter(pred),
        decreases items.len() - i,
    {
        let (k, f) = fields.get_index(i);
        proof {
            reveal(Seq::filter);
            assert(items.take(i + 1).drop_last() =~= items.take(i as int));
            assert(items.take(i + 1).last() == items[i as int]);
        }
        if f.arguments.len() == 0 {
            let ghost before = out@;
            out.push((k, f));
            proof {
                assert(out@.map_values(|p: (&String, &ObjectField)| (p.0@, *p.1)) =~= before.map_values(
                    |p: (&String, &ObjectField)| (p.0@, *p.1),
                ).push((k@, *f)));
            }
        }
        i += 1;
    }
    proof {
        assert(items.take(i as int) =~= items);
    }
    out
}

/// Whether every argument of a field has a nullable type.
pub open spec fn arguments_all_nullable(f: ObjectField) -> bool {
    forall|j: int|
        0 <= j < f.arguments.items().len() ==> nullable(#[trigger] f.arguments.items()[j].1.argument_type)
}

/// Whether a field request asks for the column of an object type's entry,
/// with no nested selection and every argument of the column given as a
/// literal null.
pub open spec fn requests_column_with_null_arguments(e: (Seq<char>, ObjectField), f: Field) -> bool {
    match f {
        Field::Column { column, fields, arguments } => {
            &&& column@ == e.0
            &&& fields is None
            &&& arguments.items().len() == e.1.arguments.items().len()
            &&& forall|j: int|
                0 <= j < arguments.items().len() ==> #[trigger] arguments.items()[j].0
                    == e.1.arguments.items()[j].0 && (arguments.items()[j].1 matches Argument::Literal {
                    value,
                } && value@ is Null)
        },
        Field::Relationship { .. } => false,
    }
}

/// The entries of an object type's fields whose arguments are all nullable.
pub open spec fn columns_with_nullable_arguments(ot: ObjectType) -> Seq<(Seq<char>, ObjectField)> {
    ot.fields.items().filter(|e: (Seq<char>, ObjectField)| arguments_all_nullable(e.1))
}

/// A request for every column of an object type whose arguments are all
/// nullable, each argument given as a literal null, in ascending order of
/// their names, as the object type lists its fields.
pub fn select_all_columns(collection_type: &ObjectType) -> (r: Dict<Field>)
    requires
        keys_ascending(collection_type.fields.items()),
    ensures
        keys_ascending(columns_with_nullable_arguments(*collection_type)),
        r.items().len() == columns_with_nullable_arguments(*collection_type).len(),
        forall|i: int|
            0 <= i < r.items().len() ==> {
                let e = #[trigger] columns_with_nullable_arguments(*collection_type)[i];
                &&& r.items()[i].0 == e.0
                &&& requests_column_with_null_arguments(e, r.items()[i].1)
            },
{
    proof {
        lemma_filter_ascending(collection_type.fields.items(), |e: (Seq<char>, ObjectField)| arguments_all_nullable(e.1));
        assert(columns_with_nullable_arguments(*collection_type) == collection_type.fields.items().filter(
            |e: (Seq<char>, ObjectField)| arguments_all_nullable(e.1),
        ));
    }
    let fields = &collection_type.fields;
    let ghost items = fields.items();
    let ghost pred = |e: (Seq<char>, ObjectField)| arguments_all_nullable(e.1);
    let mut entries: Vec<(String, Field)> = Vec::new();
    let mut i: usize = 0;
    while i < fields.len()
        invariant
            i <= items.len(),
            items == fields.items(),
            pred == (|e: (Seq<char>, ObjectField)| arguments_all_nullable(e.1)),
            entries.len() == items.take(i as int).filter(pred).len(),
            forall|m: int|
                0 <= m < entries.len() ==> {
                    let e = #[trigger] items.take(i as int).filter(pred)[m];
                    &&& entries@[m].0@ == e.0
                    &&& requests_column_with_null_arguments(e, entries@[m].1)
                },
        decreases items.len() - i,
    {
        let (k, f) = fields.get_index(i);
        proof {
            reveal(Seq::filter);
            assert(items.take(i + 1).drop_last() =~= items.take(i as int));
            assert(items.take(i + 1).last() == items[i as int]);
        }
        let mut all_nullable = true;
        let mut j: usize = 0;
        while j < f.arguments.len()
            invariant
                j <= f.arguments.items().len(),
                all_nullable == forall|m: int|
                    0 <= m < j ==> nullable(#[trigger] f.arguments.items()[m].1.argument_type),
            decreases f.arguments.items().len() - j,
        {
            let (_, a) = f.arguments.get_index(j);
            if !is_nullable_type(&a.argument_type) {
                all_nullable = false;
            }
            j += 1;
        }
        if all_nullable {
            let mut args: Vec<(String, Argument)> = Vec::new();
            let mut j: usize = 0;
            while j < f.arguments.len()
                invariant
                    j <= f.arguments.items().len(),
                    args.len() == j,
                    forall|m: int|
                        0 <= m < j ==> #[trigger] args@[m].0@ == f.arguments.items()[m].0 && (
                        args@[m].1 matches Argument::Literal { value } && value@ is Null),
                decreases f.arguments.items().len() - j,
            {
                let (name, _) = f.arguments.get_index(j);
                args.push((name.clone(), Argument::Literal { value: JsonValue::Null }));
                j += 1;
            }
            let arguments = Dict::from_entries(args);
            let field = Field::Column { column: k.clone(), fields: None, arguments };
            proof {
                assert forall|j: int| 0 <= j < arguments.items().len() implies #[trigger] arguments.items()[j].0
                    == f.arguments.items()[j].0 && (arguments.items()[j].1 matches Argument::Literal {
                    value,
                } && value@ is Null) by {
                    assert(args@[j].0@ == f.arguments.items()[j].0);
                }
                assert(requests_column_with_null_arguments(items[i as int], field));
            }
            entries.push((k.clone(), field));
        }
        i += 1;
    }
    proof {
        assert(items.take(i as int) =~= items);
    }
    Dict::from_entries(entries)
}

/// Whether the arguments of a field are all nullable.
fn arguments_nullable(f: &ObjectField) -> (b: bool)
    ensures
        b == arguments_all_nullable(*f),
{
    let mut all_nullable = true;
    let mut j: usize = 0;
    while j < f.arguments.len()
        invariant
            j <= f.arguments.items().len(),
            all_nullable == forall|m: int| 0 <= m < j ==> nullable(#[trigger] f.arguments.items()[m].1.argument_type),
        decreases f.arguments.items().len() - j,
    {
        let (_, a) = f.arguments.get_index(j);
        if !is_nullable_type(&a.argument_type) {
            all_nullable = false;
        }
        j += 1;
    }
    all_nullable
}

/// A request for a column with each of its arguments given as a literal
/// null.
fn column_with_null_arguments(k: &String, f: &ObjectField) -> (r: Field)
    requires
        arguments_all_nullable(*f),
    ensures
        requests_column_with_null_arguments((k@, *f), r),
{
    let mut args: Vec<(String, Argument)> = Vec::new();
    let mut j: usize = 0;
    while j < f.arguments.len()
        invariant
            j <= f.arguments.items().len(),
            args.len() == j,
            forall|m: int|
                0 <= m < j ==> #[trigger] args@[m].0@ == f.arguments.items()[m].0 && (args@[m].1 matches Argument::Literal {
                    value,
                } && value@ is Null),
        decreases f.arguments.items().len() - j,
    {
        let (name, _) = f.arguments.get_index(j);
        args.push((name.clone(), Argument::Literal { value: JsonValue::Null }));
        j += 1;
    }
    let arguments = Dict::from_entries(args);
    let field = Field::Column { column: k.clone(), fields: None, arguments };
    proof {
        assert forall|j: int| 0 <= j < arguments.items().len() implies #[trigger] arguments.items()[j].0
            == f.arguments.items()[j].0 && (arguments.items()[j].1 matches Argument::Literal { value } && value@ is Null) by {
            assert(args@[j].0@ == f.arguments.items()[j].0);
        }
    }
    field
}

/// The columns that `select_all_columns` requests, taken at the given
/// positions, in the order of the positions.
pub fn select_columns_at(collection_type: &ObjectType, positions: &Vec<usize>) -> (r: Dict<Field>)
    requires
        keys_ascending(collection_type.fields.items()),
        forall|i: int| 0 <= i < positions.len() ==> #[trigger] positions@[i] < columns_with_nullable_arguments(*collection_type).len(),
    ensures
        r.items().len() == positions.len(),
        forall|i: int|
            0 <= i < positions.len() ==> {
                let e = columns_with_nullable_arguments(*collection_type)[#[trigger] positions@[i] as int];
                &&& r.items()[i].0 == e.0
                &&& requests_column_with_null_arguments(e, r.items()[i].1)
            },
{
    let fields = &collection_type.fields;
    let ghost items = fields.items();
    let ghost pred = |e: (Seq<char>, ObjectField)| arguments_all_nullable(e.1);
    let ghost columns = columns_with_nullable_arguments(*collection_type);
    // The positions among the fields of the columns that can be requested.
    let mut kept: Vec<usize> = Vec::new();
    let mut i: usize = 0;
    while i < fields.len()
        invariant
            i <= items.len(),
            items == fields.items(),
            pred == (|e: (Seq<char>, ObjectField)| arguments_all_nullable(e.1)),
            kept.len() == items.take(i as int).filter(pred).len(),
            forall|m: int| 0 <= m < kept.len() ==> #[trigger] kept@[m] < i && items[kept@[m] as int] == items.take(i as int).filter(pred)[m],
        decreases items.len() - i,
    {
        let (_, f) = fields.get_index(i);
        proof {
            reveal(Seq::filter);
            assert(items.take(i + 1).drop_last() =~= items.take(i as int));
            assert(items.take(i + 1).last() == items[i as int]);
        }
        if arguments_nullable(f) {
            kept.push(i);
        }
        i += 1;
    }
    proof {
        assert(items.take(i as int) =~= items);
        assert(columns == items.filter(pred));
    }
    let mut entries: Vec<(String, Field)> = Vec::new();
    let mut j: usize = 0;
    while j < positions.len()
        invariant
            items == fields.items(),
            columns == columns_with_nullable_arguments(*collection_type),
            pred == (|e: (Seq<char>, ObjectField)| arguments_all_nullable(e.1)),
            columns == items.filter(pred),
            kept.len() == columns.len(),
            forall|m: int| 0 <= m < kept.len() ==> #[trigger] kept@[m] < items.len() && items[kept@[m] as int] == columns[m],
            forall|m: int| 0 <= m < positions.len() ==> #[trigger] positions@[m] < kept.len(),
            j <= positions.len(),
            entries.len() == j,
            forall|m: int|
                0 <= m < j ==> {
                    let e = columns[#[trigger] positions@[m] as int];
                    &&& entries@[m].0@ == e.0
                    &&& requests_column_with_null_arguments(e, entries@[m].1)
                },
        decreases positions.len() - j,
    {
        let p = positions[j];
        let position = kept[p];
        let (k, f) = fields.get_index(position);
        proof {
            assert(items[kept@[p as int] as int] == columns[p as int]);
            assert(arguments_all_nullable(columns[p as int].1)) by {
                items.lemma_filter_pred(pred, p as int);
            }
        }
        let column = column_with_null_arguments(k, f);
        entries.push((k.clone(), column));
        j += 1;
    }
    let r = Dict::from_entries(entries);
    proof {
        assert forall|i: int| 0 <= i < positions@.len() implies {
            let e = columns[#[trigger] positions@[i] as int];
            &&& r.items()[i].0 == e.0
            &&& requests_column_with_null_arguments(e, r.items()[i].1)
        } by {
            assert(r.items()[i].0 == entries@[i].0@);
        }
    }
    r
}

/// A random selection of the columns that `select_all_columns` requests:
/// a random number of them, at most the number of fields, each at most
/// once, in no particular order.
pub fn select_columns(collection_type: &ObjectType, rng: &mut rand::rngs::SmallRng) -> (r: Dict<Field>)
    requires
        keys_ascending(collection_type.fields.items()),
    ensures
        r.items().len() <= columns_with_nullable_arguments(*collection_type).len(),
        exists|positions: Seq<usize>|
            {
                &&& positions.len() == r.items().len()
                &&& crate::random::distinct(positions)
                &&& forall|i: int|
                    0 <= i < positions.len() ==> {
                        let e = columns_with_nullable_arguments(*collection_type)[#[trigger] positions[i] as int];
                        &&& positions[i] < columns_with_nullable_arguments(*collection_type).len()
                        &&& r.items()[i].0 == e.0
                        &&& requests_column_with_null_arguments(e, r.items()[i].1)
                    }
            },
{
    let amount = crate::random::draw_at_most(rng, collection_type.fields.len());
    let selectable = select_all_columns(collection_type).len();
    let chosen = crate::random::choose_positions(rng, selectable, amount);
    let r = select_columns_at(collection_type, &chosen);
    proof {
        assert forall|i: int| 0 <= i < chosen@.len() implies {
            let e = columns_with_nullable_arguments(*collection_type)[#[trigger] chosen@[i] as int];
            &&& chosen@[i] < columns_with_nullable_arguments(*collection_type).len()
            &&& r.items()[i].0 == e.0
            &&& requests_column_with_null_arguments(e, r.items()[i].1)
        } by {}
    }
    r
}

} // verus!
