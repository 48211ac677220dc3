use vstd::prelude::*;
use crate::common::{columns_with_nullable_arguments, requests_column_with_null_arguments, select_all_columns, select_all_columns_without_arguments, without_arguments};
use crate::dict::Dict;
use crate::error::{Error, Fault};
use crate::json::{entries_map, json_as_u64, Json, JsonValue};
use crate::query::{Aggregate, Field, Query, QueryRequest, RowSet};
use crate::reporter::TestGenerationConfiguration;
use crate::schema::{CollectionInfo, ObjectField, ObjectType};
use crate::strings::concat3;

verus! {

/// Whether a field selection requests, in order, each column of an object
/// type whose arguments are all nullable, with null arguments.
pub open spec fn selects_all_columns(ot: ObjectType, fields: Dict<Field>) -> bool {
    &&& fields.items().len() == columns_with_nullable_arguments(ot).len()
    &&& forall|i: int|
        0 <= i < fields.items().len() ==> {
            let e = #[trigger] columns_with_nullable_arguments(ot)[i];
            &&& fields.items()[i].0 == e.0
            &&& requests_column_with_null_arguments(e, fields.items()[i].1)
        }
}

/// Whether a query asks for nothing but the given aggregates and fields,
/// with a limit and no offset, order, predicate or grouping.
pub open spec fn plain_query(q: Query, limit: u32) -> bool {
    &&& q.limit == Some(limit)
    &&& q.offset is None
    &&& q.order_by is None
    &&& q.predicate is None
    &&& q.groups is None
}

/// Whether a request asks a collection, without arguments, relationships
/// or variables.
pub open spec fn plain_request(r: QueryRequest, collection: Seq<char>) -> bool {
    &&& r.collection@ == collection
    &&& r.arguments.items().len() == 0
    &&& r.collection_relationships.items().len() == 0
    &&& r.variables is None
}

fn plain_request_of(collection: &String, query: Query) -> (r: QueryRequest)
    ensures
        r.collection@ == collection@,
        r.query == query,
        r.arguments.items().len() == 0,
        r.collection_relationships.items().len() == 0,
        r.variables is None,
{
    QueryRequest {
        collection: collection.clone(),
        query,
        arguments: Dict::new(),
        collection_relationships: Dict::new(),
        variables: None,
    }
}

/// The request of the test that selects the first rows of a collection:
/// every column that can be selected without arguments, at most ten rows.
pub fn select_top_n_request(collection_info: &CollectionInfo, collection_type: &ObjectType) -> (r: QueryRequest)
    requires
        crate::common::keys_ascending(collection_type.fields.items()),
    ensures
        plain_request(r, collection_info.name@),
        plain_query(r.query, 10),
        r.query.aggregates is None,
        r.query.fields matches Some(f) && selects_all_columns(*collection_type, f),
{
    let fields = select_all_columns(collection_type);
    let query = Query {
        aggregates: None,
        fields: Some(fields),
        limit: Some(10),
        offset: None,
        order_by: None,
        predicate: None,
        groups: None,
    };
    plain_request_of(&collection_info.name, query)
}

/// The request of the test of the star count: the count of all rows, as
/// the aggregate `count`.
pub fn star_count_request(gen_config: &TestGenerationConfiguration, collection_info: &CollectionInfo) -> (r: QueryRequest)
    ensures
        plain_request(r, collection_info.name@),
        plain_query(r.query, gen_config.max_limit),
        r.query.fields is None,
        r.query.aggregates matches Some(a) && a.items().len() == 1 && a.items()[0].0 == "count"@
            && a.items()[0].1 is StarCount,
{
    let mut aggregates = Dict::new();
    aggregates.insert("count".to_string(), Aggregate::StarCount {  });
    let query = Query {
        aggregates: Some(aggregates),
        fields: None,
        limit: Some(gen_config.max_limit),
        offset: None,
        order_by: None,
        predicate: None,
        groups: None,
    };
    plain_request_of(&collection_info.name, query)
}

/// The count that a row set reports under a name.
pub open spec fn reported_count(rs: RowSet, name: Seq<char>) -> Result<int, Fault> {
    match rs.aggregates {
        None => Err(Fault::AggregatesShouldBeNonNullInRowSet),
        Some(a) => if a.map().contains_key(name) && json_as_u64(a.map()[name]@) is Some {
            Ok(json_as_u64(a.map()[name]@)->0)
        } else {
            Err(Fault::MissingField(name))
        },
    }
}

/// The count that a row set reports under a name: it must have aggregates,
/// and a non-negative integer under that name.
pub fn count_of(rs: &RowSet, name: &String) -> (r: Result<u64, Error>)
    ensures
        match r {
            Ok(n) => reported_count(*rs, name@) == Ok::<int, Fault>(n as int),
            Err(e) => reported_count(*rs, name@) == Err::<int, Fault>(e@),
        },
{
    match &rs.aggregates {
        None => Err(Error::AggregatesShouldBeNonNullInRowSet),
        Some(a) => match a.get(name) {
            Some(v) => match v.as_u64() {
                Some(n) => Ok(n),
                None => Err(Error::MissingField(name.clone())),
            },
            None => Err(Error::MissingField(name.clone())),
        },
    }
}

/// The star count that the response to the star count request reports.
pub fn star_count_of(rs: &RowSet) -> (r: Result<u64, Error>)
    ensures
        match r {
            Ok(n) => reported_count(*rs, "count"@) == Ok::<int, Fault>(n as int),
            Err(e) => reported_count(*rs, "count"@) == Err::<int, Fault>(e@),
        },
{
    count_of(rs, &"count".to_string())
}

/// The aggregates of the column count test, in the order they are set:
/// for each column, its count and its distinct count, each named after the
/// column, with the column and whether it counts distinct values.
pub open spec fn count_writers(names: Seq<Seq<char>>) -> Seq<(Seq<char>, (Seq<char>, bool))>
    decreases names.len(),
{
    if names.len() == 0 {
        Seq::empty()
    } else {
        let n = names.last();
        count_writers(names.drop_last()) + seq![(n + "_count"@, (n, false)), (n + "_distinct_count"@, (n, true))]
    }
}

/// Whether aggregates are the column counts that `count_writers` sets, a
/// later one replacing an earlier one of the same name.
pub open spec fn counts_requested(a: Dict<Aggregate>, names: Seq<Seq<char>>) -> bool {
    let m = entries_map(count_writers(names));
    &&& a.map().dom() == m.dom()
    &&& forall|k: Seq<char>|
        #[trigger] a.map().contains_key(k) ==> (a.map()[k] matches Aggregate::ColumnCount {
            column,
            arguments,
            field_path,
            distinct,
        } && (column@, distinct) == m[k] && arguments.items().len() == 0 && field_path is None)
}

/// The names of the columns that take no arguments, in order.
pub open spec fn argument_free_names(ot: ObjectType) -> Seq<Seq<char>> {
    ot.fields.items().filter(|e: (Seq<char>, ObjectField)| without_arguments(e)).map_values(
        |e: (Seq<char>, ObjectField)| e.0,
    )
}

/// The texts of strings.
pub open spec fn names_view(names: Seq<String>) -> Seq<Seq<char>> {
    names.map_values(|s: String| s@)
}

/// A column count aggregate.
fn column_count(column: &String, distinct: bool) -> (a: Aggregate)
    ensures
        a matches Aggregate::ColumnCount { column: c, arguments, field_path, distinct: d } && c@ == column@
            && arguments.items().len() == 0 && field_path is None && d == distinct,
{
    Aggregate::ColumnCount { column: column.clone(), arguments: Dict::new(), field_path: None, distinct }
}

/// The request of the test of column counts: for each column that takes no
/// arguments, its count and its distinct count; with the names of those
/// columns.
pub fn column_count_request(
    gen_config: &TestGenerationConfiguration,
    collection_info: &CollectionInfo,
    collection_type: &ObjectType,
) -> (r: (QueryRequest, Vec<String>))
    requires
        crate::common::keys_ascending(collection_type.fields.items()),
    ensures
        names_view(r.1@) == argument_free_names(*collection_type),
        plain_request(r.0, collection_info.name@),
        plain_query(r.0.query, gen_config.max_limit),
        r.0.query.fields is None,
        r.0.query.aggregates matches Some(a) && counts_requested(a, names_view(r.1@)),
{
    let columns = select_all_columns_without_arguments(collection_type);
    let mut names: Vec<String> = Vec::new();
    let mut aggregates: Dict<Aggregate> = Dict::new();
    let mut i: usize = 0;
    while i < columns.len()
        invariant
            i <= columns.len(),
            names.len() == i,
            forall|j: int| 0 <= j < i ==> #[trigger] names@[j]@ == columns@[j].0@,
            counts_requested(aggregates, names_view(names@)),
        decreases columns.len() - i,
    {
        let name = columns[i].0;
        let ghost before = names_view(names@);
        let ghost old_map = aggregates.map();
        let count_name = concat3(name, "_count", "");
        let distinct_name = concat3(name, "_distinct_count", "");
        proof {
            reveal_strlit("");
            assert(count_name@ =~= name@ + "_count"@);
            assert(distinct_name@ =~= name@ + "_distinct_count"@);
        }
        aggregates.insert(count_name, column_count(name, false));
        aggregates.insert(distinct_name, column_count(name, true));
        names.push(name.clone());
        proof {
            let now = names_view(names@);
            assert(now.drop_last() =~= before);
            assert(now.last() == name@);
            let w = count_writers(before);
            let w2 = count_writers(now);
            assert(w2 =~= w.push((name@ + "_count"@, (name@, false))).push((name@ + "_distinct_count"@, (name@, true))));
            assert(w2.drop_last() =~= w.push((name@ + "_count"@, (name@, false))));
            assert(w.push((name@ + "_count"@, (name@, false))).drop_last() =~= w);
            let w1 = w.push((name@ + "_count"@, (name@, false)));
            assert(w2.last() == (name@ + "_distinct_count"@, (name@, true)));
            assert(entries_map(w2) == entries_map(w1).insert(w2.last().0, w2.last().1));
            assert(w1.last() == (name@ + "_count"@, (name@, false)));
            assert(entries_map(w1) == entries_map(w).insert(w1.last().0, w1.last().1));
            assert(entries_map(w2) == entries_map(w).insert(name@ + "_count"@, (name@, false)).insert(
                name@ + "_distinct_count"@,
                (name@, true),
            ));
            assert(aggregates.map().dom() =~= entries_map(w2).dom());
        }
        i += 1;
    }
    proof {
        let pred = |e: (Seq<char>, ObjectField)| without_arguments(e);
        assert(names_view(names@) =~= argument_free_names(*collection_type)) by {
            assert(columns@.map_values(|p: (&String, &ObjectField)| (p.0@, *p.1)) == collection_type.fields.items().filter(pred));
            assert forall|j: int| 0 <= j < names@.len() implies names_view(names@)[j] == argument_free_names(*collection_type)[j] by {
                assert(columns@.map_values(|p: (&String, &ObjectField)| (p.0@, *p.1))[j] == (columns@[j].0@, *columns@[j].1));
            }
        }
    }
    let query = Query {
        aggregates: Some(aggregates),
        fields: None,
        limit: Some(gen_config.max_limit),
        offset: None,
        order_by: None,
        predicate: None,
        groups: None,
    };
    (plain_request_of(&collection_info.name, query), names)
}

/// What is wrong with the counts of one column: each count must be
/// reported, no count may exceed the star count, and no distinct count may
/// exceed the count.
pub open spec fn column_count_fault(rs: RowSet, name: Seq<char>, total: int) -> Option<Fault> {
    match reported_count(rs, name + "_count"@) {
        Err(f) => Some(f),
        Ok(count) => match reported_count(rs, name + "_distinct_count"@) {
            Err(f) => Some(f),
            Ok(distinct) => if count > total {
                Some(Fault::ResponseDoesNotSatisfy("star_count >= column_count("@ + name + ")"@))
            } else if distinct > count {
                Some(Fault::ResponseDoesNotSatisfy("column_count >= column_count(distinct "@ + name + ")"@))
            } else {
                None
            },
        },
    }
}

/// The first column, in order, whose counts are wrong, and what is wrong.
pub open spec fn column_counts_fault(rs: RowSet, names: Seq<Seq<char>>, total: int) -> Option<Fault>
    decreases names.len(),
{
    if names.len() == 0 {
        None
    } else {
        match column_counts_fault(rs, names.drop_last(), total) {
            Some(f) => Some(f),
            None => column_count_fault(rs, names.last(), total),
        }
    }
}

/// What is wrong with the response to the column count request.
pub open spec fn counts_fault(rs: RowSet, names: Seq<Seq<char>>, total: int) -> Option<Fault> {
    if rs.aggregates is None {
        Some(Fault::AggregatesShouldBeNonNullInRowSet)
    } else {
        column_counts_fault(rs, names, total)
    }
}

/// Checks the response to the column count request against the star
/// count.
pub fn check_column_counts(rs: &RowSet, names: &Vec<String>, total_count: u64) -> (r: Result<(), Error>)
    ensures
        crate::error::fault_of(r) == counts_fault(*rs, names_view(names@), total_count as int),
{
    if rs.aggregates.is_none() {
        return Err(Error::AggregatesShouldBeNonNullInRowSet);
    }
    let mut i: usize = 0;
    while i < names.len()
        invariant
            rs.aggregates is Some,
            i <= names.len(),
            column_counts_fault(*rs, names_view(names@).take(i as int), total_count as int) is None,
        decreases names.len() - i,
    {
        let name = &names[i];
        proof {
            assert(names_view(names@).take(i + 1).drop_last() =~= names_view(names@).take(i as int));
            assert(names_view(names@).take(i + 1).last() == name@);
        }
        let count_name = concat3(name, "_count", "");
        let distinct_name = concat3(name, "_distinct_count", "");
        proof {
            reveal_strlit("");
            assert(count_name@ =~= name@ + "_count"@);
            assert(distinct_name@ =~= name@ + "_distinct_count"@);
        }
        let count = match count_of(rs, &count_name) {
            Ok(n) => n,
            Err(e) => {
                proof {
                    lemma_counts_prefix(*rs, names_view(names@), i + 1, total_count as int);
                }
                return Err(e);
            },
        };
        let distinct = match count_of(rs, &distinct_name) {
            Ok(n) => n,
            Err(e) => {
                proof {
                    lemma_counts_prefix(*rs, names_view(names@), i + 1, total_count as int);
                }
                return Err(e);
            },
        };
        if count > total_count {
            let m = concat3("star_count >= column_count(", name, ")");
            proof {
                lemma_counts_prefix(*rs, names_view(names@), i + 1, total_count as int);
            }
            return Err(Error::ResponseDoesNotSatisfy(m));
        }
        if distinct > count {
            let m = concat3("column_count >= column_count(distinct ", name, ")");
            proof {
                lemma_counts_prefix(*rs, names_view(names@), i + 1, total_count as int);
            }
            return Err(Error::ResponseDoesNotSatisfy(m));
        }
        i += 1;
    }
    proof {
        assert(names_view(names@).take(i as int) =~= names_view(names@));
    }
    Ok(())
}

/// A fault among the first columns is the fault of all of them.
proof fn lemma_counts_prefix(rs: RowSet, names: Seq<Seq<char>>, k: int, total: int)
    requires
        0 <= k <= names.len(),
        column_counts_fault(rs, names.take(k), total) is Some,
    ensures
        column_counts_fault(rs, names, total) == column_counts_fault(rs, names.take(k), total),
    decreases names.len(),
{
    if k < names.len() {
        assert(names.drop_last().take(k) =~= names.take(k));
        lemma_counts_prefix(rs, names.drop_last(), k, total);
    } else {
        assert(names.take(k) =~= names);
    }
}

/// The four decimal digits of a number below ten thousand.
pub open spec fn four_digits(n: int) -> Seq<char> {
    seq![
        crate::text::digit_char((n / 1000) as nat),
        crate::text::digit_char(((n / 100) % 10) as nat),
        crate::text::digit_char(((n / 10) % 10) as nat),
        crate::text::digit_char((n % 10) as nat),
    ]
}

/// `format!("{:04}", n)`: a number below ten thousand in four digits,
/// with leading zeros.
fn pad4(n: i32) -> (r: String)
    requires
        0 <= n <= 9999,
    ensures
        r@ == four_digits(n as int),
{
    let m = n as usize;
    let mut r = String::from_str(crate::text::digit_text(m / 1000));
    r.append(crate::text::digit_text((m / 100) % 10));
    r.append(crate::text::digit_text((m / 10) % 10));
    r.append(crate::text::digit_text(m % 10));
    proof {
        assert(r@ =~= four_digits(n as int));
    }
    r
}

/// Whether a name offers a function of a column that the schema defines for
/// the column's type, the name made of the column, the function and four
/// digits.
pub open spec fn available_choice(
    schema: crate::schema::SchemaResponse,
    ot: ObjectType,
    key: Seq<char>,
    column: Seq<char>,
    function: Seq<char>,
) -> bool {
    exists|i: int, n: int|
        #![trigger ot.fields.items()[i], four_digits(n)]
        {
            &&& 0 <= i < ot.fields.items().len()
            &&& 0 <= n <= 9999
            &&& ot.fields.items()[i].0 == column
            &&& key == column + "_"@ + function + "_"@ + four_digits(n)
            &&& crate::common::named_type(ot.fields.items()[i].1.field_type) matches Some(t)
                && schema.scalar_types.map().contains_key(t)
                && schema.scalar_types.map()[t].aggregate_functions.map().contains_key(function)
        }
}

/// Whether a named aggregate applies, without arguments or path, a function
/// that `available_choice` offers under that name.
pub open spec fn single_column_choice(schema: crate::schema::SchemaResponse, ot: ObjectType, key: Seq<char>, a: Aggregate) -> bool {
    a matches Aggregate::SingleColumn { column, arguments, field_path, function } && arguments.items().len() == 0
        && field_path is None && available_choice(schema, ot, key, column@, function@)
}

/// The name of an aggregate of a column by a function: the column, the
/// function and four digits, joined by underscores.
pub fn aggregate_name(column: &String, function: &String, n: i32) -> (r: String)
    requires
        0 <= n <= 9999,
    ensures
        r@ == column@ + "_"@ + function@ + "_"@ + four_digits(n as int),
{
    let digits = pad4(n);
    let head = concat3(column, "_", function);
    let key = concat3(head.as_str(), "_", digits.as_str());
    proof {
        assert(key@ =~= column@ + "_"@ + function@ + "_"@ + four_digits(n as int));
    }
    key
}

/// The aggregate of a column by a function, without arguments or path.
pub fn single_column_aggregate(column: &String, function: &String) -> (a: Aggregate)
    ensures
        a matches Aggregate::SingleColumn { column: c, arguments, field_path, function: f } && c@ == column@
            && arguments.items().len() == 0 && field_path is None && f@ == function@,
{
    Aggregate::SingleColumn { column: column.clone(), arguments: Dict::new(), field_path: None, function: function.clone() }
}

/// The name under which a function of a column is offered with the four
/// digits of `n`.
pub open spec fn offered_name(column: Seq<char>, function: Seq<char>, n: int) -> Seq<char> {
    column + "_"@ + function + "_"@ + four_digits(n)
}

/// Whether a function of a column is offered under its name with some
/// digits.
pub open spec fn is_offered(m: Map<Seq<char>, (String, String)>, column: Seq<char>, function: Seq<char>) -> bool {
    exists|n: int|
        #![trigger offered_name(column, function, n)]
        0 <= n <= 9999 && m.contains_key(offered_name(column, function, n)) && m[offered_name(
            column,
            function,
            n,
        )].0@ == column && m[offered_name(column, function, n)].1@ == function
}

/// Whether a key offers one of the first `bound` functions of a column,
/// under its name with some digits.
pub open spec fn offered_for(
    m: Map<Seq<char>, (String, String)>,
    column: Seq<char>,
    functions: Seq<(Seq<char>, crate::schema::AggregateFunctionDefinition)>,
    k: Seq<char>,
    bound: int,
) -> bool {
    exists|j: int, n: int|
        #![trigger offered_name(column, functions[j].0, n)]
        0 <= j < bound && 0 <= n <= 9999 && k == offered_name(column, functions[j].0, n) && m[k].0@ == column
            && m[k].1@ == functions[j].0
}

/// Two offered names of one column are equal only for equal functions.
proof fn lemma_offered_name_function(column: Seq<char>, f1: Seq<char>, f2: Seq<char>, n1: int, n2: int)
    requires
        offered_name(column, f1, n1) == offered_name(column, f2, n2),
    ensures
        f1 == f2,
{
    let a = offered_name(column, f1, n1);
    let b = offered_name(column, f2, n2);
    reveal_strlit("_");
    assert(a.len() == b.len());
    assert(f1.len() == f2.len());
    let start: int = column.len() as int + 1;
    assert(a.subrange(start, start + f1.len() as int) =~= f1);
    assert(b.subrange(start, start + f2.len() as int) =~= f2);
}

/// Offers each aggregate function of the type of one column under a name
/// with random digits; a later name replaces an equal earlier one.
fn offer_functions(
    schema: &crate::schema::SchemaResponse,
    collection_type: &ObjectType,
    i: usize,
    functions: &Dict<crate::schema::AggregateFunctionDefinition>,
    available: &mut Dict<(String, String)>,
    rng: &mut rand::rngs::SmallRng,
)
    requires
        i < collection_type.fields.items().len(),
        crate::common::named_type(collection_type.fields.items()[i as int].1.field_type) matches Some(t)
            && schema.scalar_types.map().contains_key(t) && schema.scalar_types.map()[t].aggregate_functions == *functions,
        forall|k: int| 0 <= k < old(available).items().len() ==> #[trigger] available_choice(
            *schema,
            *collection_type,
            old(available).items()[k].0,
            old(available).items()[k].1.0@,
            old(available).items()[k].1.1@,
        ),
    ensures
        forall|k: int| 0 <= k < final(available).items().len() ==> #[trigger] available_choice(
            *schema,
            *collection_type,
            final(available).items()[k].0,
            final(available).items()[k].1.0@,
            final(available).items()[k].1.1@,
        ),
        forall|j: int|
            0 <= j < functions.items().len() ==> is_offered(
                final(available).map(),
                collection_type.fields.items()[i as int].0,
                #[trigger] functions.items()[j].0,
            ),
        forall|k: Seq<char>| #[trigger]
            old(available).map().contains_key(k) ==> final(available).map().contains_key(k),
        forall|k: Seq<char>| #[trigger]
            final(available).map().contains_key(k) ==> (old(available).map().contains_key(k)
                && final(available).map()[k] == old(available).map()[k]) || offered_for(
                final(available).map(),
                collection_type.fields.items()[i as int].0,
                functions.items(),
                k,
                functions.items().len() as int,
            ),
{
    let ghost start = available.map();
    let (column, _) = collection_type.fields.get_index(i);
    let mut j: usize = 0;
    while j < functions.len()
        invariant
            i < collection_type.fields.items().len(),
            column@ == collection_type.fields.items()[i as int].0,
            crate::common::named_type(collection_type.fields.items()[i as int].1.field_type) matches Some(t)
                && schema.scalar_types.map().contains_key(t) && schema.scalar_types.map()[t].aggregate_functions == *functions,
            j <= functions.items().len(),
            forall|k: int| 0 <= k < available.items().len() ==> #[trigger] available_choice(
                *schema,
                *collection_type,
                available.items()[k].0,
                available.items()[k].1.0@,
                available.items()[k].1.1@,
            ),
            forall|j2: int|
                0 <= j2 < j ==> is_offered(available.map(), column@, #[trigger] functions.items()[j2].0),
            forall|k: Seq<char>| #[trigger] start.contains_key(k) ==> available.map().contains_key(k),
            forall|k: Seq<char>| #[trigger]
                available.map().contains_key(k) ==> (start.contains_key(k) && available.map()[k] == start[k])
                    || offered_for(available.map(), column@, functions.items(), k, j as int),
        decreases functions.items().len() - j,
    {
        let (function, _) = functions.get_index(j);
        let n = crate::random::draw_i32(rng, 0, 9999);
        let key = aggregate_name(column, function, n);
        proof {
            functions.lemma_items(function@);
            crate::json::lemma_last_key_index(crate::json::entry_keys(functions.items()), function@);
            assert(crate::json::entry_keys(functions.items())[j as int] == function@);
            assert(functions.map().contains_key(function@));
            assert(key@ =~= column@ + "_"@ + function@ + "_"@ + four_digits(n as int));
            assert(collection_type.fields.items()[i as int] == collection_type.fields.items()[i as int]);
            assert(available_choice(*schema, *collection_type, key@, column@, function@));
        }
        let ghost before = available.items();
        let ghost before_map = available.map();
        let ghost kv = key@;
        let pair = (column.clone(), function.clone());
        let ghost pv = pair;
        available.insert(key, pair);
        proof {
            let idx = crate::json::last_key_index(crate::json::entry_keys(before), kv);
            crate::json::lemma_entries_map(before, kv);
            crate::json::lemma_last_key_index(crate::json::entry_keys(before), kv);
            assert forall|k: int| 0 <= k < available.items().len() implies #[trigger] available_choice(
                *schema,
                *collection_type,
                available.items()[k].0,
                available.items()[k].1.0@,
                available.items()[k].1.1@,
            ) by {
                if before_map.contains_key(kv) {
                    assert(available.items() == before.update(idx, (kv, pv)));
                    if k != idx {
                        assert(available.items()[k] == before[k]);
                    }
                } else {
                    assert(available.items() == before.push((kv, pv)));
                    if k < before.len() {
                        assert(available.items()[k] == before[k]);
                    }
                }
            }
            let after_map = available.map();
            let fs = functions.items();
            assert(after_map == before_map.insert(kv, pv));
            assert(kv == offered_name(column@, fs[j as int].0, n as int));
            assert(pv.0@ == column@ && pv.1@ == fs[j as int].0);
            assert forall|j2: int| 0 <= j2 < j + 1 implies is_offered(after_map, column@, #[trigger] fs[j2].0) by {
                if j2 == j {
                    assert(offered_name(column@, fs[j2].0, n as int) == kv);
                } else {
                    let n2 = choose|n2: int|
                        #![trigger offered_name(column@, fs[j2].0, n2)]
                        0 <= n2 <= 9999 && before_map.contains_key(offered_name(column@, fs[j2].0, n2))
                            && before_map[offered_name(column@, fs[j2].0, n2)].0@ == column@
                            && before_map[offered_name(column@, fs[j2].0, n2)].1@ == fs[j2].0;
                    let k2 = offered_name(column@, fs[j2].0, n2);
                    if k2 == kv {
                        lemma_offered_name_function(column@, fs[j2].0, fs[j as int].0, n2, n as int);
                    }
                    assert(after_map.contains_key(k2));
                }
            }
            assert forall|k: Seq<char>| #[trigger]
                after_map.contains_key(k) implies (start.contains_key(k) && after_map[k] == start[k])
                || offered_for(after_map, column@, fs, k, j + 1) by {
                if k == kv {
                    assert(offered_name(column@, fs[j as int].0, n as int) == kv);
                } else {
                    assert(before_map.contains_key(k));
                    assert(after_map[k] == before_map[k]);
                    if !(start.contains_key(k) && before_map[k] == start[k]) {
                        let (j2, n2) = choose|j2: int, n2: int|
                            #![trigger offered_name(column@, fs[j2].0, n2)]
                            0 <= j2 < j && 0 <= n2 <= 9999 && k == offered_name(column@, fs[j2].0, n2)
                                && before_map[k].0@ == column@ && before_map[k].1@ == fs[j2].0;
                        assert(k == offered_name(column@, fs[j2].0, n2));
                    }
                }
            }
        }
        j += 1;
    }
}

/// Whether the type of a column is a scalar type of the schema with an
/// aggregate function.
pub open spec fn offers_at(schema: crate::schema::SchemaResponse, ot: ObjectType, i: int) -> bool {
    crate::common::named_type(ot.fields.items()[i].1.field_type) matches Some(t) && schema.scalar_types.map().contains_key(t)
        && schema.scalar_types.map()[t].aggregate_functions.items().len() > 0
}

/// Whether one of the first `n` columns offers an aggregate function.
pub open spec fn offers_within(schema: crate::schema::SchemaResponse, ot: ObjectType, n: int) -> bool {
    exists|i: int| 0 <= i < n && #[trigger] offers_at(schema, ot, i)
}

/// Whether a map has a key.
pub open spec fn has_key<V>(m: Map<Seq<char>, V>) -> bool {
    exists|k: Seq<char>| #[trigger] m.contains_key(k)
}

/// The request of the test of single column aggregates: a random number,
/// from one to five times the complexity, of the aggregate functions that
/// the schema defines on the columns, each under a name with random digits.
pub fn single_column_request(
    gen_config: &TestGenerationConfiguration,
    schema: &crate::schema::SchemaResponse,
    collection_info: &CollectionInfo,
    collection_type: &ObjectType,
    rng: &mut rand::rngs::SmallRng,
) -> (r: QueryRequest)
    requires
        gen_config.complexity <= 51,
    ensures
        plain_request(r, collection_info.name@),
        plain_query(r.query, gen_config.max_limit),
        r.query.fields is None,
        r.query.aggregates matches Some(a) && a.items().len() <= 5 * (if gen_config.complexity > 1 {
            gen_config.complexity as int
        } else {
            1
        }) && forall|j: int| 0 <= j < a.items().len() ==> single_column_choice(*schema, *collection_type, #[trigger] a.items()[j].0, a.items()[j].1),
        offers_within(*schema, *collection_type, collection_type.fields.items().len() as int) ==> (r.query.aggregates matches Some(a)
            && a.items().len() >= 1),
{
    let mut available: Dict<(String, String)> = Dict::new();
    let mut i: usize = 0;
    while i < collection_type.fields.len()
        invariant
            i <= collection_type.fields.items().len(),
            forall|k: int| 0 <= k < available.items().len() ==> #[trigger] available_choice(
                *schema,
                *collection_type,
                available.items()[k].0,
                available.items()[k].1.0@,
                available.items()[k].1.1@,
            ),
            offers_within(*schema, *collection_type, i as int) ==> has_key(available.map()),
        decreases collection_type.fields.items().len() - i,
    {
        let ghost keyed = has_key(available.map());
        let (_, field) = collection_type.fields.get_index(i);
        if let Some(t) = crate::common::as_named_type(&field.field_type) {
            if let Some(scalar) = schema.scalar_types.get(t) {
                let ghost before = available.map();
                offer_functions(schema, collection_type, i, &scalar.aggregate_functions, &mut available, rng);
                proof {
                    if keyed {
                        let k = choose|k: Seq<char>| #[trigger] before.contains_key(k);
                        assert(available.map().contains_key(k));
                    }
                    if scalar.aggregate_functions.items().len() > 0 {
                        let f0 = scalar.aggregate_functions.items()[0].0;
                        assert(is_offered(available.map(), collection_type.fields.items()[i as int].0, f0));
                        let n = choose|n: int|
                            #![trigger offered_name(collection_type.fields.items()[i as int].0, f0, n)]
                            0 <= n <= 9999 && available.map().contains_key(offered_name(collection_type.fields.items()[i as int].0, f0, n))
                                && available.map()[offered_name(collection_type.fields.items()[i as int].0, f0, n)].0@ == collection_type.fields.items()[i as int].0
                                && available.map()[offered_name(collection_type.fields.items()[i as int].0, f0, n)].1@ == f0;
                        assert(available.map().contains_key(offered_name(collection_type.fields.items()[i as int].0, f0, n)));
                    }
                }
            }
        }
        proof {
            if offers_within(*schema, *collection_type, i + 1) {
                let i2 = choose|i2: int| 0 <= i2 < i + 1 && #[trigger] offers_at(*schema, *collection_type, i2);
                if i2 < i {
                    assert(offers_within(*schema, *collection_type, i as int));
                }
            }
        }
        i += 1;
    }
    proof {
        if offers_within(*schema, *collection_type, collection_type.fields.items().len() as int) {
            let k = choose|k: Seq<char>| #[trigger] available.map().contains_key(k);
            crate::json::lemma_entries_key(available.items(), k);
        }
    }
    let most: u8 = if gen_config.complexity > 1 { gen_config.complexity * 5 } else { 5 };
    let amount = crate::random::draw_u8(rng, 1, most);
    let chosen = crate::random::choose_positions(rng, available.len(), amount as usize);
    let mut aggregates: Dict<Aggregate> = Dict::new();
    let mut j: usize = 0;
    while j < chosen.len()
        invariant
            j <= chosen.len(),
            chosen.len() <= amount,
            amount <= most,
            forall|m: int| 0 <= m < chosen.len() ==> #[trigger] chosen@[m] < available.items().len(),
            forall|k: int| 0 <= k < available.items().len() ==> #[trigger] available_choice(
                *schema,
                *collection_type,
                available.items()[k].0,
                available.items()[k].1.0@,
                available.items()[k].1.1@,
            ),
            aggregates.items().len() <= j,
            j > 0 ==> aggregates.items().len() >= 1,
            forall|k: int| 0 <= k < aggregates.items().len() ==> single_column_choice(*schema, *collection_type, #[trigger] aggregates.items()[k].0, aggregates.items()[k].1),
        decreases chosen.len() - j,
    {
        let (key, pair) = available.get_index(chosen[j]);
        let aggregate = single_column_aggregate(&pair.0, &pair.1);
        proof {
            assert(available_choice(
                *schema,
                *collection_type,
                available.items()[chosen@[j as int] as int].0,
                available.items()[chosen@[j as int] as int].1.0@,
                available.items()[chosen@[j as int] as int].1.1@,
            ));
            assert(single_column_choice(*schema, *collection_type, key@, aggregate));
        }
        let ghost before = aggregates.items();
        let ghost before_map = aggregates.map();
        let ghost kv = key@;
        let ghost av = aggregate;
        aggregates.insert(key.clone(), aggregate);
        proof {
            let idx = crate::json::last_key_index(crate::json::entry_keys(before), kv);
            crate::json::lemma_entries_map(before, kv);
            crate::json::lemma_last_key_index(crate::json::entry_keys(before), kv);
            assert forall|k: int| 0 <= k < aggregates.items().len() implies single_column_choice(
                *schema,
                *collection_type,
                #[trigger] aggregates.items()[k].0,
                aggregates.items()[k].1,
            ) by {
                if before_map.contains_key(kv) {
                    assert(aggregates.items() == before.update(idx, (kv, av)));
                    if k != idx {
                        assert(aggregates.items()[k] == before[k]);
                    }
                } else {
                    assert(aggregates.items() == before.push((kv, av)));
                    if k < before.len() {
                        assert(aggregates.items()[k] == before[k]);
                    }
                }
            }
        }
        j += 1;
    }
    let query = Query {
        aggregates: Some(aggregates),
        fields: None,
        limit: Some(gen_config.max_limit),
        offset: None,
        order_by: None,
        predicate: None,
        groups: None,
    };
    plain_request_of(&collection_info.name, query)
}

/// A generated predicate, and whether rows are expected to satisfy it.
pub struct GeneratedExpression {
    pub expr: crate::query::Expression,
    pub expect_nonempty: bool,
}

/// Whether a comparison target is the named column, without arguments or
/// path.
pub open spec fn targets_column(t: crate::query::ComparisonTarget, name: Seq<char>) -> bool {
    t matches crate::query::ComparisonTarget::Column { name: n, arguments, field_path } && n@ == name
        && arguments.items().len() == 0 && field_path is None
}

/// Whether values are taken at distinct positions of a list.
pub open spec fn drawn_from(picked: Seq<Json>, values: Seq<Json>) -> bool {
    exists|positions: Seq<usize>|
        {
            &&& positions.len() == picked.len()
            &&& crate::random::distinct(positions)
            &&& forall|i: int| 0 <= i < positions.len() ==> #[trigger] positions[i] < values.len() && picked[i] == values[positions[i] as int]
        }
}

/// Whether an expression compares the column by an operator: equality with
/// one of the values, expected to match rows; membership in at most two of
/// the values, expected to match rows exactly when some were drawn.
pub open spec fn operator_expression(
    column: Seq<char>,
    operator_name: Seq<char>,
    operator: crate::schema::ComparisonOperatorDefinition,
    values: Seq<Json>,
    g: GeneratedExpression,
) -> bool {
    g.expr matches crate::query::Expression::BinaryComparisonOperator { column: target, operator: op, value }
        && targets_column(target, column) && op@ == operator_name && match operator {
        crate::schema::ComparisonOperatorDefinition::Equal => value matches crate::query::ComparisonValue::Scalar {
            value: v,
        } && values.contains(v@) && g.expect_nonempty,
        crate::schema::ComparisonOperatorDefinition::In => value matches crate::query::ComparisonValue::Scalar {
            value: v,
        } && v@ matches Json::Array(picked) && picked.len() <= 2 && drawn_from(picked, values) && (picked.len() > 0
            ==> g.expect_nonempty) && (values.len() > 0 ==> (g.expect_nonempty <==> picked.len() > 0)),
        _ => false,
    }
}

/// Whether an operator yields an expression.
pub open spec fn offered(operator: crate::schema::ComparisonOperatorDefinition) -> bool {
    operator is Equal || operator is In
}

/// Whether expressions are, in order, one for each operator that yields
/// one.
pub open spec fn operator_expressions(
    column: Seq<char>,
    operators: Seq<(Seq<char>, crate::schema::ComparisonOperatorDefinition)>,
    values: Seq<Json>,
    out: Seq<GeneratedExpression>,
) -> bool
    decreases operators.len(),
{
    if operators.len() == 0 {
        out.len() == 0
    } else if offered(operators.last().1) {
        out.len() > 0 && operator_expressions(column, operators.drop_last(), values, out.drop_last())
            && operator_expression(column, operators.last().0, operators.last().1, values, out.last())
    } else {
        operator_expressions(column, operators.drop_last(), values, out)
    }
}

/// The comparison operators of the scalar type of a field, in order; none
/// when its type names no scalar type.
pub open spec fn field_operators(schema: crate::schema::SchemaResponse, field: ObjectField) -> Seq<(Seq<char>, crate::schema::ComparisonOperatorDefinition)> {
    match crate::common::named_type(field.field_type) {
        Some(t) => if schema.scalar_types.map().contains_key(t) {
            schema.scalar_types.map()[t].comparison_operators.items()
        } else {
            Seq::empty()
        },
        None => Seq::empty(),
    }
}

/// Whether the expression tests the column for null, not expected to match
/// rows.
pub open spec fn is_null_test(column: Seq<char>, g: GeneratedExpression) -> bool {
    g.expr matches crate::query::Expression::UnaryComparisonOperator { column: target, operator } && targets_column(
        target,
        column,
    ) && !g.expect_nonempty
}

/// The expressions that can be generated for a field from a sample of its
/// values: none for a field with arguments; else a test for null when the
/// field is nullable, then one expression for each equality or membership
/// operator of its scalar type.
pub open spec fn single_expressions(
    schema: crate::schema::SchemaResponse,
    ot: ObjectType,
    column: Seq<char>,
    values: Seq<Json>,
    out: Seq<GeneratedExpression>,
) -> bool {
    let field = ot.fields.map()[column];
    if field.arguments.items().len() > 0 {
        out.len() == 0
    } else if crate::common::nullable(field.field_type) {
        out.len() > 0 && is_null_test(column, out[0]) && operator_expressions(
            column,
            field_operators(schema, field),
            values,
            out.drop_first(),
        )
    } else {
        operator_expressions(column, field_operators(schema, field), values, out)
    }
}

fn column_target(name: &String) -> (t: crate::query::ComparisonTarget)
    ensures
        targets_column(t, name@),
{
    crate::query::ComparisonTarget::Column { name: name.clone(), arguments: Dict::new(), field_path: None }
}

/// The test of a column for null, not expected to match rows.
pub fn is_null_expression(field_name: &String) -> (g: GeneratedExpression)
    ensures
        is_null_test(field_name@, g),
{
    GeneratedExpression {
        expr: crate::query::Expression::UnaryComparisonOperator {
            column: column_target(field_name),
            operator: crate::query::UnaryComparisonOperator::IsNull,
        },
        expect_nonempty: false,
    }
}

/// The comparison of a column with a value by an equality operator,
/// expected to match rows.
pub fn equality_expression(field_name: &String, operator_name: &String, value: JsonValue) -> (g: GeneratedExpression)
    ensures
        g.expr matches crate::query::Expression::BinaryComparisonOperator { column: target, operator: op, value: v }
            && targets_column(target, field_name@) && op@ == operator_name@ && (v matches crate::query::ComparisonValue::Scalar {
            value: x,
        } && x@ == value@),
        g.expect_nonempty,
{
    GeneratedExpression {
        expr: crate::query::Expression::BinaryComparisonOperator {
            column: column_target(field_name),
            operator: operator_name.clone(),
            value: crate::query::ComparisonValue::Scalar { value },
        },
        expect_nonempty: true,
    }
}

/// The test of a column's membership in picked values, expected to match
/// rows when values were asked for.
pub fn membership_expression(field_name: &String, operator_name: &String, picked: Vec<JsonValue>, value_count: usize) -> (g: GeneratedExpression)
    ensures
        g.expr matches crate::query::Expression::BinaryComparisonOperator { column: target, operator: op, value: v }
            && targets_column(target, field_name@) && op@ == operator_name@ && (v matches crate::query::ComparisonValue::Scalar {
            value: x,
        } && x@ == Json::Array(crate::json::views(picked@))),
        g.expect_nonempty == (value_count > 0),
{
    proof {
        crate::json::lemma_array_view(picked);
    }
    GeneratedExpression {
        expr: crate::query::Expression::BinaryComparisonOperator {
            column: column_target(field_name),
            operator: operator_name.clone(),
            value: crate::query::ComparisonValue::Scalar { value: JsonValue::Array(picked) },
        },
        expect_nonempty: value_count > 0,
    }
}

/// The expressions that can be generated for a field of the context's
/// collection from a sample of its values: see `single_expressions`. Fails
/// for a field the collection does not have, and where an equality needs a
/// value and the sample is empty.
pub fn make_single_expressions(
    schema: &crate::schema::SchemaResponse,
    context: &crate::context::Context,
    field_name: &String,
    values: &Vec<JsonValue>,
    rng: &mut rand::rngs::SmallRng,
) -> (r: Result<Vec<GeneratedExpression>, Error>)
    ensures
        !context.collection_type.fields.map().contains_key(field_name@) ==> (r matches Err(e) && e@ == Fault::UnexpectedField(field_name@)),
        context.collection_type.fields.map().contains_key(field_name@) ==> match r {
            Ok(out) => single_expressions(*schema, *context.collection_type, field_name@, crate::json::views(values@), out@),
            Err(e) => e is ExpectedNonEmptyRows && values.len() == 0 && context.collection_type.fields.map()[field_name@].arguments.items().len() == 0
                && exists|k: int| 0 <= k < field_operators(*schema, context.collection_type.fields.map()[field_name@]).len()
                    && #[trigger] field_operators(*schema, context.collection_type.fields.map()[field_name@])[k].1 is Equal,
        },
{
    let object_field = match context.collection_type.fields.get(field_name) {
        Some(f) => f,
        None => {
            return Err(Error::UnexpectedField(field_name.clone()));
        },
    };
    let ghost vs = crate::json::views(values@);
    let ghost column = field_name@;
    if object_field.arguments.len() > 0 {
        return Ok(Vec::new());
    }
    let mut expressions: Vec<GeneratedExpression> = Vec::new();
    let nullable = crate::common::is_nullable_type(&object_field.field_type);
    if nullable {
        expressions.push(is_null_expression(field_name));
    }
    let ghost start: int = expressions@.len() as int;
    let ghost operators = field_operators(*schema, *object_field);
    let mut operators_ref: Option<&Dict<crate::schema::ComparisonOperatorDefinition>> = None;
    if let Some(scalar_name) = crate::common::get_named_type(&object_field.field_type) {
        if let Some(scalar) = schema.scalar_types.get(scalar_name) {
            operators_ref = Some(&scalar.comparison_operators);
        }
    }
    proof {
        assert(operators_ref matches Some(d) ==> d.items() == operators);
        assert(operators_ref is None ==> operators.len() == 0);
    }
    if let Some(ops) = operators_ref {
        let mut i: usize = 0;
        while i < ops.len()
            invariant
                ops.items() == operators,
                i <= operators.len(),
                start == (if nullable { 1int } else { 0int }),
                expressions@.len() >= start,
                nullable ==> is_null_test(column, expressions@[0]),
                operator_expressions(column, operators.take(i as int), vs, expressions@.skip(start)),
                forall|k: int| 0 <= k < i ==> !(#[trigger] operators[k].1 is Equal) || values.len() > 0,
                vs == crate::json::views(values@),
                column == field_name@,
                context.collection_type.fields.map().contains_key(field_name@),
                *object_field == context.collection_type.fields.map()[field_name@],
                object_field.arguments.items().len() == 0,
                operators == field_operators(*schema, *object_field),
            decreases operators.len() - i,
        {
            let (operator_name, operator) = ops.get_index(i);
            let ghost before = expressions@;
            proof {
                assert(operators.take(i + 1).drop_last() =~= operators.take(i as int));
                assert(operators.take(i + 1).last() == operators[i as int]);
            }
            match operator {
                crate::schema::ComparisonOperatorDefinition::Equal => {
                    let value = match crate::random::choose_position(rng, values.len()) {
                        Some(p) => {
                            proof {
                                assert(vs[p as int] == values@[p as int]@);
                            }
                            values[p].clone_value()
                        },
                        None => {
                            proof {
                                assert(operators[i as int].1 is Equal);
                            }
                            return Err(Error::ExpectedNonEmptyRows);
                        },
                    };
                    let ghost vv = value@;
                    let g = equality_expression(field_name, operator_name, value);
                    proof {
                        assert(vs.contains(vv));
                    }
                    expressions.push(g);
                    proof {
                        assert(expressions@.skip(start).drop_last() =~= before.skip(start));
                        assert(expressions@.skip(start).last() == g);
                    }
                },
                crate::schema::ComparisonOperatorDefinition::In => {
                    let value_count = crate::random::draw_at_most(rng, 2);
                    let positions = crate::random::choose_slice_positions(rng, values.len(), value_count);
                    let mut picked: Vec<JsonValue> = Vec::new();
                    let mut j: usize = 0;
                    while j < positions.len()
                        invariant
                            j <= positions.len(),
                            picked.len() == j,
                            forall|m: int| 0 <= m < positions.len() ==> #[trigger] positions@[m] < values.len(),
                            forall|m: int| 0 <= m < j ==> #[trigger] picked@[m]@ == values@[positions@[m] as int]@,
                        decreases positions.len() - j,
                    {
                        picked.push(values[positions[j]].clone_value());
                        j += 1;
                    }
                    proof {
                        let pv = crate::json::views(picked@);
                        assert forall|m: int| 0 <= m < positions@.len() implies #[trigger] positions@[m] < vs.len() && pv[m] == vs[positions@[m] as int] by {
                            assert(pv[m] == picked@[m]@);
                        }
                        assert(drawn_from(pv, vs));
                    }
                    let g = membership_expression(field_name, operator_name, picked, value_count);
                    expressions.push(g);
                    proof {
                        assert(expressions@.skip(start).drop_last() =~= before.skip(start));
                        assert(expressions@.skip(start).last() == g);
                    }
                },
                _ => {},
            }
            i += 1;
        }
        proof {
            assert(operators.take(i as int) =~= operators);
        }
    }
    proof {
        if operators_ref is None {
            assert(operators.take(0) =~= operators);
        }
        if nullable {
            assert(expressions@.skip(start) =~= expressions@.drop_first());
        } else {
            assert(expressions@.skip(start) =~= expressions@);
        }
    }
    Ok(expressions)
}

/// The request of the predicate tests: every column that can be selected
/// without arguments, at most the configured number of rows, and the given
/// predicate (none, an empty conjunction, an empty disjunction or a
/// generated one).
pub fn predicate_request(
    gen_config: &TestGenerationConfiguration,
    collection_info: &CollectionInfo,
    collection_type: &ObjectType,
    predicate: Option<crate::query::Expression>,
) -> (r: QueryRequest)
    requires
        crate::common::keys_ascending(collection_type.fields.items()),
    ensures
        plain_request(r, collection_info.name@),
        r.query.limit == Some(gen_config.max_limit),
        r.query.offset is None && r.query.order_by is None && r.query.groups is None,
        r.query.predicate == predicate,
        r.query.aggregates is None,
        r.query.fields matches Some(f) && selects_all_columns(*collection_type, f),
{
    let fields = select_all_columns(collection_type);
    let query = Query {
        aggregates: None,
        fields: Some(fields),
        limit: Some(gen_config.max_limit),
        offset: None,
        order_by: None,
        predicate,
        groups: None,
    };
    plain_request_of(&collection_info.name, query)
}

/// The request of the grouping test for the column at a position among
/// those that take no arguments: the rows grouped by that column, each
/// group with its count.
pub fn grouping_request_at(collection_info: &CollectionInfo, collection_type: &ObjectType, position: usize) -> (r: QueryRequest)
    requires
        crate::common::keys_ascending(collection_type.fields.items()),
        position < argument_free_names(*collection_type).len(),
    ensures
        plain_request(r, collection_info.name@),
        r.query.aggregates is None && r.query.fields is None && r.query.limit is None,
        r.query.offset is None && r.query.order_by is None && r.query.predicate is None,
        r.query.groups matches Some(g) && g.predicate is None && g.order_by is None && g.limit is None
            && g.offset is None && g.aggregates.items().len() == 1 && g.aggregates.items()[0].0 == "count"@
            && g.aggregates.items()[0].1 is StarCount && g.dimensions.len() == 1 && (g.dimensions[0] matches crate::query::Dimension::Column {
            path,
            column_name,
            arguments,
            field_path,
            extraction,
        } && path.len() == 0 && arguments.items().len() == 0 && field_path is None && extraction is None
            && column_name@ == argument_free_names(*collection_type)[position as int]),
{
    let columns = select_all_columns_without_arguments(collection_type);
    proof {
        assert(columns@.map_values(|p: (&String, &ObjectField)| (p.0@, *p.1)).len() == columns@.len());
        assert(columns@.map_values(|q: (&String, &ObjectField)| (q.0@, *q.1))[position as int] == (
            columns@[position as int].0@,
            *columns@[position as int].1,
        ));
    }
    let column_name = columns[position].0;
    let mut aggregates = Dict::new();
    aggregates.insert("count".to_string(), Aggregate::StarCount {  });
    let dimension = crate::query::Dimension::Column {
        path: Vec::new(),
        column_name: column_name.clone(),
        arguments: Dict::new(),
        field_path: None,
        extraction: None,
    };
    let grouping = crate::query::Grouping {
        dimensions: vec![dimension],
        aggregates,
        predicate: None,
        order_by: None,
        limit: None,
        offset: None,
    };
    let query = Query {
        aggregates: None,
        fields: None,
        limit: None,
        offset: None,
        order_by: None,
        predicate: None,
        groups: Some(grouping),
    };
    plain_request_of(&collection_info.name, query)
}

/// The request of the grouping test: `grouping_request_at` for a column
/// picked at random among those that take no arguments; none when no
/// column takes no arguments.
pub fn grouping_request(
    collection_info: &CollectionInfo,
    collection_type: &ObjectType,
    rng: &mut rand::rngs::SmallRng,
) -> (r: Option<QueryRequest>)
    requires
        crate::common::keys_ascending(collection_type.fields.items()),
    ensures
        argument_free_names(*collection_type).len() == 0 <==> r is None,
        r matches Some(req) ==> exists|p: int|
            0 <= p < argument_free_names(*collection_type).len() && (req.query.groups matches Some(g) && g.dimensions.len() == 1
                && (g.dimensions[0] matches crate::query::Dimension::Column { column_name, .. } && column_name@
                == #[trigger] argument_free_names(*collection_type)[p])),
{
    let columns = select_all_columns_without_arguments(collection_type);
    let count = columns.len();
    proof {
        assert(columns@.map_values(|p: (&String, &ObjectField)| (p.0@, *p.1)).len() == columns@.len());
    }
    match crate::random::choose_filtered_position(rng, count) {
        None => None,
        Some(p) => Some(grouping_request_at(collection_info, collection_type, p)),
    }
}

/// Whether a field's type names a scalar type of the schema.
pub open spec fn sortable(schema: crate::schema::SchemaResponse, e: (Seq<char>, ObjectField)) -> bool {
    crate::common::named_type(e.1.field_type) matches Some(t) && schema.scalar_types.map().contains_key(t)
}

/// The names of the fields that can be sorted on, in order: those whose
/// type names a scalar type.
pub open spec fn sortable_names(schema: crate::schema::SchemaResponse, ot: ObjectType) -> Seq<Seq<char>> {
    sortable_prefix(schema, ot.fields.items(), ot.fields.items().len() as int)
}

/// The names of the sortable fields among the first `n`.
pub open spec fn sortable_prefix(schema: crate::schema::SchemaResponse, items: Seq<(Seq<char>, ObjectField)>, n: int) -> Seq<Seq<char>>
    decreases n,
{
    if n <= 0 || n > items.len() {
        Seq::empty()
    } else if sortable(schema, items[n - 1]) {
        sortable_prefix(schema, items, n - 1).push(items[n - 1].0)
    } else {
        sortable_prefix(schema, items, n - 1)
    }
}

/// The fields that can be sorted on.
pub fn sortable_fields(schema: &crate::schema::SchemaResponse, collection_type: &ObjectType) -> (r: Vec<String>)
    requires
        crate::common::keys_ascending(collection_type.fields.items()),
    ensures
        names_view(r@) == sortable_names(*schema, *collection_type),
{
    let ghost items = collection_type.fields.items();
    let mut names: Vec<String> = Vec::new();
    let mut i: usize = 0;
    while i < collection_type.fields.len()
        invariant
            items == collection_type.fields.items(),
            i <= items.len(),
            names_view(names@) == sortable_prefix(*schema, items, i as int),
        decreases items.len() - i,
    {
        let (name, field) = collection_type.fields.get_index(i);
        let ghost before = names@;
        if let Some(t) = crate::common::as_named_type(&field.field_type) {
            if schema.scalar_types.contains_key(t) {
                names.push(name.clone());
                proof {
                    assert(names_view(names@) =~= names_view(before).push(name@));
                }
            }
        }
        i += 1;
    }
    names
}

/// The ordering of rows by a column, ascending or descending.
pub fn order_by_element(name: &String, ascending: bool) -> (e: crate::query::OrderByElement)
    ensures
        e.order_direction == (if ascending { crate::query::OrderDirection::Asc } else { crate::query::OrderDirection::Desc }),
        e.target matches crate::query::OrderByTarget::Column { path, name: n, arguments, field_path } && path.len() == 0
            && n@ == name@ && arguments.items().len() == 0 && field_path is None,
{
    crate::query::OrderByElement {
        order_direction: if ascending { crate::query::OrderDirection::Asc } else { crate::query::OrderDirection::Desc },
        target: crate::query::OrderByTarget::Column { path: Vec::new(), name: name.clone(), arguments: Dict::new(), field_path: None },
    }
}

/// Whether an ordering element orders by the named column, in either
/// direction.
pub open spec fn orders_by(e: crate::query::OrderByElement, name: Seq<char>) -> bool {
    e.target matches crate::query::OrderByTarget::Column { path, name: n, arguments, field_path } && path.len() == 0
        && n@ == name && arguments.items().len() == 0 && field_path is None
}

/// Orderings by up to `amount` of the sortable columns, picked at random
/// and each ascending or descending at random; none when no column can be
/// sorted on.
pub fn make_order_by_elements(
    collection_type: &ObjectType,
    schema: &crate::schema::SchemaResponse,
    rng: &mut rand::rngs::SmallRng,
    amount: usize,
) -> (r: Option<Vec<crate::query::OrderByElement>>)
    requires
        crate::common::keys_ascending(collection_type.fields.items()),
    ensures
        sortable_names(*schema, *collection_type).len() == 0 <==> r is None,
        r matches Some(es) ==> {
            &&& es.len() == if amount < sortable_names(*schema, *collection_type).len() {
                amount as int
            } else {
                sortable_names(*schema, *collection_type).len() as int
            }
            &&& exists|positions: Seq<usize>|
                {
                    &&& positions.len() == es.len()
                    &&& crate::random::distinct(positions)
                    &&& forall|i: int|
                        0 <= i < positions.len() ==> #[trigger] positions[i] < sortable_names(*schema, *collection_type).len()
                            && orders_by(es@[i], sortable_names(*schema, *collection_type)[positions[i] as int])
                }
        },
{
    let names = sortable_fields(schema, collection_type);
    if names.len() == 0 {
        return None;
    }
    let chosen = crate::random::choose_positions(rng, names.len(), amount);
    let mut elements: Vec<crate::query::OrderByElement> = Vec::new();
    let mut j: usize = 0;
    while j < chosen.len()
        invariant
            j <= chosen.len(),
            elements.len() == j,
            forall|m: int| 0 <= m < chosen.len() ==> #[trigger] chosen@[m] < names.len(),
            forall|m: int| 0 <= m < j ==> orders_by(#[trigger] elements@[m], names@[chosen@[m] as int]@),
        decreases chosen.len() - j,
    {
        let ascending = crate::random::coin_flip(rng);
        elements.push(order_by_element(&names[chosen[j]], ascending));
        j += 1;
    }
    proof {
        assert forall|i: int| 0 <= i < chosen@.len() implies #[trigger] chosen@[i] < sortable_names(*schema, *collection_type).len()
            && orders_by(elements@[i], sortable_names(*schema, *collection_type)[chosen@[i] as int]) by {
            assert(names_view(names@)[chosen@[i] as int] == names@[chosen@[i] as int]@);
        }
    }
    Some(elements)
}

/// The request of the sorting test: a random selection of columns, at most
/// the configured number of rows, in the given order.
pub fn sort_request(
    gen_config: &TestGenerationConfiguration,
    collection_info: &CollectionInfo,
    collection_type: &ObjectType,
    elements: Vec<crate::query::OrderByElement>,
    rng: &mut rand::rngs::SmallRng,
) -> (r: QueryRequest)
    requires
        crate::common::keys_ascending(collection_type.fields.items()),
    ensures
        plain_request(r, collection_info.name@),
        r.query.limit == Some(gen_config.max_limit),
        r.query.offset is None && r.query.predicate is None && r.query.groups is None && r.query.aggregates is None,
        r.query.order_by matches Some(ob) && ob.elements@ == elements@,
        r.query.fields is Some,
{
    let fields = crate::common::select_columns(collection_type, rng);
    let query = Query {
        aggregates: None,
        fields: Some(fields),
        limit: Some(gen_config.max_limit),
        offset: None,
        order_by: Some(crate::query::OrderBy { elements }),
        predicate: None,
        groups: None,
    };
    plain_request_of(&collection_info.name, query)
}

/// The number of columns a sorting test orders by: from one to the
/// configured complexity, at least one.
pub fn sort_amount(gen_config: &TestGenerationConfiguration, rng: &mut rand::rngs::SmallRng) -> (r: usize)
    ensures
        1 <= r <= if gen_config.complexity > 1 { gen_config.complexity as int } else { 1 },
{
    let most: usize = if gen_config.complexity > 1 { gen_config.complexity as usize } else { 1 };
    crate::random::draw_usize(rng, 1, most)
}

/// Whether a collection is the first of a list with a name.
pub open spec fn is_first_named(cs: Seq<CollectionInfo>, name: Seq<char>, i: int) -> bool {
    0 <= i < cs.len() && cs[i].name@ == name && forall|j: int| 0 <= j < i ==> cs[j].name@ != name
}

/// The position of the first collection of a list with a name.
pub open spec fn first_named(cs: Seq<CollectionInfo>, name: Seq<char>) -> int {
    choose|i: int| is_first_named(cs, name, i)
}

/// A column mapping by its texts.
pub open spec fn mapping_view(d: Dict<Vec<String>>) -> Seq<(Seq<char>, Seq<Seq<char>>)> {
    d.items().map_values(|e: (Seq<char>, Vec<String>)| (e.0, crate::error::path_view(e.1@)))
}

/// Whether a request asks for columns of a collection together with the
/// row its foreign key points to, through an object relationship named
/// `__relationship` with the foreign key's column mapping.
pub open spec fn object_relationship_request_ok(
    r: QueryRequest,
    gen_config: TestGenerationConfiguration,
    collection_info: CollectionInfo,
    collection_type: ObjectType,
    foreign_key_name: Seq<char>,
    foreign_key: crate::schema::ForeignKeyConstraint,
    other_type: ObjectType,
) -> bool {
    &&& r.collection@ == collection_info.name@
    &&& r.arguments.items().len() == 0
    &&& r.variables is None
    &&& plain_query(r.query, gen_config.max_limit)
    &&& r.query.aggregates is None
    &&& r.query.fields matches Some(f) && f.items().len() <= columns_with_nullable_arguments(collection_type).len() + 1
        && f.map().contains_key(foreign_key_name) && (f.map()[foreign_key_name] matches Field::Relationship {
        query: q,
        relationship,
        arguments,
    } && relationship@ == "__relationship"@ && arguments.items().len() == 0 && plain_query(*q, gen_config.max_limit)
        && q.aggregates is None && (q.fields matches Some(of) && selects_all_columns(other_type, of)))
    &&& r.collection_relationships.items().len() == 1
    &&& r.collection_relationships.items()[0].0 == "__relationship"@
    &&& r.collection_relationships.items()[0].1.relationship_type == crate::query::RelationshipType::Object
    &&& r.collection_relationships.items()[0].1.target_collection@ == foreign_key.foreign_collection@
    &&& r.collection_relationships.items()[0].1.arguments.items().len() == 0
    &&& mapping_view(r.collection_relationships.items()[0].1.column_mapping) == mapping_view(foreign_key.column_mapping)
}

/// A copy of a column mapping.
fn copy_mapping(d: &Dict<Vec<String>>) -> (r: Dict<Vec<String>>)
    ensures
        mapping_view(r) == mapping_view(*d),
{
    let mut entries: Vec<(String, Vec<String>)> = Vec::new();
    let mut i: usize = 0;
    while i < d.len()
        invariant
            i <= d.items().len(),
            entries.len() == i,
            forall|m: int| 0 <= m < i ==> #[trigger] entries@[m].0@ == d.items()[m].0 && crate::error::path_view(entries@[m].1@)
                == crate::error::path_view(d.items()[m].1@),
        decreases d.items().len() - i,
    {
        let (k, v) = d.get_index(i);
        entries.push((k.clone(), crate::text::copy_path(v)));
        i += 1;
    }
    let r = Dict::from_entries(entries);
    proof {
        assert(mapping_view(r) =~= mapping_view(*d));
    }
    r
}

/// The request of the object relationship test for a foreign key of a
/// collection: a random selection of its columns, and under the foreign
/// key's name the columns of the row it points to. Fails when the foreign
/// collection, or its type, is not defined; none when the foreign
/// collection takes arguments.
pub fn object_relationship_request(
    gen_config: &TestGenerationConfiguration,
    schema: &crate::schema::SchemaResponse,
    collection_info: &CollectionInfo,
    collection_type: &ObjectType,
    foreign_key_name: &String,
    foreign_key: &crate::schema::ForeignKeyConstraint,
    rng: &mut rand::rngs::SmallRng,
) -> (r: Result<Option<QueryRequest>, Error>)
    requires
        crate::common::keys_ascending(collection_type.fields.items()),
        crate::common::fields_ascend(*schema),
    ensures
        !(exists|i: int| 0 <= i < schema.collections.len() && #[trigger] schema.collections@[i].name@ == foreign_key.foreign_collection@)
            ==> (r matches Err(e) && e@ == Fault::CollectionIsNotDefined(foreign_key.foreign_collection@)),
        (exists|i: int| 0 <= i < schema.collections.len() && #[trigger] schema.collections@[i].name@ == foreign_key.foreign_collection@)
            ==> {
            let other = schema.collections@[first_named(schema.collections@, foreign_key.foreign_collection@)];
            if other.arguments.items().len() > 0 {
                r matches Ok(None)
            } else if !schema.object_types.map().contains_key(other.collection_type@) {
                r matches Err(e) && e@ == Fault::CollectionTypeIsNotDefined(other.collection_type@)
            } else {
                r matches Ok(Some(req)) && object_relationship_request_ok(
                    req,
                    *gen_config,
                    *collection_info,
                    *collection_type,
                    foreign_key_name@,
                    *foreign_key,
                    schema.object_types.map()[other.collection_type@],
                )
            }
        },
{
    let mut fields = crate::common::select_columns(collection_type, rng);
    let ghost cs = schema.collections@;
    let ghost fc = foreign_key.foreign_collection@;
    let mut i: usize = 0;
    while i < schema.collections.len()
        invariant
            cs == schema.collections@,
            fc == foreign_key.foreign_collection@,
            i <= cs.len(),
            forall|j: int| 0 <= j < i ==> #[trigger] cs[j].name@ != fc,
        ensures
            i <= cs.len(),
            forall|j: int| 0 <= j < i ==> #[trigger] cs[j].name@ != fc,
            i == cs.len() || cs[i as int].name@ == fc,
        decreases cs.len() - i,
    {
        if schema.collections[i].name == foreign_key.foreign_collection {
            break;
        }
        i += 1;
    }
    if i == schema.collections.len() {
        return Err(Error::CollectionIsNotDefined(foreign_key.foreign_collection.clone()));
    }
    let other = &schema.collections[i];
    proof {
        assert(is_first_named(cs, fc, i as int));
        let k = first_named(cs, fc);
        assert(is_first_named(cs, fc, k));
        if k < i {
            assert(cs[k].name@ != fc);
        } else if k > i {
            assert(cs[i as int].name@ != fc);
        }
        assert(k == i);
    }
    if other.arguments.len() > 0 {
        return Ok(None);
    }
    let other_type = match schema.object_types.get(&other.collection_type) {
        Some(t) => t,
        None => {
            return Err(Error::CollectionTypeIsNotDefined(other.collection_type.clone()));
        },
    };
    proof {
        schema.object_types.lemma_items(other.collection_type@);
    }
    let other_fields = select_all_columns(other_type);
    let related = Query {
        aggregates: None,
        fields: Some(other_fields),
        limit: Some(gen_config.max_limit),
        offset: None,
        order_by: None,
        predicate: None,
        groups: None,
    };
    let ghost before = fields.items();
    let ghost had = fields.map().contains_key(foreign_key_name@);
    fields.insert(
        foreign_key_name.clone(),
        Field::Relationship { query: Box::new(related), relationship: "__relationship".to_string(), arguments: Dict::new() },
    );
    proof {
        crate::json::lemma_entries_map(before, foreign_key_name@);
        crate::json::lemma_last_key_index(crate::json::entry_keys(before), foreign_key_name@);
        if had {
            assert(fields.items().len() == before.len());
        } else {
            assert(fields.items().len() == before.len() + 1);
        }
    }
    let mut relationships = Dict::new();
    let relationship = crate::query::Relationship {
        column_mapping: copy_mapping(&foreign_key.column_mapping),
        relationship_type: crate::query::RelationshipType::Object,
        target_collection: foreign_key.foreign_collection.clone(),
        arguments: Dict::new(),
    };
    relationships.insert("__relationship".to_string(), relationship);
    let query = Query {
        aggregates: None,
        fields: Some(fields),
        limit: Some(gen_config.max_limit),
        offset: None,
        order_by: None,
        predicate: None,
        groups: None,
    };
    Ok(Some(QueryRequest {
        collection: collection_info.name.clone(),
        query,
        arguments: Dict::new(),
        collection_relationships: relationships,
        variables: None,
    }))
}

} // verus!
