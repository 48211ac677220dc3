use vstd::prelude::*;
use crate::dict::Dict;
use crate::engine::{
    average_fn, copy_row, deterministic_average, deterministic_float, orderly_less,
    eval_aggregate_function, eval_column, eval_column_mapping, eval_field_path,
    eval_relationship_argument, eval_row_field_path, float_fn, is_name, json_outcome, less_by,
    outcome, row_of_object, row_value, server_error, Row, ServerError,
};
use crate::json::{json_eq, views, Json, JsonNumber, JsonValue};
use crate::query::{
    Aggregate, Argument, ArrayComparison, ComparisonTarget, ComparisonValue, ExistsInCollection,
    Expression, OrderBy, OrderByElement, OrderByTarget, OrderDirection, PathElement, Relationship,
    RelationshipArgument, Dimension, Group, GroupComparisonTarget, GroupComparisonValue,
    GroupExpression, GroupOrderByElement, GroupOrderByTarget, Grouping, Field, NestedField, Query,
    RowSet, RowFieldValue,
};
use crate::rowset::{row_entries, rowset_value, entries_value, value_entries, RowSetValue};
use crate::semantics::{
    aggregate_value, aggregates_value, all_hold, any_holds, arguments_value, column_at,
    column_values, comparison_values, expr_holds, filter_rows, in_collection_rows, mapped_rows,
    objects_of, path_rows, present, related_rows, related_where, scope_row, source_row,
    target_rows, target_value, targets_where, value_rows, column_at_path, element_value,
    compare_from, insertion_point, sorted_rows, then, Ctx, Failure, RowView, dim_value, row_dims,
    dims_list, chunks_of, group_element_value, group_compare_from, group_insertion_point,
    groups_sorted, group_holds, group_all_hold, group_any_holds, group_comparison_values,
    groups_kept, groups_value, query_result, row_list, row_fields, field_value, nested_value,
    nested_list, rowset_json, collection_arguments, collection_query, context_with,
    request_rowsets,
};
use crate::query::{QueryRequest, QueryResponse};
use crate::json::{entries_map, object_entries};
use crate::engine::{compare, FloatAggregate, Order};
use crate::state::{get_collection_by_name, row_views, rows_outcome, single_row, AppState};

verus! {

broadcast use crate::dict::Dict::lemma_value_decreases;

/// Evaluates queries against the data: the relationships and variables of a
/// request, the data, and closures that order and aggregate numbers as
/// 64-bit floats.
pub struct Evaluator<'a, L, F, A> {
    pub relationships: &'a Dict<Relationship>,
    pub variables: &'a Row,
    pub state: &'a AppState,
    pub less: &'a L,
    pub floats: &'a F,
    pub average: &'a A,
}

/// The outcome of a computation of values, values taken by their meaning.
pub open spec fn values_outcome(r: Result<Vec<JsonValue>, ServerError>) -> Result<Seq<Json>, Failure> {
    match r {
        Ok(vs) => Ok(views(vs@)),
        Err(e) => Err((e.status, e.message@)),
    }
}

/// The outcome of a computation of a row, taken by its meaning.
pub open spec fn map_outcome(r: Result<Row, ServerError>) -> Result<RowView, Failure> {
    match r {
        Ok(row) => Ok(row_value(row)),
        Err(e) => Err((e.status, e.message@)),
    }
}

/// Setting a column of a row sets it in the row's meaning.
pub proof fn lemma_row_insert(before: Row, after: Row, k: Seq<char>, v: JsonValue)
    requires
        after.map() == before.map().insert(k, v),
    ensures
        row_value(after) == row_value(before).insert(k, v@),
{
    assert forall|kk: Seq<char>| #[trigger] row_value(after).contains_key(kk) == row_value(before).insert(k, v@).contains_key(kk) by {
        crate::engine::lemma_row_get(after, kk);
        crate::engine::lemma_row_get(before, kk);
    }
    assert forall|kk: Seq<char>| row_value(after).contains_key(kk) implies #[trigger] row_value(after)[kk] == row_value(before).insert(k, v@)[kk] by {
        crate::engine::lemma_row_get(after, kk);
        crate::engine::lemma_row_get(before, kk);
    }
    assert(row_value(after) =~= row_value(before).insert(k, v@));
}

/// An empty row.
pub fn empty_row() -> (r: Row)
    ensures
        row_value(r) == Map::<Seq<char>, Json>::empty(),
        r.items().len() == 0,
{
    let r: Row = Dict::new();
    proof {
        assert(row_value(r) =~= Map::<Seq<char>, Json>::empty());
    }
    r
}

/// Whether every value is an integer that fits in 64 bits.
fn all_integers(values: &Vec<JsonValue>) -> (b: bool)
    ensures
        b == crate::engine::all_i64(views(values@)),
{
    let mut i: usize = 0;
    while i < values.len()
        invariant
            i <= values.len(),
            forall|j: int| 0 <= j < i ==> crate::json::json_as_i64(#[trigger] views(values@)[j]) is Some,
        decreases values.len() - i,
    {
        if values[i].as_i64().is_none() {
            proof {
                assert(crate::json::json_as_i64(views(values@)[i as int]) is None);
            }
            return false;
        }
        i += 1;
    }
    true
}

/// Whether each running sum of integers fits in 64 bits.
fn sums_in_range(values: &Vec<JsonValue>) -> (b: bool)
    requires
        crate::engine::all_i64(views(values@)),
    ensures
        b == crate::engine::sums_fit(crate::engine::int_values(views(values@))),
{
    let ghost s = crate::engine::int_values(views(values@));
    let mut total: i64 = 0;
    let mut i: usize = 0;
    proof {
        assert(s.take(0) =~= Seq::<int>::empty());
    }
    while i < values.len()
        invariant
            s == crate::engine::int_values(views(values@)),
            crate::engine::all_i64(views(values@)),
            i <= values.len(),
            s.len() == values.len(),
            total as int == crate::engine::int_sum(s.take(i as int)),
            forall|k: int| 0 <= k <= i ==> i64::MIN <= #[trigger] crate::engine::int_sum(s.take(k)) <= i64::MAX,
        decreases values.len() - i,
    {
        proof {
            assert(crate::json::json_as_i64(views(values@)[i as int]) is Some);
            assert(s.take(i + 1).drop_last() =~= s.take(i as int));
        }
        let n = match values[i].as_i64() {
            Some(n) => n,
            None => 0,
        };
        proof {
            assert(s[i as int] == n as int);
        }
        let wide: i128 = total as i128 + n as i128;
        proof {
            assert(s.take(i + 1).last() == s[i as int]);
            assert(crate::engine::int_sum(s.take(i + 1)) == wide as int);
        }
        if wide < i64::MIN as i128 || wide > i64::MAX as i128 {
            proof {
                assert(!(i64::MIN <= crate::engine::int_sum(s.take(i + 1)) <= i64::MAX));
            }
            return false;
        }
        total = wide as i64;
        i += 1;
    }
    proof {
        assert(s.take(s.len() as int) =~= s);
    }
    true
}

/// The number of values that are not null, or of distinct such values.
fn count_present(values: &Vec<JsonValue>, distinct: bool) -> (n: usize)
    ensures
        distinct ==> n == present(views(values@)).to_set().len(),
        !distinct ==> n == present(views(values@)).len(),
{
    let ghost vs = views(values@);
    let mut count: usize = 0;
    let mut seen: Vec<JsonValue> = Vec::new();
    let mut i: usize = 0;
    proof {
        assert(vs.take(0) =~= Seq::<Json>::empty());
        assert(present(vs.take(0)) =~= Seq::<Json>::empty());
        assert(views(seen@) =~= Seq::<Json>::empty());
        assert(views(seen@).to_set() =~= present(vs.take(0)).to_set());
    }
    while i < values.len()
        invariant
            vs == views(values@),
            i <= values.len(),
            count as int == present(vs.take(i as int)).len(),
            count <= i,
            views(seen@).no_duplicates(),
            views(seen@).to_set() == present(vs.take(i as int)).to_set(),
        decreases values.len() - i,
    {
        let ghost x = values@[i as int]@;
        proof {
            assert(vs.take(i + 1) =~= vs.take(i as int).push(x));
            assert(vs.take(i + 1).drop_last() =~= vs.take(i as int));
            if x != Json::Null {
                assert(present(vs.take(i + 1)) == present(vs.take(i as int)).push(x));
                present(vs.take(i as int)).lemma_push_to_set_commute(x);
                assert(present(vs.take(i + 1)).to_set() =~= present(vs.take(i as int)).to_set().insert(x));
            } else {
                assert(present(vs.take(i + 1)) == present(vs.take(i as int)));
            }
        }
        if !values[i].is_null() {
            count = count + 1;
            let mut found = false;
            let mut j: usize = 0;
            while j < seen.len()
                invariant
                    j <= seen.len(),
                    found == exists|k: int| 0 <= k < j && #[trigger] views(seen@)[k] == x,
                    x == values@[i as int]@,
                    i < values.len(),
                decreases seen.len() - j,
            {
                if json_eq(&seen[j], &values[i]) {
                    proof {
                        assert(views(seen@)[j as int] == x);
                    }
                    found = true;
                }
                j += 1;
            }
            if !found {
                let ghost before = views(seen@);
                seen.push(values[i].clone_value());
                proof {
                    assert(views(seen@) =~= before.push(x));
                    assert(!before.contains(x));
                    before.lemma_push_to_set_commute(x);
                }
            } else {
                proof {
                    assert(views(seen@).contains(x));
                    assert(views(seen@).to_set().contains(x));
                    assert(views(seen@).to_set() =~= views(seen@).to_set().insert(x));
                }
            }
        }
        i += 1;
    }
    proof {
        assert(vs.take(i as int) =~= vs);
        views(seen@).unique_seq_to_set();
    }
    if distinct {
        seen.len()
    } else {
        count
    }
}

/// A run of consecutive rows with the same dimension values.
pub struct Chunk {
    pub dimensions: Vec<JsonValue>,
    pub rows: Vec<Row>,
}

/// The meaning of a run of rows.
pub open spec fn chunk_view(c: Chunk) -> (Seq<Json>, Seq<RowView>) {
    (views(c.dimensions@), row_views(c.rows@))
}

/// The meanings of runs of rows.
pub open spec fn chunk_views(cs: Seq<Chunk>) -> Seq<(Seq<Json>, Seq<RowView>)> {
    cs.map_values(|c: Chunk| chunk_view(c))
}

/// The meanings of lists of values.
pub open spec fn dims_views(ds: Seq<Vec<JsonValue>>) -> Seq<Seq<Json>> {
    ds.map_values(|d: Vec<JsonValue>| views(d@))
}

/// The meanings of groups.
pub open spec fn group_views(gs: Seq<Group>) -> Seq<(Seq<Json>, Map<Seq<char>, Json>)> {
    gs.map_values(|g: Group| (views(g.dimensions@), row_value(g.aggregates)))
}

/// The outcome of a computation of groups, groups taken by their meaning.
pub open spec fn groups_outcome(r: Result<Vec<Group>, ServerError>) -> Result<Seq<(Seq<Json>, Map<Seq<char>, Json>)>, Failure> {
    match r {
        Ok(gs) => Ok(group_views(gs@)),
        Err(e) => Err((e.status, e.message@)),
    }
}

/// The outcome of a query's evaluation, its row set taken by its meaning.
pub open spec fn rowset_outcome(r: Result<RowSet, ServerError>) -> Result<RowSetValue, Failure> {
    match r {
        Ok(rs) => Ok(rowset_value(rs)),
        Err(e) => Err((e.status, e.message@)),
    }
}

/// The meanings of rows of field values.
pub open spec fn field_rows_view(rows: Seq<Dict<RowFieldValue>>) -> Seq<Map<Seq<char>, Json>> {
    rows.map_values(|d: Dict<RowFieldValue>| entries_value(row_entries(d)))
}

/// A row of values as a row of field values.
pub fn field_row(row: &Row) -> (r: Dict<RowFieldValue>)
    ensures
        entries_value(row_entries(r)) == row_value(*row),
        crate::json::entry_keys(row_entries(r)) == crate::json::entry_keys(row.items()),
{
    let mut out: Vec<(String, RowFieldValue)> = Vec::new();
    let mut i: usize = 0;
    while i < row.len()
        invariant
            i <= row.items().len(),
            out.len() == i,
            forall|j: int| 0 <= j < i ==> #[trigger] out@[j].0@ == row.items()[j].0 && out@[j].1.0@ == row.items()[j].1@,
        decreases row.items().len() - i,
    {
        let (k, v) = row.get_index(i);
        out.push((k.clone(), RowFieldValue(v.clone_value())));
        i += 1;
    }
    let r = Dict::from_entries(out);
    proof {
        assert(value_entries(row_entries(r)) =~= value_entries(row.items()));
        assert(crate::json::entry_keys(row_entries(r)) =~= crate::json::entry_keys(row.items()));
    }
    r
}

/// Whether the rows of a row set hold the columns that a query asks for,
/// in the order it asks for them, when no two of its fields share a name.
pub open spec fn rows_follow_fields(q: Query, rs: RowSet) -> bool {
    q.fields matches Some(f) ==> (crate::json::entry_keys(f.items()).no_duplicates() ==> (rs.rows matches Some(rws)
        && forall|j: int|
        0 <= j < rws.len() ==> crate::json::entry_keys(row_entries(#[trigger] rws@[j])) == crate::json::entry_keys(
            f.items(),
        )))
}

/// A row of field values as a JSON object.
pub fn field_row_object(row: &Dict<RowFieldValue>) -> (r: JsonValue)
    ensures
        r@ == Json::Object(entries_value(row_entries(*row))),
{
    let mut out: Vec<(String, JsonValue)> = Vec::new();
    let mut i: usize = 0;
    while i < row.len()
        invariant
            i <= row.items().len(),
            out.len() == i,
            forall|j: int| 0 <= j < i ==> #[trigger] out@[j].0@ == row.items()[j].0 && out@[j].1@ == row.items()[j].1.0@,
        decreases row.items().len() - i,
    {
        let (k, v) = row.get_index(i);
        out.push((k.clone(), v.0.clone_value()));
        i += 1;
    }
    proof {
        crate::json::lemma_object_view(out);
        assert(object_entries(out@) =~= value_entries(row_entries(*row)));
    }
    JsonValue::Object(out)
}

/// Adding an entry to a list of entries adds it to the map they denote.
proof fn lemma_entries_push(es: Seq<(String, JsonValue)>, k: String, v: JsonValue)
    ensures
        entries_map(object_entries(es.push((k, v)))) == entries_map(object_entries(es)).insert(k@, v@),
{
    assert(object_entries(es.push((k, v))).drop_last() =~= object_entries(es));
}

/// A row set as JSON: an object with the parts it has.
pub fn rowset_to_json(rs: &RowSet) -> (r: JsonValue)
    ensures
        r@ == rowset_json(rowset_value(*rs)),
{
    let ghost v = rowset_value(*rs);
    let mut es: Vec<(String, JsonValue)> = Vec::new();
    proof {
        assert(entries_map(object_entries(es@)) =~= Map::<Seq<char>, Json>::empty());
    }
    match &rs.aggregates {
        Some(a) => {
            let ghost before = es@;
            let k = "aggregates".to_string();
            let j = crate::state::row_object(a);
            proof {
                lemma_entries_push(before, k, j);
            }
            es.push((k, j));
        },
        None => {},
    }
    let ghost after_aggregates = entries_map(object_entries(es@));
    let ghost wa = match v.aggregates {
        Some(a) => Map::<Seq<char>, Json>::empty().insert("aggregates"@, Json::Object(a)),
        None => Map::<Seq<char>, Json>::empty(),
    };
    proof {
        assert(after_aggregates =~= wa);
    }
    match &rs.rows {
        Some(rows) => {
            let mut arr: Vec<JsonValue> = Vec::new();
            let mut i: usize = 0;
            while i < rows.len()
                invariant
                    i <= rows.len(),
                    arr.len() == i,
                    forall|j: int| 0 <= j < i ==> #[trigger] arr@[j]@ == Json::Object(entries_value(row_entries(rows@[j]))),
                decreases rows.len() - i,
            {
                arr.push(field_row_object(&rows[i]));
                i += 1;
            }
            let ghost before = es@;
            let k = "rows".to_string();
            let ghost av = views(arr@);
            let j = JsonValue::Array(arr);
            proof {
                crate::json::lemma_array_view(arr);
                assert(av =~= v.rows->Some_0.map_values(|r: Map<Seq<char>, Json>| Json::Object(r)));
                lemma_entries_push(before, k, j);
            }
            es.push((k, j));
        },
        None => {},
    }
    let ghost after_rows = entries_map(object_entries(es@));
    let ghost wr = match v.rows {
        Some(rows) => wa.insert("rows"@, Json::Array(rows.map_values(|r: Map<Seq<char>, Json>| Json::Object(r)))),
        None => wa,
    };
    proof {
        assert(after_rows =~= wr);
    }
    match &rs.groups {
        Some(groups) => {
            let mut arr: Vec<JsonValue> = Vec::new();
            let mut i: usize = 0;
            while i < groups.len()
                invariant
                    i <= groups.len(),
                    arr.len() == i,
                    forall|j: int| 0 <= j < i ==> #[trigger] arr@[j]@ == Json::Object(
                        map!["dimensions"@ => Json::Array(views(groups@[j].dimensions@)), "aggregates"@ => Json::Object(row_value(groups@[j].aggregates))],
                    ),
                decreases groups.len() - i,
            {
                let g = &groups[i];
                let dims = copy_values(&g.dimensions);
                let ghost dv = views(dims@);
                let mut ges: Vec<(String, JsonValue)> = Vec::new();
                let k1 = "dimensions".to_string();
                let j1 = JsonValue::Array(dims);
                let k2 = "aggregates".to_string();
                let j2 = crate::state::row_object(&g.aggregates);
                proof {
                    crate::json::lemma_array_view(dims);
                    assert(entries_map(object_entries(ges@)) =~= Map::<Seq<char>, Json>::empty());
                    lemma_entries_push(ges@, k1, j1);
                    lemma_entries_push(ges@.push((k1, j1)), k2, j2);
                }
                ges.push((k1, j1));
                ges.push((k2, j2));
                let obj = JsonValue::Object(ges);
                proof {
                    crate::json::lemma_object_view(ges);
                    assert(obj@ == Json::Object(
                        map!["dimensions"@ => Json::Array(views(groups@[i as int].dimensions@)), "aggregates"@ => Json::Object(row_value(groups@[i as int].aggregates))],
                    ));
                }
                arr.push(obj);
                i += 1;
            }
            let ghost before = es@;
            let k = "groups".to_string();
            let ghost av = views(arr@);
            let j = JsonValue::Array(arr);
            proof {
                crate::json::lemma_array_view(arr);
                lemma_entries_push(before, k, j);
                let gs = v.groups->Some_0;
                assert forall|n: int| 0 <= n < av.len() implies #[trigger] av[n] == Json::Object(
                    map!["dimensions"@ => Json::Array(gs[n].0), "aggregates"@ => Json::Object(gs[n].1)],
                ) by {
                    assert(gs[n] == crate::rowset::group_value(groups@[n]));
                    assert(views(groups@[n].dimensions@) =~= groups@[n].dimensions@.map_values(|x: JsonValue| x@));
                }
                assert(av =~= gs.map_values(
                    |g: (Seq<Json>, Map<Seq<char>, Json>)|
                        Json::Object(
                            map!["dimensions"@ => Json::Array(g.0), "aggregates"@ => Json::Object(g.1)],
                        ),
                ));
            }
            es.push((k, j));
        },
        None => {},
    }
    proof {
        crate::json::lemma_object_view(es);
    }
    let ghost wg = match v.groups {
        Some(gs) => wr.insert(
            "groups"@,
            Json::Array(
                gs.map_values(
                    |g: (Seq<Json>, Map<Seq<char>, Json>)|
                        Json::Object(
                            map!["dimensions"@ => Json::Array(g.0), "aggregates"@ => Json::Object(g.1)],
                        ),
                ),
            ),
        ),
        None => wr,
    };
    proof {
        assert(entries_map(object_entries(es@)) =~= wg);
    }
    let r = JsonValue::Object(es);
    r
}

/// A copy of a run of rows.
pub fn copy_chunk(c: &Chunk) -> (r: Chunk)
    ensures
        chunk_view(r) == chunk_view(*c),
{
    Chunk { dimensions: copy_values(&c.dimensions), rows: copy_rows(&c.rows) }
}

/// Copies of values.
pub fn copy_values(vs: &Vec<JsonValue>) -> (r: Vec<JsonValue>)
    ensures
        views(r@) == views(vs@),
{
    let mut out: Vec<JsonValue> = Vec::new();
    let mut i: usize = 0;
    while i < vs.len()
        invariant
            i <= vs.len(),
            out.len() == i,
            forall|j: int| 0 <= j < i ==> #[trigger] out@[j]@ == vs@[j]@,
        decreases vs.len() - i,
    {
        out.push(vs[i].clone_value());
        i += 1;
    }
    proof {
        assert(views(out@) =~= views(vs@));
    }
    out
}

/// Rows cut into runs of consecutive rows with equal dimension values.
pub fn chunk_rows(rows: &Vec<Row>, dims: &Vec<Vec<JsonValue>>) -> (r: Vec<Chunk>)
    requires
        rows.len() == dims.len(),
    ensures
        chunk_views(r@) == chunks_of(row_views(rows@), dims_views(dims@)),
{
    let ghost rs = row_views(rows@);
    let ghost ds = dims_views(dims@);
    let mut chunks: Vec<Chunk> = Vec::new();
    let mut i: usize = 0;
    proof {
        assert(rs.take(0) =~= Seq::<RowView>::empty());
        assert(chunk_views(chunks@) =~= Seq::<(Seq<Json>, Seq<RowView>)>::empty());
    }
    while i < rows.len()
        invariant
            rows.len() == dims.len(),
            rs == row_views(rows@),
            ds == dims_views(dims@),
            i <= rows.len(),
            chunk_views(chunks@) == chunks_of(rs.take(i as int), ds.take(i as int)),
        decreases rows.len() - i,
    {
        proof {
            assert(rs.take(i + 1).drop_last() =~= rs.take(i as int));
            assert(ds.take(i + 1).drop_last() =~= ds.take(i as int));
            assert(rs.take(i + 1).last() == row_value(rows@[i as int]));
            assert(ds.take(i + 1).last() == views(dims@[i as int]@));
        }
        let n = chunks.len();
        let same = n > 0 && crate::rowset::json_values_equal(&chunks[n - 1].dimensions, &dims[i]);
        if same {
            let ghost before = chunks@;
            let last = chunks.pop();
            match last {
                Some(mut c) => {
                    let ghost c0 = c;
                    c.rows.push(copy_row(&rows[i]));
                    chunks.push(c);
                    proof {
                        assert(row_views(c.rows@) =~= row_views(c0.rows@).push(row_value(rows@[i as int])));
                        assert(chunk_views(chunks@) =~= chunk_views(before).update(
                            n - 1,
                            (chunk_views(before)[n - 1].0, chunk_views(before)[n - 1].1.push(row_value(rows@[i as int]))),
                        ));
                    }
                },
                None => {},
            }
        } else {
            let ghost before = chunks@;
            let c = Chunk { dimensions: copy_values(&dims[i]), rows: vec![copy_row(&rows[i])] };
            chunks.push(c);
            proof {
                assert(row_views(c.rows@) =~= seq![row_value(rows@[i as int])]);
                assert(chunk_views(chunks@) =~= chunk_views(before).push((views(dims@[i as int]@), seq![row_value(rows@[i as int])])));
            }
        }
        i += 1;
    }
    proof {
        assert(rs.take(i as int) =~= rs);
        assert(ds.take(i as int) =~= ds);
    }
    chunks
}

/// Copies of rows.
pub fn copy_rows(rows: &Vec<Row>) -> (r: Vec<Row>)
    ensures
        row_views(r@) == row_views(rows@),
{
    let mut out: Vec<Row> = Vec::new();
    let mut i: usize = 0;
    while i < rows.len()
        invariant
            i <= rows.len(),
            out.len() == i,
            forall|j: int| 0 <= j < i ==> #[trigger] row_value(out@[j]) == row_value(rows@[j]),
        decreases rows.len() - i,
    {
        out.push(copy_row(&rows[i]));
        i += 1;
    }
    proof {
        assert(row_views(out@) =~= row_views(rows@));
    }
    out
}

/// Whether an array holds one of the values, the values tried in order.
fn any_contained(array: &Vec<JsonValue>, values: &Vec<JsonValue>) -> (b: bool)
    ensures
        b == exists|j: int| 0 <= j < views(values@).len() && views(array@).contains(#[trigger] views(values@)[j]),
{
    let mut j: usize = 0;
    while j < values.len()
        invariant
            j <= values.len(),
            forall|k: int| 0 <= k < j ==> !views(array@).contains(#[trigger] views(values@)[k]),
        decreases values.len() - j,
    {
        let mut k: usize = 0;
        while k < array.len()
            invariant
                j < values.len(),
                k <= array.len(),
                forall|m: int| 0 <= m < k ==> #[trigger] views(array@)[m] != views(values@)[j as int],
            decreases array.len() - k,
        {
            if json_eq(&array[k], &values[j]) {
                proof {
                    assert(views(array@)[k as int] == views(values@)[j as int]);
                    assert(views(array@).contains(views(values@)[j as int]));
                }
                return true;
            }
            k += 1;
        }
        j += 1;
    }
    false
}

/// The rows of an array of objects, when the value is one.
pub fn objects_in(v: &JsonValue) -> (r: Option<Vec<Row>>)
    ensures
        match r {
            Some(rows) => objects_of(v@) == Some(row_views(rows@)),
            None => objects_of(v@) is None,
        },
{
    match v {
        JsonValue::Array(vs) => {
            proof {
                crate::json::lemma_array_view(*vs);
            }
            let ghost js = views(vs@);
            let mut rows: Vec<Row> = Vec::new();
            let mut i: usize = 0;
            while i < vs.len()
                invariant
                    js == views(vs@),
                    v@ == Json::Array(js),
                    i <= vs.len(),
                    rows.len() == i,
                    forall|j: int| 0 <= j < i ==> #[trigger] js[j] is Object && row_value(rows@[j]) == js[j]->Object_0,
                decreases vs.len() - i,
            {
                match &vs[i] {
                    JsonValue::Object(es) => {
                        proof {
                            crate::json::lemma_object_view(*es);
                        }
                        rows.push(row_of_object(es));
                    },
                    _ => {
                        proof {
                            assert(!(js[i as int] is Object));
                        }
                        return None;
                    },
                }
                i += 1;
            }
            proof {
                assert(row_views(rows@) =~= js.map_values(|x: Json| x->Object_0));
            }
            Some(rows)
        },
        _ => None,
    }
}

/// Rows holding each value in a `__value` column.
pub fn value_rows_of(vs: &Vec<JsonValue>) -> (r: Vec<Row>)
    ensures
        row_views(r@) == value_rows(views(vs@)),
{
    let mut rows: Vec<Row> = Vec::new();
    let mut i: usize = 0;
    while i < vs.len()
        invariant
            i <= vs.len(),
            rows.len() == i,
            forall|j: int| 0 <= j < i ==> #[trigger] row_value(rows@[j]) == map!["__value"@ => vs@[j]@],
        decreases vs.len() - i,
    {
        rows.push(single_row("__value", vs[i].clone_value()));
        i += 1;
    }
    proof {
        assert(row_views(rows@) =~= value_rows(views(vs@)));
    }
    rows
}

impl<'a, L, F, A> Evaluator<'a, L, F, A> where
    L: Fn(&JsonNumber, &JsonNumber) -> bool,
    F: Fn(FloatAggregate, &Vec<JsonNumber>) -> JsonValue,
    A: Fn(i64, usize) -> JsonValue,
 {
    /// What the evaluation is made against.
    pub open spec fn ctx(&self) -> Ctx {
        Ctx {
            relationships: self.relationships.map(),
            variables: row_value(*self.variables),
            state: *self.state,
            less: less_by(*self.less),
            floats: float_fn(*self.floats),
            average: average_fn(*self.average),
        }
    }

    /// Whether the closures give the same answers for the same numbers.
    pub open spec fn well_formed(&self) -> bool {
        &&& orderly_less(*self.less)
        &&& deterministic_float(*self.floats)
        &&& deterministic_average(*self.average)
    }

    /// The value of a column of a row, then of a path of fields within it.
    pub fn column_at(&self, row: &Row, name: &String, field_path: &Option<Vec<String>>, arguments: &Dict<Argument>) -> (r: Result<JsonValue, ServerError>)
        ensures
            json_outcome(r) == column_at(row_value(*self.variables), row_value(*row), name@, *field_path, *arguments),
    {
        let v = eval_column(self.variables, row, name, arguments)?;
        match field_path {
            None => Ok(v),
            Some(p) => eval_field_path(p, &v),
        }
    }

    /// The values of a column over rows, in order.
    pub fn column_values(&self, rows: &Vec<Row>, name: &String, field_path: &Option<Vec<String>>, arguments: &Dict<Argument>) -> (r: Result<Vec<JsonValue>, ServerError>)
        ensures
            values_outcome(r) == column_values(row_value(*self.variables), row_views(rows@), name@, *field_path, *arguments),
    {
        let ghost vars = row_value(*self.variables);
        let ghost s = row_views(rows@);
        let mut out: Vec<JsonValue> = Vec::new();
        let mut i: usize = 0;
        proof {
            assert(s.take(0) =~= Seq::<RowView>::empty());
            assert(views(out@) =~= Seq::<Json>::empty());
        }
        while i < rows.len()
            invariant
                vars == row_value(*self.variables),
                s == row_views(rows@),
                i <= rows.len(),
                out.len() == i,
                column_values(vars, s.take(i as int), name@, *field_path, *arguments) == Ok::<Seq<Json>, Failure>(views(out@)),
            decreases rows.len() - i,
        {
            proof {
                assert(s.take(i + 1).drop_last() =~= s.take(i as int));
                assert(s.take(i + 1).last() == row_value(rows@[i as int]));
            }
            match self.column_at(&rows[i], name, field_path, arguments) {
                Err(e) => {
                    proof {
                        lemma_column_values_prefix(vars, s, i + 1, name@, *field_path, *arguments);
                    }
                    return Err(e);
                },
                Ok(v) => {
                    let ghost before = out@;
                    out.push(v);
                    proof {
                        assert(views(out@) =~= views(before).push(out@[i as int]@));
                    }
                },
            }
            i += 1;
        }
        proof {
            assert(s.take(i as int) =~= s);
        }
        Ok(out)
    }

    /// The value of an aggregate over rows.
    pub fn aggregate_value(&self, aggregate: &Aggregate, rows: &Vec<Row>) -> (r: Result<JsonValue, ServerError>)
        requires
            self.well_formed(),
        ensures
            json_outcome(r) == aggregate_value(self.ctx(), *aggregate, row_views(rows@)),
    {
        proof {
            reveal_strlit("sum");
            reveal_strlit("avg");
            reveal_strlit("aggregate sum out of range");
        }
        match aggregate {
            Aggregate::StarCount {  } => Ok(JsonValue::Number(JsonNumber::from_u64(rows.len() as u64))),
            Aggregate::ColumnCount { column, arguments, field_path, distinct } => {
                let values = self.column_values(rows, column, field_path, arguments)?;
                let n = count_present(&values, *distinct);
                Ok(JsonValue::Number(JsonNumber::from_u64(n as u64)))
            },
            Aggregate::SingleColumn { column, arguments, field_path, function } => {
                let values = self.column_values(rows, column, field_path, arguments)?;
                let summing = is_name(function, "sum") || is_name(function, "avg");
                if values.len() > 0 && summing && all_integers(&values) {
                    if !sums_in_range(&values) {
                        return Err(server_error(500, "aggregate sum out of range"));
                    }
                }
                let r = eval_aggregate_function(function, &values, self.floats, self.average);
                r
            },
        }
    }

    /// The values of named aggregates over rows, in order.
    pub fn aggregates_value(&self, aggregates: &Dict<Aggregate>, rows: &Vec<Row>) -> (r: Result<Row, ServerError>)
        requires
            self.well_formed(),
        ensures
            map_outcome(r) == aggregates_value(self.ctx(), aggregates.items(), row_views(rows@)),
    {
        let ghost items = aggregates.items();
        let mut out: Row = empty_row();
        let mut i: usize = 0;
        proof {
            assert(items.take(0) =~= Seq::<(Seq<char>, Aggregate)>::empty());
        }
        while i < aggregates.len()
            invariant
                self.well_formed(),
                items == aggregates.items(),
                i <= items.len(),
                aggregates_value(self.ctx(), items.take(i as int), row_views(rows@)) == Ok::<RowView, Failure>(row_value(out)),
            decreases items.len() - i,
        {
            proof {
                assert(items.take(i + 1).drop_last() =~= items.take(i as int));
                assert(items.take(i + 1).last() == items[i as int]);
            }
            let (name, aggregate) = aggregates.get_index(i);
            match self.aggregate_value(aggregate, rows) {
                Err(e) => {
                    proof {
                        lemma_aggregates_prefix(self.ctx(), items, i + 1, row_views(rows@));
                    }
                    return Err(e);
                },
                Ok(v) => {
                    let ghost before = out;
                    let ghost vv = v;
                    out.insert(name.clone(), v);
                    proof {
                        lemma_row_insert(before, out, name@, vv);
                    }
                },
            }
            i += 1;
        }
        proof {
            assert(items.take(i as int) =~= items);
        }
        Ok(out)
    }

    /// The values of relationship arguments against a row, added in order
    /// to those already given.
    pub fn arguments_value(&self, row: &Row, given: Row, arguments: &Dict<RelationshipArgument>, unique: bool) -> (r: Result<Row, ServerError>)
        ensures
            map_outcome(r) == arguments_value(row_value(*self.variables), row_value(*row), row_value(given), arguments.items(), unique),
    {
        proof {
            reveal_strlit("duplicate argument names");
        }
        let ghost items = arguments.items();
        let ghost vars = row_value(*self.variables);
        let ghost start = row_value(given);
        let mut out: Row = given;
        let mut i: usize = 0;
        proof {
            assert(items.take(0) =~= Seq::<(Seq<char>, RelationshipArgument)>::empty());
        }
        while i < arguments.len()
            invariant
                items == arguments.items(),
                vars == row_value(*self.variables),
                start == row_value(given),
                i <= items.len(),
                arguments_value(vars, row_value(*row), start, items.take(i as int), unique) == Ok::<RowView, Failure>(row_value(out)),
            decreases items.len() - i,
        {
            proof {
                assert(items.take(i + 1).drop_last() =~= items.take(i as int));
                assert(items.take(i + 1).last() == items[i as int]);
            }
            let (name, argument) = arguments.get_index(i);
            match eval_relationship_argument(self.variables, row, argument) {
                Err(e) => {
                    proof {
                        lemma_arguments_prefix(vars, row_value(*row), start, items, i + 1, unique);
                    }
                    return Err(e);
                },
                Ok(v) => {
                    proof {
                        crate::engine::lemma_row_get(out, name@);
                    }
                    if unique && out.contains_key(name) {
                        proof {
                            lemma_arguments_prefix(vars, row_value(*row), start, items, i + 1, unique);
                        }
                        return Err(server_error(400, "duplicate argument names"));
                    }
                    let ghost before = out;
                    let ghost vv = v;
                    out.insert(name.clone(), v);
                    proof {
                        lemma_row_insert(before, out, name@, vv);
                    }
                },
            }
            i += 1;
        }
        proof {
            assert(items.take(i as int) =~= items);
        }
        Ok(out)
    }


    /// The rows of a relationship's target collection for a source row.
    pub fn target_rows(&self, relationship: &Relationship, arguments: &Dict<RelationshipArgument>, src: &Row) -> (r: Result<Vec<Row>, ServerError>)
        ensures
            rows_outcome(r) == target_rows(self.ctx(), *relationship, *arguments, row_value(*src)),
    {
        let given = self.arguments_value(src, empty_row(), &relationship.arguments, false)?;
        let all = self.arguments_value(src, given, arguments, true)?;
        get_collection_by_name(&relationship.target_collection, &all, self.state)
    }

    /// The target rows that a relationship's column mapping relates to a
    /// source row, in order.
    pub fn mapped_rows(&self, relationship: &Relationship, src: &Row, targets: &Vec<Row>) -> (r: Result<Vec<Row>, ServerError>)
        ensures
            rows_outcome(r) == mapped_rows(*relationship, row_value(*src), row_views(targets@)),
    {
        let ghost s = row_views(targets@);
        let mut kept: Vec<Row> = Vec::new();
        let mut i: usize = 0;
        proof {
            assert(s.take(0) =~= Seq::<RowView>::empty());
            assert(row_views(kept@) =~= Seq::<RowView>::empty());
        }
        while i < targets.len()
            invariant
                s == row_views(targets@),
                i <= targets.len(),
                mapped_rows(*relationship, row_value(*src), s.take(i as int)) == Ok::<Seq<RowView>, Failure>(row_views(kept@)),
            decreases targets.len() - i,
        {
            proof {
                assert(s.take(i + 1).drop_last() =~= s.take(i as int));
                assert(s.take(i + 1).last() == row_value(targets@[i as int]));
            }
            match eval_column_mapping(relationship, src, &targets[i]) {
                Err(e) => {
                    proof {
                        lemma_mapped_prefix(*relationship, row_value(*src), s, i + 1);
                    }
                    return Err(e);
                },
                Ok(true) => {
                    let ghost before = kept@;
                    kept.push(copy_row(&targets[i]));
                    proof {
                        assert(row_views(kept@) =~= row_views(before).push(row_value(targets@[i as int])));
                    }
                },
                Ok(false) => {},
            }
            i += 1;
        }
        proof {
            assert(s.take(i as int) =~= s);
        }
        Ok(kept)
    }

    /// The rows related to source rows, source by source.
    pub fn related_rows(
        &self,
        relationship: &Relationship,
        arguments: &Dict<RelationshipArgument>,
        sources: &Vec<Row>,
        field_path: &Option<Vec<String>>,
    ) -> (r: Result<Vec<Row>, ServerError>)
        ensures
            rows_outcome(r) == related_rows(self.ctx(), *relationship, *arguments, row_views(sources@), *field_path),
    {
        let ghost s = row_views(sources@);
        let mut found: Vec<Row> = Vec::new();
        let mut i: usize = 0;
        proof {
            assert(s.take(0) =~= Seq::<RowView>::empty());
            assert(row_views(found@) =~= Seq::<RowView>::empty());
        }
        while i < sources.len()
            invariant
                s == row_views(sources@),
                i <= sources.len(),
                related_rows(self.ctx(), *relationship, *arguments, s.take(i as int), *field_path) == Ok::<Seq<RowView>, Failure>(row_views(found@)),
            decreases sources.len() - i,
        {
            proof {
                assert(s.take(i + 1).drop_last() =~= s.take(i as int));
                assert(s.take(i + 1).last() == row_value(sources@[i as int]));
            }
            let step = self.related_step(relationship, arguments, &sources[i], field_path);
            match step {
                Err(e) => {
                    proof {
                        lemma_related_prefix(self.ctx(), *relationship, *arguments, s, i + 1, *field_path);
                    }
                    return Err(e);
                },
                Ok(mut kept) => {
                    let ghost before = found@;
                    let ghost more = kept@;
                    found.append(&mut kept);
                    proof {
                        assert(row_views(found@) =~= row_views(before) + row_views(more));
                    }
                },
            }
            i += 1;
        }
        proof {
            assert(s.take(i as int) =~= s);
        }
        Ok(found)
    }

    /// The rows related to one source row.
    fn related_step(
        &self,
        relationship: &Relationship,
        arguments: &Dict<RelationshipArgument>,
        source: &Row,
        field_path: &Option<Vec<String>>,
    ) -> (r: Result<Vec<Row>, ServerError>)
        ensures
            rows_outcome(r) == match source_row(*field_path, row_value(*source)) {
                Err(e) => Err(e),
                Ok(src) => match target_rows(self.ctx(), *relationship, *arguments, src) {
                    Err(e) => Err(e),
                    Ok(targets) => mapped_rows(*relationship, src, targets),
                },
            },
    {
        let src = eval_row_field_path(field_path.as_ref(), source)?;
        let targets = self.target_rows(relationship, arguments, &src)?;
        self.mapped_rows(relationship, &src, &targets)
    }


    /// The rows an `exists` expression ranges over.
    pub fn in_collection_rows(&self, in_collection: &ExistsInCollection, item: &Row) -> (r: Result<Vec<Row>, ServerError>)
        ensures
            rows_outcome(r) == in_collection_rows(self.ctx(), *in_collection, row_value(*item)),
    {
        proof {
            reveal_strlit("relationship is undefined");
            reveal_strlit("nested collection must be an array of objects");
            reveal_strlit("nested scalar collection column value must be an array");
        }
        match in_collection {
            ExistsInCollection::Related { field_path, relationship, arguments } => {
                match self.relationships.get(relationship) {
                    None => Err(server_error(400, "relationship is undefined")),
                    Some(rel) => {
                        let source = vec![copy_row(item)];
                        proof {
                            assert(row_views(source@) =~= seq![row_value(*item)]);
                        }
                        self.related_rows(rel, arguments, &source, field_path)
                    },
                }
            },
            ExistsInCollection::Unrelated { collection, arguments } => {
                let m = self.arguments_value(item, empty_row(), arguments, false)?;
                get_collection_by_name(collection, &m, self.state)
            },
            ExistsInCollection::NestedCollection { column_name, arguments, field_path } => {
                let path = Some(crate::text::copy_path(field_path));
                let v = self.column_at(item, column_name, &path, arguments)?;
                match objects_in(&v) {
                    Some(rows) => Ok(rows),
                    None => Err(server_error(400, "nested collection must be an array of objects")),
                }
            },
            ExistsInCollection::NestedScalarCollection { column_name, arguments, field_path } => {
                let path = Some(crate::text::copy_path(field_path));
                let v = self.column_at(item, column_name, &path, arguments)?;
                match v.as_array() {
                    Some(vs) => Ok(value_rows_of(vs)),
                    None => Err(server_error(400, "nested scalar collection column value must be an array")),
                }
            },
        }
    }


    /// Whether a predicate holds of a row, with the scopes of the enclosing
    /// `exists` expressions.
    pub fn expr_holds(&self, e: &Expression, scopes: &Vec<Row>, item: &Row) -> (r: Result<bool, ServerError>)
        requires
            self.well_formed(),
        ensures
            outcome(r) == expr_holds(self.ctx(), *e, row_views(scopes@), row_value(*item)),
        decreases e, 5int,
    {
        proof {
            reveal_strlit("column used in array comparison is not an array");
        }
        let ghost ctx = self.ctx();
        let ghost sc = row_views(scopes@);
        let ghost it = row_value(*item);
        match e {
            Expression::And { expressions } => self.all_hold(expressions, scopes, item),
            Expression::Or { expressions } => self.any_holds(expressions, scopes, item),
            Expression::Not { expression } => {
                let b = self.expr_holds(expression, scopes, item)?;
                Ok(!b)
            },
            Expression::UnaryComparisonOperator { column, operator } => {
                let v = self.target_value(column, item)?;
                Ok(v.is_null())
            },
            Expression::BinaryComparisonOperator { column, operator, value } => {
                let left = self.target_value(column, item)?;
                let rights = self.comparison_values(value, scopes, item)?;
                crate::engine::eval_comparison_operator(operator, &left, &rights, self.less)
            },
            Expression::ArrayComparison { .. } => self.array_comparison(e, scopes, item),
            Expression::Exists { in_collection, predicate } => {
                let rows = self.in_collection_rows(in_collection, item)?;
                match predicate {
                    None => Ok(rows.len() > 0),
                    Some(p) => {
                        let kept = self.filter_rows(p, Some(scopes), &rows)?;
                        Ok(kept.len() > 0)
                    },
                }
            },
        }
    }

    /// Whether all predicates hold, tried in order until one fails or does
    /// not hold.
    pub fn all_hold(&self, expressions: &Vec<Expression>, scopes: &Vec<Row>, item: &Row) -> (r: Result<bool, ServerError>)
        requires
            self.well_formed(),
        ensures
            outcome(r) == all_hold(self.ctx(), *expressions, 0, row_views(scopes@), row_value(*item)),
        decreases expressions, 4int,
    {
        let ghost ctx = self.ctx();
        let ghost sc = row_views(scopes@);
        let ghost it = row_value(*item);
        let mut i: usize = 0;
        while i < expressions.len()
            invariant
                self.well_formed(),
                ctx == self.ctx(),
                sc == row_views(scopes@),
                it == row_value(*item),
                i <= expressions.len(),
                all_hold(ctx, *expressions, 0, sc, it) == all_hold(ctx, *expressions, i as int, sc, it),
            decreases expressions.len() - i,
        {
            proof {
                assert(decreases_to!(*expressions => expressions@));
                assert(decreases_to!(expressions@ => expressions@[i as int]));
            }
            let holds = self.expr_holds(&expressions[i], scopes, item)?;
            if !holds {
                return Ok(false);
            }
            i += 1;
        }
        Ok(true)
    }

    /// Whether one of the predicates holds, tried in order until one fails
    /// or holds.
    pub fn any_holds(&self, expressions: &Vec<Expression>, scopes: &Vec<Row>, item: &Row) -> (r: Result<bool, ServerError>)
        requires
            self.well_formed(),
        ensures
            outcome(r) == any_holds(self.ctx(), *expressions, 0, row_views(scopes@), row_value(*item)),
        decreases expressions, 4int,
    {
        let ghost ctx = self.ctx();
        let ghost sc = row_views(scopes@);
        let ghost it = row_value(*item);
        let mut i: usize = 0;
        while i < expressions.len()
            invariant
                self.well_formed(),
                ctx == self.ctx(),
                sc == row_views(scopes@),
                it == row_value(*item),
                i <= expressions.len(),
                any_holds(ctx, *expressions, 0, sc, it) == any_holds(ctx, *expressions, i as int, sc, it),
            decreases expressions.len() - i,
        {
            proof {
                assert(decreases_to!(*expressions => expressions@));
                assert(decreases_to!(expressions@ => expressions@[i as int]));
            }
            let holds = self.expr_holds(&expressions[i], scopes, item)?;
            if holds {
                return Ok(true);
            }
            i += 1;
        }
        Ok(false)
    }

    /// A comparison against an array column: whether it holds one of the
    /// values, or is empty.
    #[verifier::spinoff_prover]
    fn array_comparison(&self, e: &Expression, scopes: &Vec<Row>, item: &Row) -> (r: Result<bool, ServerError>)
        requires
            self.well_formed(),
            e is ArrayComparison,
        ensures
            outcome(r) == expr_holds(self.ctx(), *e, row_views(scopes@), row_value(*item)),
        decreases e, 4int,
    {
        proof {
            reveal_strlit("column used in array comparison is not an array");
        }
        match e {
            Expression::ArrayComparison { column, comparison } => {
                let left = self.target_value(column, item)?;
                match left.as_array() {
                    None => Err(server_error(400, "column used in array comparison is not an array")),
                    Some(ls) => {
                        match comparison {
                            ArrayComparison::Contains { value } => {
                                let rights = self.comparison_values(value, scopes, item)?;
                                let b = any_contained(ls, &rights);
                                proof {
                                    assert(left@ == Json::Array(views(ls@)));
                                    assert(target_value(self.ctx(), *column, row_value(*item)) == Ok::<Json, Failure>(left@));
                                    assert(comparison_values(self.ctx(), *value, row_views(scopes@), row_value(*item)) == Ok::<Seq<Json>, Failure>(views(rights@)));
                                    let rs = views(rights@);
                                    let lj = views(ls@);
                                    if b {
                                        let j = choose|j: int| 0 <= j < rs.len() && lj.contains(#[trigger] rs[j]);
                                        assert(0 <= j < rs.len() && lj.contains(rs[j]));
                                    } else {
                                        assert forall|j: int| 0 <= j < rs.len() implies !lj.contains(#[trigger] rs[j]) by {}
                                    }
                                }
                                Ok(b)
                            },
                            ArrayComparison::IsEmpty => {
                                proof {
                                    assert(left@ == Json::Array(views(ls@)));
                                    assert(views(ls@).len() == ls.len());
                                    assert(target_value(self.ctx(), *column, row_value(*item)) == Ok::<Json, Failure>(left@));
                                }
                                Ok(ls.len() == 0)
                            },
                        }
                    },
                }
            },
            _ => Ok(false),
        }
    }

    /// The rows that satisfy a predicate, in order, each evaluated with the
    /// scopes of `root` and itself.
    pub fn filter_rows(&self, e: &Expression, root: Option<&Vec<Row>>, rows: &Vec<Row>) -> (r: Result<Vec<Row>, ServerError>)
        requires
            self.well_formed(),
        ensures
            rows_outcome(r) == filter_rows(
                self.ctx(),
                *e,
                match root {
                    Some(sc) => Some(row_views(sc@)),
                    None => None,
                },
                row_views(rows@),
            ),
        decreases e, 6int,
    {
        let ghost ctx = self.ctx();
        let ghost rt = match root {
            Some(sc) => Some(row_views(sc@)),
            None => None::<Seq<RowView>>,
        };
        let ghost s = row_views(rows@);
        let mut kept: Vec<Row> = Vec::new();
        let mut i: usize = 0;
        proof {
            assert(s.take(0) =~= Seq::<RowView>::empty());
            assert(row_views(kept@) =~= Seq::<RowView>::empty());
        }
        while i < rows.len()
            invariant
                self.well_formed(),
                ctx == self.ctx(),
                s == row_views(rows@),
                rt == match root {
                    Some(sc) => Some(row_views(sc@)),
                    None => None::<Seq<RowView>>,
                },
                i <= rows.len(),
                filter_rows(ctx, *e, rt, s.take(i as int)) == Ok::<Seq<RowView>, Failure>(row_views(kept@)),
            decreases rows.len() - i,
        {
            proof {
                assert(s.take(i + 1).drop_last() =~= s.take(i as int));
                assert(s.take(i + 1).last() == row_value(rows@[i as int]));
            }
            let scopes = match root {
                Some(sc) => {
                    let mut v = copy_rows(sc);
                    let ghost before = v@;
                    v.push(copy_row(&rows[i]));
                    proof {
                        assert(row_views(v@) =~= row_views(before).push(row_value(rows@[i as int])));
                    }
                    v
                },
                None => {
                    let v = vec![copy_row(&rows[i])];
                    proof {
                        assert(row_views(v@) =~= seq![row_value(rows@[i as int])]);
                    }
                    v
                },
            };
            match self.expr_holds(e, &scopes, &rows[i]) {
                Err(err) => {
                    proof {
                        lemma_filter_prefix(ctx, *e, rt, s, i + 1);
                    }
                    return Err(err);
                },
                Ok(true) => {
                    let ghost before = kept@;
                    kept.push(copy_row(&rows[i]));
                    proof {
                        assert(row_views(kept@) =~= row_views(before).push(row_value(rows@[i as int])));
                    }
                },
                Ok(false) => {},
            }
            i += 1;
        }
        proof {
            assert(s.take(i as int) =~= s);
        }
        Ok(kept)
    }

    /// The value a comparison is made on.
    pub fn target_value(&self, target: &ComparisonTarget, item: &Row) -> (r: Result<JsonValue, ServerError>)
        requires
            self.well_formed(),
        ensures
            json_outcome(r) == target_value(self.ctx(), *target, row_value(*item)),
        decreases target, 5int,
    {
        match target {
            ComparisonTarget::Column { name, arguments, field_path } => self.column_at(item, name, field_path, arguments),
            ComparisonTarget::Aggregate { path, aggregate } => {
                let start = vec![copy_row(item)];
                proof {
                    assert(row_views(start@) =~= seq![row_value(*item)]);
                }
                let rows = self.path_rows(path, &start)?;
                self.aggregate_value(aggregate, &rows)
            },
        }
    }

    /// The values a comparison is made against.
    pub fn comparison_values(&self, value: &ComparisonValue, scopes: &Vec<Row>, item: &Row) -> (r: Result<Vec<JsonValue>, ServerError>)
        requires
            self.well_formed(),
        ensures
            values_outcome(r) == comparison_values(self.ctx(), *value, row_views(scopes@), row_value(*item)),
        decreases value, 5int,
    {
        proof {
            reveal_strlit("named scope is invalid");
            reveal_strlit("invalid variable name");
        }
        match value {
            ComparisonValue::Column { path, name, arguments, field_path, scope } => {
                let row: &Row = match scope {
                    None => item,
                    Some(s) => {
                        if *s == 0 {
                            item
                        } else if *s < scopes.len() {
                            &scopes[scopes.len() - 1 - *s]
                        } else {
                            return Err(server_error(400, "named scope is invalid"));
                        }
                    },
                };
                proof {
                    assert(scope_row(*scope, row_views(scopes@), row_value(*item)) == Ok::<RowView, Failure>(row_value(*row)));
                }
                let start = vec![copy_row(row)];
                proof {
                    assert(row_views(start@) =~= seq![row_value(*row)]);
                }
                let rows = self.path_rows(path, &start)?;
                self.column_values(&rows, name, field_path, arguments)
            },
            ComparisonValue::Scalar { value } => {
                let out = vec![value.clone_value()];
                proof {
                    assert(views(out@) =~= seq![value@]);
                }
                Ok(out)
            },
            ComparisonValue::Variable { name } => {
                proof {
                    crate::engine::lemma_row_get(*self.variables, name@);
                }
                match self.variables.get(name) {
                    None => Err(server_error(400, "invalid variable name")),
                    Some(v) => {
                        let out = vec![v.clone_value()];
                        proof {
                            assert(views(out@) =~= seq![v@]);
                        }
                        Ok(out)
                    },
                }
            },
        }
    }

    /// The rows reached from rows by a path of relationships.
    pub fn path_rows(&self, path: &Vec<PathElement>, items: &Vec<Row>) -> (r: Result<Vec<Row>, ServerError>)
        requires
            self.well_formed(),
        ensures
            rows_outcome(r) == path_rows(self.ctx(), *path, path.len() as int, row_views(items@)),
        decreases path, 5int,
    {
        proof {
            reveal_strlit("invalid relationship name in path");
        }
        let ghost ctx = self.ctx();
        let mut rows = copy_rows(items);
        let mut i: usize = 0;
        while i < path.len()
            invariant
                self.well_formed(),
                ctx == self.ctx(),
                i <= path.len(),
                path_rows(ctx, *path, i as int, row_views(items@)) == Ok::<Seq<RowView>, Failure>(row_views(rows@)),
            decreases path.len() - i,
        {
            proof {
                assert(decreases_to!(*path => path@));
                assert(decreases_to!(path@ => path@[i as int]));
            }
            let element = &path[i];
            match self.relationships.get(&element.relationship) {
                None => {
                    proof {
                        lemma_path_prefix(ctx, *path, i + 1, path.len() as int, row_views(items@));
                    }
                    return Err(server_error(400, "invalid relationship name in path"));
                },
                Some(rel) => {
                    match self.related_where(element, rel, &rows) {
                        Err(e) => {
                            proof {
                                lemma_path_prefix(ctx, *path, i + 1, path.len() as int, row_views(items@));
                            }
                            return Err(e);
                        },
                        Ok(next) => {
                            rows = next;
                        },
                    }
                },
            }
            i += 1;
        }
        Ok(rows)
    }

    /// The rows related to source rows through a path element.
    pub fn related_where(&self, element: &PathElement, relationship: &Relationship, sources: &Vec<Row>) -> (r: Result<Vec<Row>, ServerError>)
        requires
            self.well_formed(),
        ensures
            rows_outcome(r) == related_where(self.ctx(), *element, *relationship, row_views(sources@)),
        decreases element, 5int,
    {
        let ghost ctx = self.ctx();
        let ghost s = row_views(sources@);
        let mut found: Vec<Row> = Vec::new();
        let mut i: usize = 0;
        proof {
            assert(s.take(0) =~= Seq::<RowView>::empty());
            assert(row_views(found@) =~= Seq::<RowView>::empty());
        }
        while i < sources.len()
            invariant
                self.well_formed(),
                ctx == self.ctx(),
                s == row_views(sources@),
                i <= sources.len(),
                related_where(ctx, *element, *relationship, s.take(i as int)) == Ok::<Seq<RowView>, Failure>(row_views(found@)),
            decreases sources.len() - i,
        {
            proof {
                assert(s.take(i + 1).drop_last() =~= s.take(i as int));
                assert(s.take(i + 1).last() == row_value(sources@[i as int]));
            }
            let step = self.related_where_step(element, relationship, &sources[i]);
            match step {
                Err(e) => {
                    proof {
                        lemma_related_where_prefix(ctx, *element, *relationship, s, i + 1);
                    }
                    return Err(e);
                },
                Ok(mut kept) => {
                    let ghost before = found@;
                    let ghost more = kept@;
                    found.append(&mut kept);
                    proof {
                        assert(row_views(found@) =~= row_views(before) + row_views(more));
                    }
                },
            }
            i += 1;
        }
        proof {
            assert(s.take(i as int) =~= s);
        }
        Ok(found)
    }

    /// The rows related to one source row through a path element.
    fn related_where_step(&self, element: &PathElement, relationship: &Relationship, source: &Row) -> (r: Result<Vec<Row>, ServerError>)
        requires
            self.well_formed(),
        ensures
            rows_outcome(r) == match source_row(element.field_path, row_value(*source)) {
                Err(e) => Err(e),
                Ok(src) => match target_rows(self.ctx(), *relationship, element.arguments, src) {
                    Err(e) => Err(e),
                    Ok(targets) => targets_where(self.ctx(), *element, *relationship, src, targets),
                },
            },
        decreases element, 4int,
    {
        let src = eval_row_field_path(element.field_path.as_ref(), source)?;
        let targets = self.target_rows(relationship, &element.arguments, &src)?;
        self.targets_where(element, relationship, &src, &targets)
    }

    /// The target rows related to a source row that satisfy the path
    /// element's predicate, in order.
    pub fn targets_where(&self, element: &PathElement, relationship: &Relationship, src: &Row, targets: &Vec<Row>) -> (r: Result<Vec<Row>, ServerError>)
        requires
            self.well_formed(),
        ensures
            rows_outcome(r) == targets_where(self.ctx(), *element, *relationship, row_value(*src), row_views(targets@)),
        decreases element, 3int,
    {
        let ghost ctx = self.ctx();
        let ghost s = row_views(targets@);
        let no_scopes: Vec<Row> = Vec::new();
        proof {
            assert(row_views(no_scopes@) =~= Seq::<RowView>::empty());
        }
        let mut kept: Vec<Row> = Vec::new();
        let mut i: usize = 0;
        proof {
            assert(s.take(0) =~= Seq::<RowView>::empty());
            assert(row_views(kept@) =~= Seq::<RowView>::empty());
        }
        while i < targets.len()
            invariant
                self.well_formed(),
                ctx == self.ctx(),
                s == row_views(targets@),
                row_views(no_scopes@) == Seq::<RowView>::empty(),
                i <= targets.len(),
                targets_where(ctx, *element, *relationship, row_value(*src), s.take(i as int)) == Ok::<Seq<RowView>, Failure>(row_views(kept@)),
            decreases targets.len() - i,
        {
            proof {
                assert(s.take(i + 1).drop_last() =~= s.take(i as int));
                assert(s.take(i + 1).last() == row_value(targets@[i as int]));
            }
            let related = match eval_column_mapping(relationship, src, &targets[i]) {
                Err(e) => {
                    proof {
                        lemma_targets_where_prefix(ctx, *element, *relationship, row_value(*src), s, i + 1);
                    }
                    return Err(e);
                },
                Ok(b) => b,
            };
            if related {
                let keep = match &element.predicate {
                    None => true,
                    Some(p) => {
                        proof {
                            assert(decreases_to!(*element => element.predicate));
                        }
                        match self.expr_holds(p, &no_scopes, &targets[i]) {
                            Err(e) => {
                                proof {
                                    lemma_targets_where_prefix(ctx, *element, *relationship, row_value(*src), s, i + 1);
                                }
                                return Err(e);
                            },
                            Ok(b) => b,
                        }
                    },
                };
                if keep {
                    let ghost before = kept@;
                    kept.push(copy_row(&targets[i]));
                    proof {
                        assert(row_views(kept@) =~= row_views(before).push(row_value(targets@[i as int])));
                    }
                }
            }
            i += 1;
        }
        proof {
            assert(s.take(i as int) =~= s);
        }
        Ok(kept)
    }


    /// The value of a column reached from a row through a path of
    /// relationships, which may give at most one row; null when it gives
    /// none.
    pub fn column_at_path(
        &self,
        path: &Vec<PathElement>,
        item: &Row,
        name: &String,
        arguments: &Dict<Argument>,
        field_path: &Option<Vec<String>>,
    ) -> (r: Result<JsonValue, ServerError>)
        requires
            self.well_formed(),
        ensures
            json_outcome(r) == column_at_path(self.ctx(), *path, row_value(*item), name@, *arguments, *field_path),
    {
        proof {
            reveal_strlit("path elements used in sorting and grouping cannot yield multiple rows");
        }
        let start = vec![copy_row(item)];
        proof {
            assert(row_views(start@) =~= seq![row_value(*item)]);
        }
        let rows = self.path_rows(path, &start)?;
        if rows.len() > 1 {
            return Err(server_error(400, "path elements used in sorting and grouping cannot yield multiple rows"));
        }
        if rows.len() == 1 {
            self.column_at(&rows[0], name, field_path, arguments)
        } else {
            Ok(JsonValue::Null)
        }
    }

    /// The value a row is ordered by for an element of an ordering.
    pub fn element_value(&self, element: &OrderByElement, item: &Row) -> (r: Result<JsonValue, ServerError>)
        requires
            self.well_formed(),
        ensures
            json_outcome(r) == element_value(self.ctx(), *element, row_value(*item)),
    {
        match &element.target {
            OrderByTarget::Column { path, name, arguments, field_path } => self.column_at_path(path, item, name, arguments, field_path),
            OrderByTarget::Aggregate { path, aggregate } => {
                let start = vec![copy_row(item)];
                proof {
                    assert(row_views(start@) =~= seq![row_value(*item)]);
                }
                let rows = self.path_rows(path, &start)?;
                self.aggregate_value(aggregate, &rows)
            },
        }
    }

    /// The order of two rows by an ordering: the first element that does
    /// not find them equal decides, every element being evaluated.
    pub fn order_rows(&self, ob: &OrderBy, t1: &Row, t2: &Row) -> (r: Result<Order, ServerError>)
        requires
            self.well_formed(),
        ensures
            outcome(r) == compare_from(self.ctx(), *ob, 0, Order::Equal, row_value(*t1), row_value(*t2)),
    {
        let ghost ctx = self.ctx();
        let mut acc = Order::Equal;
        let mut i: usize = 0;
        while i < ob.elements.len()
            invariant
                self.well_formed(),
                ctx == self.ctx(),
                i <= ob.elements.len(),
                compare_from(ctx, *ob, 0, Order::Equal, row_value(*t1), row_value(*t2)) == compare_from(ctx, *ob, i as int, acc, row_value(*t1), row_value(*t2)),
            decreases ob.elements.len() - i,
        {
            let element = &ob.elements[i];
            let v1 = self.element_value(element, t1)?;
            let v2 = self.element_value(element, t2)?;
            let x = match element.order_direction {
                OrderDirection::Asc => compare(&v1, &v2, self.less)?,
                OrderDirection::Desc => compare(&v2, &v1, self.less)?,
            };
            acc = match acc {
                Order::Equal => x,
                other => other,
            };
            i += 1;
        }
        Ok(acc)
    }

    /// Where a row is inserted among sorted rows: before the first that
    /// compares greater than it.
    pub fn insertion_point(&self, ob: &OrderBy, sorted: &Vec<Row>, item: &Row) -> (r: Result<usize, ServerError>)
        requires
            self.well_formed(),
        ensures
            match r {
                Ok(p) => p <= sorted.len() && insertion_point(self.ctx(), *ob, row_views(sorted@), row_value(*item)) == Ok::<int, Failure>(p as int),
                Err(e) => insertion_point(self.ctx(), *ob, row_views(sorted@), row_value(*item)) == Err::<int, Failure>((e.status, e.message@)),
            },
    {
        let ghost ctx = self.ctx();
        let ghost s = row_views(sorted@);
        let mut j: usize = 0;
        proof {
            assert(s.skip(0) =~= s);
        }
        while j < sorted.len()
            invariant
                self.well_formed(),
                ctx == self.ctx(),
                s == row_views(sorted@),
                j <= sorted.len(),
                insertion_point(ctx, *ob, s, row_value(*item)) == match insertion_point(ctx, *ob, s.skip(j as int), row_value(*item)) {
                    Ok(p) => Ok(p + j),
                    Err(e) => Err::<int, Failure>(e),
                },
            decreases sorted.len() - j,
        {
            proof {
                assert(s.skip(j as int)[0] == row_value(sorted@[j as int]));
                assert(s.skip(j as int).drop_first() =~= s.skip(j + 1));
            }
            let o = self.order_rows(ob, &sorted[j], item)?;
            match o {
                Order::Greater => {
                    return Ok(j);
                },
                _ => {},
            }
            j += 1;
        }
        proof {
            assert(s.skip(j as int) =~= Seq::<RowView>::empty());
        }
        Ok(j)
    }

    /// Rows sorted by insertion.
    pub fn sorted_rows(&self, ob: &OrderBy, rows: &Vec<Row>) -> (r: Result<Vec<Row>, ServerError>)
        requires
            self.well_formed(),
        ensures
            rows_outcome(r) == sorted_rows(self.ctx(), *ob, row_views(rows@)),
    {
        let ghost ctx = self.ctx();
        let ghost s = row_views(rows@);
        let mut sorted: Vec<Row> = Vec::new();
        let mut i: usize = 0;
        proof {
            assert(s.take(0) =~= Seq::<RowView>::empty());
            assert(row_views(sorted@) =~= Seq::<RowView>::empty());
        }
        while i < rows.len()
            invariant
                self.well_formed(),
                ctx == self.ctx(),
                s == row_views(rows@),
                i <= rows.len(),
                sorted_rows(ctx, *ob, s.take(i as int)) == Ok::<Seq<RowView>, Failure>(row_views(sorted@)),
            decreases rows.len() - i,
        {
            proof {
                assert(s.take(i + 1).drop_last() =~= s.take(i as int));
                assert(s.take(i + 1).last() == row_value(rows@[i as int]));
            }
            match self.insertion_point(ob, &sorted, &rows[i]) {
                Err(e) => {
                    proof {
                        lemma_sorted_prefix(ctx, *ob, s, i + 1);
                    }
                    return Err(e);
                },
                Ok(p) => {
                    let ghost before = sorted@;
                    sorted.insert(p, copy_row(&rows[i]));
                    proof {
                        assert(row_views(sorted@) =~= row_views(before).insert(p as int, row_value(rows@[i as int])));
                    }
                },
            }
            i += 1;
        }
        proof {
            assert(s.take(i as int) =~= s);
        }
        Ok(sorted)
    }


    /// The value of a dimension for a row.
    pub fn dim_value(&self, d: &Dimension, row: &Row) -> (r: Result<JsonValue, ServerError>)
        requires
            self.well_formed(),
        ensures
            json_outcome(r) == dim_value(self.ctx(), *d, row_value(*row)),
    {
        match d {
            Dimension::Column { path, column_name, arguments, field_path, extraction } => {
                let v = self.column_at_path(path, row, column_name, arguments, field_path)?;
                crate::engine::eval_extraction(extraction, &v)
            },
        }
    }

    /// The values of the dimensions of a grouping for a row.
    pub fn row_dims(&self, g: &Grouping, row: &Row) -> (r: Result<Vec<JsonValue>, ServerError>)
        requires
            self.well_formed(),
        ensures
            values_outcome(r) == row_dims(self.ctx(), *g, g.dimensions.len() as int, row_value(*row)),
    {
        let ghost ctx = self.ctx();
        let mut out: Vec<JsonValue> = Vec::new();
        let mut i: usize = 0;
        proof {
            assert(views(out@) =~= Seq::<Json>::empty());
        }
        while i < g.dimensions.len()
            invariant
                self.well_formed(),
                ctx == self.ctx(),
                i <= g.dimensions.len(),
                out.len() == i,
                row_dims(ctx, *g, i as int, row_value(*row)) == Ok::<Seq<Json>, Failure>(views(out@)),
            decreases g.dimensions.len() - i,
        {
            match self.dim_value(&g.dimensions[i], row) {
                Err(e) => {
                    proof {
                        lemma_row_dims_prefix(ctx, *g, i + 1, g.dimensions.len() as int, row_value(*row));
                    }
                    return Err(e);
                },
                Ok(v) => {
                    let ghost before = out@;
                    out.push(v);
                    proof {
                        assert(views(out@) =~= views(before).push(out@[i as int]@));
                    }
                },
            }
            i += 1;
        }
        Ok(out)
    }

    /// The dimension values of each row, or whether evaluating them failed.
    pub fn dims_list(&self, g: &Grouping, rows: &Vec<Row>) -> (r: Option<Vec<Vec<JsonValue>>>)
        requires
            self.well_formed(),
        ensures
            match r {
                Some(ds) => ds.len() == rows.len() && dims_list(self.ctx(), *g, row_views(rows@)) == Ok::<Seq<Seq<Json>>, Failure>(dims_views(ds@)),
                None => dims_list(self.ctx(), *g, row_views(rows@)) is Err,
            },
    {
        let ghost ctx = self.ctx();
        let ghost s = row_views(rows@);
        let mut out: Vec<Vec<JsonValue>> = Vec::new();
        let mut i: usize = 0;
        proof {
            assert(s.take(0) =~= Seq::<RowView>::empty());
            assert(dims_views(out@) =~= Seq::<Seq<Json>>::empty());
        }
        while i < rows.len()
            invariant
                self.well_formed(),
                ctx == self.ctx(),
                s == row_views(rows@),
                i <= rows.len(),
                out.len() == i,
                dims_list(ctx, *g, s.take(i as int)) == Ok::<Seq<Seq<Json>>, Failure>(dims_views(out@)),
            decreases rows.len() - i,
        {
            proof {
                assert(s.take(i + 1).drop_last() =~= s.take(i as int));
                assert(s.take(i + 1).last() == row_value(rows@[i as int]));
            }
            match self.row_dims(g, &rows[i]) {
                Err(_) => {
                    proof {
                        lemma_dims_prefix(ctx, *g, s, i + 1);
                    }
                    return None;
                },
                Ok(d) => {
                    let ghost before = out@;
                    let ghost dv = views(d@);
                    out.push(d);
                    proof {
                        assert(dims_views(out@) =~= dims_views(before).push(dv));
                    }
                },
            }
            i += 1;
        }
        proof {
            assert(s.take(i as int) =~= s);
        }
        Some(out)
    }

    /// The value a group is ordered by for an element of its ordering.
    pub fn group_element_value(&self, element: &GroupOrderByElement, chunk: &Chunk) -> (r: Result<JsonValue, ServerError>)
        requires
            self.well_formed(),
        ensures
            json_outcome(r) == group_element_value(self.ctx(), *element, chunk_view(*chunk)),
    {
        proof {
            reveal_strlit("dimension index out of range");
        }
        match &element.target {
            GroupOrderByTarget::Dimension { index } => {
                if *index < chunk.dimensions.len() {
                    Ok(chunk.dimensions[*index].clone_value())
                } else {
                    Err(server_error(400, "dimension index out of range"))
                }
            },
            GroupOrderByTarget::Aggregate { aggregate } => self.aggregate_value(aggregate, &chunk.rows),
        }
    }

    /// The order of two groups by the elements of an ordering.
    pub fn order_groups(&self, elements: &Vec<GroupOrderByElement>, c1: &Chunk, c2: &Chunk) -> (r: Result<Order, ServerError>)
        requires
            self.well_formed(),
        ensures
            outcome(r) == group_compare_from(self.ctx(), elements@, 0, Order::Equal, chunk_view(*c1), chunk_view(*c2)),
    {
        let ghost ctx = self.ctx();
        let mut acc = Order::Equal;
        let mut i: usize = 0;
        while i < elements.len()
            invariant
                self.well_formed(),
                ctx == self.ctx(),
                i <= elements.len(),
                group_compare_from(ctx, elements@, 0, Order::Equal, chunk_view(*c1), chunk_view(*c2)) == group_compare_from(ctx, elements@, i as int, acc, chunk_view(*c1), chunk_view(*c2)),
            decreases elements.len() - i,
        {
            let element = &elements[i];
            let v1 = self.group_element_value(element, c1)?;
            let v2 = self.group_element_value(element, c2)?;
            let x = match element.order_direction {
                OrderDirection::Asc => compare(&v1, &v2, self.less)?,
                OrderDirection::Desc => compare(&v2, &v1, self.less)?,
            };
            acc = match acc {
                Order::Equal => x,
                other => other,
            };
            i += 1;
        }
        Ok(acc)
    }

    /// Where a group is inserted among sorted groups.
    pub fn group_insertion_point(&self, elements: &Vec<GroupOrderByElement>, sorted: &Vec<Chunk>, item: &Chunk) -> (r: Result<usize, ServerError>)
        requires
            self.well_formed(),
        ensures
            match r {
                Ok(p) => p <= sorted.len() && group_insertion_point(self.ctx(), elements@, chunk_views(sorted@), chunk_view(*item)) == Ok::<int, Failure>(p as int),
                Err(e) => group_insertion_point(self.ctx(), elements@, chunk_views(sorted@), chunk_view(*item)) == Err::<int, Failure>((e.status, e.message@)),
            },
    {
        let ghost ctx = self.ctx();
        let ghost s = chunk_views(sorted@);
        let mut j: usize = 0;
        proof {
            assert(s.skip(0) =~= s);
        }
        while j < sorted.len()
            invariant
                self.well_formed(),
                ctx == self.ctx(),
                s == chunk_views(sorted@),
                j <= sorted.len(),
                group_insertion_point(ctx, elements@, s, chunk_view(*item)) == match group_insertion_point(ctx, elements@, s.skip(j as int), chunk_view(*item)) {
                    Ok(p) => Ok(p + j),
                    Err(e) => Err::<int, Failure>(e),
                },
            decreases sorted.len() - j,
        {
            proof {
                assert(s.skip(j as int)[0] == chunk_view(sorted@[j as int]));
                assert(s.skip(j as int).drop_first() =~= s.skip(j + 1));
            }
            let o = self.order_groups(elements, &sorted[j], item)?;
            match o {
                Order::Greater => {
                    return Ok(j);
                },
                _ => {},
            }
            j += 1;
        }
        proof {
            assert(s.skip(j as int) =~= Seq::<(Seq<Json>, Seq<RowView>)>::empty());
        }
        Ok(j)
    }

    /// Groups sorted by insertion.
    pub fn groups_sorted(&self, elements: &Vec<GroupOrderByElement>, chunks: &Vec<Chunk>) -> (r: Result<Vec<Chunk>, ServerError>)
        requires
            self.well_formed(),
        ensures
            match r {
                Ok(v) => groups_sorted(self.ctx(), elements@, chunk_views(chunks@)) == Ok::<Seq<(Seq<Json>, Seq<RowView>)>, Failure>(chunk_views(v@)),
                Err(e) => groups_sorted(self.ctx(), elements@, chunk_views(chunks@)) == Err::<Seq<(Seq<Json>, Seq<RowView>)>, Failure>((e.status, e.message@)),
            },
    {
        let ghost ctx = self.ctx();
        let ghost s = chunk_views(chunks@);
        let mut sorted: Vec<Chunk> = Vec::new();
        let mut i: usize = 0;
        proof {
            assert(s.take(0) =~= Seq::<(Seq<Json>, Seq<RowView>)>::empty());
            assert(chunk_views(sorted@) =~= Seq::<(Seq<Json>, Seq<RowView>)>::empty());
        }
        while i < chunks.len()
            invariant
                self.well_formed(),
                ctx == self.ctx(),
                s == chunk_views(chunks@),
                i <= chunks.len(),
                groups_sorted(ctx, elements@, s.take(i as int)) == Ok::<Seq<(Seq<Json>, Seq<RowView>)>, Failure>(chunk_views(sorted@)),
            decreases chunks.len() - i,
        {
            proof {
                assert(s.take(i + 1).drop_last() =~= s.take(i as int));
                assert(s.take(i + 1).last() == chunk_view(chunks@[i as int]));
            }
            match self.group_insertion_point(elements, &sorted, &chunks[i]) {
                Err(e) => {
                    proof {
                        lemma_groups_sorted_prefix(ctx, elements@, s, i + 1);
                    }
                    return Err(e);
                },
                Ok(p) => {
                    let ghost before = sorted@;
                    let item = copy_chunk(&chunks[i]);
                    sorted.insert(p, item);
                    proof {
                        assert(chunk_views(sorted@) =~= chunk_views(before).insert(p as int, chunk_view(chunks@[i as int])));
                    }
                },
            }
            i += 1;
        }
        proof {
            assert(s.take(i as int) =~= s);
        }
        Ok(sorted)
    }


    /// Whether a predicate on groups holds of a group's rows.
    pub fn group_holds(&self, expression: &GroupExpression, rows: &Vec<Row>) -> (r: Result<bool, ServerError>)
        requires
            self.well_formed(),
        ensures
            outcome(r) == group_holds(self.ctx(), *expression, row_views(rows@)),
        decreases expression, 1int,
    {
        match expression {
            GroupExpression::And { expressions } => self.group_all_hold(expressions, rows),
            GroupExpression::Or { expressions } => self.group_any_holds(expressions, rows),
            GroupExpression::Not { expression } => {
                let b = self.group_holds(expression, rows)?;
                Ok(!b)
            },
            GroupExpression::UnaryComparisonOperator { target, operator } => {
                match target {
                    GroupComparisonTarget::Aggregate { aggregate } => {
                        let v = self.aggregate_value(aggregate, rows)?;
                        Ok(v.is_null())
                    },
                }
            },
            GroupExpression::BinaryComparisonOperator { target, operator, value } => {
                match target {
                    GroupComparisonTarget::Aggregate { aggregate } => {
                        let left = self.aggregate_value(aggregate, rows)?;
                        let rights = self.group_comparison_values(value)?;
                        crate::engine::eval_comparison_operator(operator, &left, &rights, self.less)
                    },
                }
            },
        }
    }

    /// Whether all the predicates on groups hold, tried in order.
    pub fn group_all_hold(&self, expressions: &Vec<GroupExpression>, rows: &Vec<Row>) -> (r: Result<bool, ServerError>)
        requires
            self.well_formed(),
        ensures
            outcome(r) == group_all_hold(self.ctx(), *expressions, 0, row_views(rows@)),
        decreases expressions, 0int,
    {
        let ghost ctx = self.ctx();
        let mut i: usize = 0;
        while i < expressions.len()
            invariant
                self.well_formed(),
                ctx == self.ctx(),
                i <= expressions.len(),
                group_all_hold(ctx, *expressions, 0, row_views(rows@)) == group_all_hold(ctx, *expressions, i as int, row_views(rows@)),
            decreases expressions.len() - i,
        {
            proof {
                assert(decreases_to!(*expressions => expressions@));
                assert(decreases_to!(expressions@ => expressions@[i as int]));
            }
            let holds = self.group_holds(&expressions[i], rows)?;
            if !holds {
                return Ok(false);
            }
            i += 1;
        }
        Ok(true)
    }

    /// Whether one of the predicates on groups holds, tried in order.
    pub fn group_any_holds(&self, expressions: &Vec<GroupExpression>, rows: &Vec<Row>) -> (r: Result<bool, ServerError>)
        requires
            self.well_formed(),
        ensures
            outcome(r) == group_any_holds(self.ctx(), *expressions, 0, row_views(rows@)),
        decreases expressions, 0int,
    {
        let ghost ctx = self.ctx();
        let mut i: usize = 0;
        while i < expressions.len()
            invariant
                self.well_formed(),
                ctx == self.ctx(),
                i <= expressions.len(),
                group_any_holds(ctx, *expressions, 0, row_views(rows@)) == group_any_holds(ctx, *expressions, i as int, row_views(rows@)),
            decreases expressions.len() - i,
        {
            proof {
                assert(decreases_to!(*expressions => expressions@));
                assert(decreases_to!(expressions@ => expressions@[i as int]));
            }
            let holds = self.group_holds(&expressions[i], rows)?;
            if holds {
                return Ok(true);
            }
            i += 1;
        }
        Ok(false)
    }

    /// The values a group comparison is made against.
    pub fn group_comparison_values(&self, value: &GroupComparisonValue) -> (r: Result<Vec<JsonValue>, ServerError>)
        ensures
            values_outcome(r) == group_comparison_values(self.ctx(), *value),
    {
        proof {
            reveal_strlit("invalid variable name");
        }
        match value {
            GroupComparisonValue::Scalar { value } => {
                let out = vec![value.clone_value()];
                proof {
                    assert(views(out@) =~= seq![value@]);
                }
                Ok(out)
            },
            GroupComparisonValue::Variable { name } => {
                proof {
                    crate::engine::lemma_row_get(*self.variables, name@);
                }
                match self.variables.get(name) {
                    None => Err(server_error(400, "invalid variable name")),
                    Some(v) => {
                        let out = vec![v.clone_value()];
                        proof {
                            assert(views(out@) =~= seq![v@]);
                        }
                        Ok(out)
                    },
                }
            },
        }
    }

    /// The groups kept, in order, with their aggregates.
    pub fn groups_kept(&self, g: &Grouping, chunks: &Vec<Chunk>) -> (r: Result<Vec<Group>, ServerError>)
        requires
            self.well_formed(),
        ensures
            groups_outcome(r) == groups_kept(self.ctx(), *g, chunk_views(chunks@)),
    {
        let ghost ctx = self.ctx();
        let ghost s = chunk_views(chunks@);
        let mut kept: Vec<Group> = Vec::new();
        let mut i: usize = 0;
        proof {
            assert(s.take(0) =~= Seq::<(Seq<Json>, Seq<RowView>)>::empty());
            assert(group_views(kept@) =~= Seq::<(Seq<Json>, Map<Seq<char>, Json>)>::empty());
        }
        while i < chunks.len()
            invariant
                self.well_formed(),
                ctx == self.ctx(),
                s == chunk_views(chunks@),
                i <= chunks.len(),
                groups_kept(ctx, *g, s.take(i as int)) == Ok::<Seq<(Seq<Json>, Map<Seq<char>, Json>)>, Failure>(group_views(kept@)),
            decreases chunks.len() - i,
        {
            proof {
                assert(s.take(i + 1).drop_last() =~= s.take(i as int));
                assert(s.take(i + 1).last() == chunk_view(chunks@[i as int]));
            }
            let chunk = &chunks[i];
            let aggregates = match self.aggregates_value(&g.aggregates, &chunk.rows) {
                Err(e) => {
                    proof {
                        lemma_groups_kept_prefix(ctx, *g, s, i + 1);
                    }
                    return Err(e);
                },
                Ok(a) => a,
            };
            let keep = match &g.predicate {
                None => true,
                Some(p) => match self.group_holds(p, &chunk.rows) {
                    Err(e) => {
                        proof {
                            lemma_groups_kept_prefix(ctx, *g, s, i + 1);
                        }
                        return Err(e);
                    },
                    Ok(b) => b,
                },
            };
            if keep {
                let ghost before = kept@;
                let group = Group { dimensions: copy_values(&chunk.dimensions), aggregates };
                let ghost gv = (views(group.dimensions@), row_value(group.aggregates));
                kept.push(group);
                proof {
                    assert(group_views(kept@) =~= group_views(before).push(gv));
                }
            }
            i += 1;
        }
        proof {
            assert(s.take(i as int) =~= s);
        }
        Ok(kept)
    }

    /// The groups of rows: runs of rows with the same dimension values,
    /// sorted, with their aggregates, filtered, then paginated.
    pub fn groups_value(&self, g: &Grouping, rows: &Vec<Row>) -> (r: Result<Vec<Group>, ServerError>)
        requires
            self.well_formed(),
        ensures
            groups_outcome(r) == groups_value(self.ctx(), *g, row_views(rows@)),
    {
        proof {
            reveal_strlit("cannot eval dimensions");
        }
        let dims = match self.dims_list(g, rows) {
            None => {
                return Err(server_error(500, "cannot eval dimensions"));
            },
            Some(d) => d,
        };
        let chunks = chunk_rows(rows, &dims);
        let sorted = match &g.order_by {
            None => chunks,
            Some(ob) => self.groups_sorted(&ob.elements, &chunks)?,
        };
        let kept = self.groups_kept(g, &sorted)?;
        let ghost kv = group_views(kept@);
        let page = crate::engine::paginate(kept, g.limit, g.offset);
        proof {
            assert(group_views(page@) =~= crate::engine::paginated(kv, g.limit, g.offset));
        }
        Ok(page)
    }


    /// The row set a query gives over a collection: the collection sorted,
    /// filtered (each row evaluated with the scopes of `root` and itself),
    /// paginated, then its aggregates, groups and rows.
    pub fn query_result(&self, q: &Query, root: Option<&Vec<Row>>, collection: &Vec<Row>) -> (r: Result<RowSet, ServerError>)
        requires
            self.well_formed(),
        ensures
            rowset_outcome(r) == query_result(
                self.ctx(),
                *q,
                match root {
                    Some(sc) => Some(row_views(sc@)),
                    None => None,
                },
                row_views(collection@),
            ),
            r matches Ok(rs) ==> rows_follow_fields(*q, rs),
        decreases q, 5int,
    {
        let sorted = match &q.order_by {
            None => copy_rows(collection),
            Some(ob) => self.sorted_rows(ob, collection)?,
        };
        let filtered = match &q.predicate {
            None => sorted,
            Some(p) => self.filter_rows(p, root, &sorted)?,
        };
        let ghost fv = row_views(filtered@);
        let page = crate::engine::paginate(filtered, q.limit, q.offset);
        proof {
            assert(row_views(page@) =~= crate::engine::paginated(fv, q.limit, q.offset));
        }
        let aggregates = match &q.aggregates {
            None => None,
            Some(a) => Some(self.aggregates_value(a, &page)?),
        };
        let groups = match &q.groups {
            None => None,
            Some(g) => Some(self.groups_value(g, &page)?),
        };
        let rows = match &q.fields {
            None => None,
            Some(f) => {
                proof {
                    assert(decreases_to!(*q => q.fields));
                }
                Some(self.row_list(f, &page)?)
            },
        };
        let rs = RowSet { aggregates, rows, groups };
        proof {
            if rs.groups is Some {
                let gs = rs.groups->Some_0;
                assert(gs@.map_values(|g: Group| crate::rowset::group_value(g)) =~= group_views(gs@));
            }
            if rs.rows is Some {
                let rws = rs.rows->Some_0;
                assert(rws@.map_values(|d: Dict<RowFieldValue>| entries_value(row_entries(d))) =~= field_rows_view(rws@));
            }
        }
        Ok(rs)
    }

    /// The fields of each row, in order.
    pub fn row_list(&self, fields: &Dict<Field>, rows: &Vec<Row>) -> (r: Result<Vec<Dict<RowFieldValue>>, ServerError>)
        requires
            self.well_formed(),
        ensures
            match r {
                Ok(out) => row_list(self.ctx(), *fields, row_views(rows@)) == Ok::<Seq<Map<Seq<char>, Json>>, Failure>(field_rows_view(out@)),
                Err(e) => row_list(self.ctx(), *fields, row_views(rows@)) == Err::<Seq<Map<Seq<char>, Json>>, Failure>((e.status, e.message@)),
            },
            r matches Ok(out) ==> (crate::json::entry_keys(fields.items()).no_duplicates() ==> forall|j: int|
                0 <= j < out.len() ==> crate::json::entry_keys(row_entries(#[trigger] out@[j])) == crate::json::entry_keys(
                    fields.items(),
                )),
        decreases fields, 4int,
    {
        let ghost ctx = self.ctx();
        let ghost s = row_views(rows@);
        let mut out: Vec<Dict<RowFieldValue>> = Vec::new();
        let mut i: usize = 0;
        proof {
            assert(s.take(0) =~= Seq::<RowView>::empty());
            assert(field_rows_view(out@) =~= Seq::<Map<Seq<char>, Json>>::empty());
        }
        while i < rows.len()
            invariant
                self.well_formed(),
                ctx == self.ctx(),
                s == row_views(rows@),
                i <= rows.len(),
                row_list(ctx, *fields, s.take(i as int)) == Ok::<Seq<Map<Seq<char>, Json>>, Failure>(field_rows_view(out@)),
                out.len() == i,
                crate::json::entry_keys(fields.items()).no_duplicates() ==> forall|j: int|
                    0 <= j < out.len() ==> crate::json::entry_keys(row_entries(#[trigger] out@[j])) == crate::json::entry_keys(
                        fields.items(),
                    ),
            decreases rows.len() - i,
        {
            proof {
                assert(s.take(i + 1).drop_last() =~= s.take(i as int));
                assert(s.take(i + 1).last() == row_value(rows@[i as int]));
            }
            match self.row_fields(fields, &rows[i]) {
                Err(e) => {
                    proof {
                        lemma_row_list_prefix(ctx, *fields, s, i + 1);
                    }
                    return Err(e);
                },
                Ok(values) => {
                    let ghost before = out@;
                    let d = field_row(&values);
                    out.push(d);
                    proof {
                        assert(field_rows_view(out@) =~= field_rows_view(before).push(row_value(values)));
                    }
                },
            }
            i += 1;
        }
        proof {
            assert(s.take(i as int) =~= s);
        }
        Ok(out)
    }

    /// The values of fields for a row; the row's columns come in the order
    /// of the fields, when no two fields have the same name.
    pub fn row_fields(&self, fields: &Dict<Field>, item: &Row) -> (r: Result<Row, ServerError>)
        requires
            self.well_formed(),
        ensures
            map_outcome(r) == row_fields(self.ctx(), *fields, fields.items().len() as int, row_value(*item)),
            r matches Ok(row) ==> (crate::json::entry_keys(fields.items()).no_duplicates() ==> crate::json::entry_keys(
                row.items(),
            ) == crate::json::entry_keys(fields.items())),
        decreases fields, 3int,
    {
        let ghost ctx = self.ctx();
        let ghost keys = crate::json::entry_keys(fields.items());
        let mut out: Row = empty_row();
        let mut i: usize = 0;
        proof {
            assert(crate::json::entry_keys(out.items()) =~= keys.take(0));
        }
        while i < fields.len()
            invariant
                self.well_formed(),
                ctx == self.ctx(),
                i <= fields.items().len(),
                row_fields(ctx, *fields, i as int, row_value(*item)) == Ok::<RowView, Failure>(row_value(out)),
                keys == crate::json::entry_keys(fields.items()),
                keys.no_duplicates() ==> crate::json::entry_keys(out.items()) == keys.take(i as int),
            decreases fields.items().len() - i,
        {
            let (name, f) = fields.get_index(i);
            proof {
                assert(decreases_to!(*fields => fields.items()[i as int].1));
            }
            match self.field_value(f, item) {
                Err(e) => {
                    proof {
                        lemma_row_fields_prefix(ctx, *fields, i + 1, fields.items().len() as int, row_value(*item));
                    }
                    return Err(e);
                },
                Ok(v) => {
                    let ghost before = out;
                    let ghost vv = v;
                    proof {
                        if keys.no_duplicates() && before.map().contains_key(name@) {
                            crate::json::lemma_entries_key(before.items(), name@);
                            let j = choose|j: int| 0 <= j < before.items().len() && (#[trigger] before.items()[j]).0 == name@;
                            assert(crate::json::entry_keys(before.items())[j] == name@);
                            assert(keys.take(i as int)[j] == keys[j]);
                            assert(keys[i as int] == name@);
                        }
                    }
                    out.insert(name.clone(), v);
                    proof {
                        lemma_row_insert(before, out, name@, vv);
                        if keys.no_duplicates() {
                            assert(crate::json::entry_keys(out.items()) =~= keys.take(i + 1));
                        }
                    }
                },
            }
            i += 1;
        }
        proof {
            assert(keys.take(i as int) =~= keys);
        }
        Ok(out)
    }

    /// The value of a field for a row.
    pub fn field_value(&self, f: &Field, item: &Row) -> (r: Result<JsonValue, ServerError>)
        requires
            self.well_formed(),
        ensures
            json_outcome(r) == field_value(self.ctx(), *f, row_value(*item)),
        decreases f, 5int,
    {
        proof {
            reveal_strlit("relationship is undefined");
        }
        match f {
            Field::Column { column, fields, arguments } => {
                let v = eval_column(self.variables, item, column, arguments)?;
                match fields {
                    None => Ok(v),
                    Some(nf) => self.nested_value(nf, &v),
                }
            },
            Field::Relationship { query, relationship, arguments } => {
                match self.relationships.get(relationship) {
                    None => Err(server_error(400, "relationship is undefined")),
                    Some(rel) => {
                        let source = vec![copy_row(item)];
                        proof {
                            assert(row_views(source@) =~= seq![row_value(*item)]);
                        }
                        let collection = self.related_rows(rel, arguments, &source, &None)?;
                        let rs = self.query_result(query, None, &collection)?;
                        Ok(rowset_to_json(&rs))
                    },
                }
            },
        }
    }

    /// The part of a value that nested fields ask for.
    pub fn nested_value(&self, nf: &NestedField, v: &JsonValue) -> (r: Result<JsonValue, ServerError>)
        requires
            self.well_formed(),
        ensures
            json_outcome(r) == nested_value(self.ctx(), *nf, v@),
        decreases nf, 5int,
    {
        proof {
            reveal_strlit("Expected object");
            reveal_strlit("Expected array");
            reveal_strlit("cannot decode rows");
        }
        match nf {
            NestedField::Object(o) => {
                match v {
                    JsonValue::Object(es) => {
                        proof {
                            crate::json::lemma_object_view(*es);
                            assert(decreases_to!(*nf => *o));
                            assert(decreases_to!(*o => o.fields));
                        }
                        let m = row_of_object(es);
                        let r = self.row_fields(&o.fields, &m)?;
                        Ok(crate::state::row_object(&r))
                    },
                    _ => Err(server_error(400, "Expected object")),
                }
            },
            NestedField::Array(a) => {
                match v {
                    JsonValue::Array(vs) => {
                        proof {
                            crate::json::lemma_array_view(*vs);
                        }
                        let ghost ctx = self.ctx();
                        let ghost js = views(vs@);
                        let mut out: Vec<JsonValue> = Vec::new();
                        let mut i: usize = 0;
                        proof {
                            assert(views(out@) =~= Seq::<Json>::empty());
                        }
                        while i < vs.len()
                            invariant
                                self.well_formed(),
                                ctx == self.ctx(),
                                js == views(vs@),
                                v@ == Json::Array(js),
                                *nf == NestedField::Array(*a),
                                i <= vs.len(),
                                out.len() == i,
                                nested_list(ctx, *nf, js, i as int) == Ok::<Seq<Json>, Failure>(views(out@)),
                            decreases vs.len() - i,
                        {
                            proof {
                                assert(decreases_to!(*nf => *a));
                                assert(decreases_to!(*a => a.fields));
                            }
                            match self.nested_value(&a.fields, &vs[i]) {
                                Err(e) => {
                                    proof {
                                        lemma_nested_list_prefix(ctx, *nf, js, i + 1, js.len() as int);
                                    }
                                    return Err(e);
                                },
                                Ok(x) => {
                                    let ghost before = out@;
                                    out.push(x);
                                    proof {
                                        assert(views(out@) =~= views(before).push(out@[i as int]@));
                                    }
                                },
                            }
                            i += 1;
                        }
                        let ghost ov = views(out@);
                        let r = JsonValue::Array(out);
                        proof {
                            crate::json::lemma_array_view(out);
                        }
                        Ok(r)
                    },
                    _ => Err(server_error(400, "Expected array")),
                }
            },
            NestedField::Collection(c) => {
                match objects_in(v) {
                    None => Err(server_error(500, "cannot decode rows")),
                    Some(rows) => {
                        proof {
                            assert(decreases_to!(*nf => *c));
                            assert(decreases_to!(*c => c.query));
                        }
                        let rs = self.query_result(&c.query, None, &rows)?;
                        Ok(rowset_to_json(&rs))
                    },
                }
            },
        }
    }

}

/// A failure in the first rows is a failure of all of them.
proof fn lemma_column_values_prefix(
    variables: Map<Seq<char>, Json>,
    s: Seq<RowView>,
    k: int,
    name: Seq<char>,
    field_path: Option<Vec<String>>,
    arguments: Dict<Argument>,
)
    requires
        0 <= k <= s.len(),
        column_values(variables, s.take(k), name, field_path, arguments) is Err,
    ensures
        column_values(variables, s, name, field_path, arguments) == column_values(variables, s.take(k), name, field_path, arguments),
    decreases s.len(),
{
    if k < s.len() {
        assert(s.drop_last().take(k) =~= s.take(k));
        lemma_column_values_prefix(variables, s.drop_last(), k, name, field_path, arguments);
    } else {
        assert(s.take(k) =~= s);
    }
}


/// A failure in the first aggregates is a failure of all of them.
proof fn lemma_aggregates_prefix(ctx: Ctx, s: Seq<(Seq<char>, Aggregate)>, k: int, rows: Seq<RowView>)
    requires
        0 <= k <= s.len(),
        aggregates_value(ctx, s.take(k), rows) is Err,
    ensures
        aggregates_value(ctx, s, rows) == aggregates_value(ctx, s.take(k), rows),
    decreases s.len(),
{
    if k < s.len() {
        assert(s.drop_last().take(k) =~= s.take(k));
        lemma_aggregates_prefix(ctx, s.drop_last(), k, rows);
    } else {
        assert(s.take(k) =~= s);
    }
}

/// A failure in the first arguments is a failure of all of them.
proof fn lemma_arguments_prefix(
    variables: Map<Seq<char>, Json>,
    row: RowView,
    given: Map<Seq<char>, Json>,
    s: Seq<(Seq<char>, RelationshipArgument)>,
    k: int,
    unique: bool,
)
    requires
        0 <= k <= s.len(),
        arguments_value(variables, row, given, s.take(k), unique) is Err,
    ensures
        arguments_value(variables, row, given, s, unique) == arguments_value(variables, row, given, s.take(k), unique),
    decreases s.len(),
{
    if k < s.len() {
        assert(s.drop_last().take(k) =~= s.take(k));
        lemma_arguments_prefix(variables, row, given, s.drop_last(), k, unique);
    } else {
        assert(s.take(k) =~= s);
    }
}


/// A failure in the first targets is a failure of all of them.
proof fn lemma_mapped_prefix(relationship: Relationship, src: RowView, s: Seq<RowView>, k: int)
    requires
        0 <= k <= s.len(),
        mapped_rows(relationship, src, s.take(k)) is Err,
    ensures
        mapped_rows(relationship, src, s) == mapped_rows(relationship, src, s.take(k)),
    decreases s.len(),
{
    if k < s.len() {
        assert(s.drop_last().take(k) =~= s.take(k));
        lemma_mapped_prefix(relationship, src, s.drop_last(), k);
    } else {
        assert(s.take(k) =~= s);
    }
}

/// A failure in the first sources is a failure of all of them.
proof fn lemma_related_prefix(
    ctx: Ctx,
    relationship: Relationship,
    arguments: Dict<RelationshipArgument>,
    s: Seq<RowView>,
    k: int,
    field_path: Option<Vec<String>>,
)
    requires
        0 <= k <= s.len(),
        related_rows(ctx, relationship, arguments, s.take(k), field_path) is Err,
    ensures
        related_rows(ctx, relationship, arguments, s, field_path) == related_rows(ctx, relationship, arguments, s.take(k), field_path),
    decreases s.len(),
{
    if k < s.len() {
        assert(s.drop_last().take(k) =~= s.take(k));
        lemma_related_prefix(ctx, relationship, arguments, s.drop_last(), k, field_path);
    } else {
        assert(s.take(k) =~= s);
    }
}


/// A failure in the first rows is a failure of all of them.
proof fn lemma_filter_prefix(ctx: Ctx, e: Expression, root: Option<Seq<RowView>>, s: Seq<RowView>, k: int)
    requires
        0 <= k <= s.len(),
        filter_rows(ctx, e, root, s.take(k)) is Err,
    ensures
        filter_rows(ctx, e, root, s) == filter_rows(ctx, e, root, s.take(k)),
    decreases s.len(),
{
    if k < s.len() {
        assert(s.drop_last().take(k) =~= s.take(k));
        lemma_filter_prefix(ctx, e, root, s.drop_last(), k);
    } else {
        assert(s.take(k) =~= s);
    }
}

/// A failure in the first elements of a path is a failure of the path.
proof fn lemma_path_prefix(ctx: Ctx, path: Vec<PathElement>, k: int, m: int, items: Seq<RowView>)
    requires
        0 <= k <= m <= path.len(),
        path_rows(ctx, path, k, items) is Err,
    ensures
        path_rows(ctx, path, m, items) == path_rows(ctx, path, k, items),
    decreases m - k,
{
    if k < m {
        lemma_path_prefix(ctx, path, k, m - 1, items);
    }
}

/// A failure in the first sources is a failure of all of them.
proof fn lemma_related_where_prefix(ctx: Ctx, element: PathElement, relationship: Relationship, s: Seq<RowView>, k: int)
    requires
        0 <= k <= s.len(),
        related_where(ctx, element, relationship, s.take(k)) is Err,
    ensures
        related_where(ctx, element, relationship, s) == related_where(ctx, element, relationship, s.take(k)),
    decreases s.len(),
{
    if k < s.len() {
        assert(s.drop_last().take(k) =~= s.take(k));
        lemma_related_where_prefix(ctx, element, relationship, s.drop_last(), k);
    } else {
        assert(s.take(k) =~= s);
    }
}

/// A failure in the first targets is a failure of all of them.
proof fn lemma_targets_where_prefix(ctx: Ctx, element: PathElement, relationship: Relationship, src: RowView, s: Seq<RowView>, k: int)
    requires
        0 <= k <= s.len(),
        targets_where(ctx, element, relationship, src, s.take(k)) is Err,
    ensures
        targets_where(ctx, element, relationship, src, s) == targets_where(ctx, element, relationship, src, s.take(k)),
    decreases s.len(),
{
    if k < s.len() {
        assert(s.drop_last().take(k) =~= s.take(k));
        lemma_targets_where_prefix(ctx, element, relationship, src, s.drop_last(), k);
    } else {
        assert(s.take(k) =~= s);
    }
}


/// A failure in sorting the first rows is a failure of the sort.
proof fn lemma_sorted_prefix(ctx: Ctx, ob: OrderBy, s: Seq<RowView>, k: int)
    requires
        0 <= k <= s.len(),
        sorted_rows(ctx, ob, s.take(k)) is Err,
    ensures
        sorted_rows(ctx, ob, s) == sorted_rows(ctx, ob, s.take(k)),
    decreases s.len(),
{
    if k < s.len() {
        assert(s.drop_last().take(k) =~= s.take(k));
        lemma_sorted_prefix(ctx, ob, s.drop_last(), k);
    } else {
        assert(s.take(k) =~= s);
    }
}


/// A failure in the first dimensions is a failure of all of them.
proof fn lemma_row_dims_prefix(ctx: Ctx, g: Grouping, k: int, m: int, row: RowView)
    requires
        0 <= k <= m <= g.dimensions.len(),
        row_dims(ctx, g, k, row) is Err,
    ensures
        row_dims(ctx, g, m, row) == row_dims(ctx, g, k, row),
    decreases m - k,
{
    if k < m {
        lemma_row_dims_prefix(ctx, g, k, m - 1, row);
    }
}

/// A failure for the first rows is a failure for all of them.
proof fn lemma_dims_prefix(ctx: Ctx, g: Grouping, s: Seq<RowView>, k: int)
    requires
        0 <= k <= s.len(),
        dims_list(ctx, g, s.take(k)) is Err,
    ensures
        dims_list(ctx, g, s) is Err,
    decreases s.len(),
{
    if k < s.len() {
        assert(s.drop_last().take(k) =~= s.take(k));
        lemma_dims_prefix(ctx, g, s.drop_last(), k);
    } else {
        assert(s.take(k) =~= s);
    }
}

/// A failure in sorting the first groups is a failure of the sort.
proof fn lemma_groups_sorted_prefix(ctx: Ctx, elements: Seq<GroupOrderByElement>, s: Seq<(Seq<Json>, Seq<RowView>)>, k: int)
    requires
        0 <= k <= s.len(),
        groups_sorted(ctx, elements, s.take(k)) is Err,
    ensures
        groups_sorted(ctx, elements, s) == groups_sorted(ctx, elements, s.take(k)),
    decreases s.len(),
{
    if k < s.len() {
        assert(s.drop_last().take(k) =~= s.take(k));
        lemma_groups_sorted_prefix(ctx, elements, s.drop_last(), k);
    } else {
        assert(s.take(k) =~= s);
    }
}


/// A failure for the first groups is a failure for all of them.
proof fn lemma_groups_kept_prefix(ctx: Ctx, g: Grouping, s: Seq<(Seq<Json>, Seq<RowView>)>, k: int)
    requires
        0 <= k <= s.len(),
        groups_kept(ctx, g, s.take(k)) is Err,
    ensures
        groups_kept(ctx, g, s) == groups_kept(ctx, g, s.take(k)),
    decreases s.len(),
{
    if k < s.len() {
        assert(s.drop_last().take(k) =~= s.take(k));
        lemma_groups_kept_prefix(ctx, g, s.drop_last(), k);
    } else {
        assert(s.take(k) =~= s);
    }
}


/// A failure for the first rows is a failure for all of them.
proof fn lemma_row_list_prefix(ctx: Ctx, fields: Dict<Field>, s: Seq<RowView>, k: int)
    requires
        0 <= k <= s.len(),
        row_list(ctx, fields, s.take(k)) is Err,
    ensures
        row_list(ctx, fields, s) == row_list(ctx, fields, s.take(k)),
    decreases s.len(),
{
    if k < s.len() {
        assert(s.drop_last().take(k) =~= s.take(k));
        lemma_row_list_prefix(ctx, fields, s.drop_last(), k);
    } else {
        assert(s.take(k) =~= s);
    }
}

/// A failure in the first fields is a failure of all of them.
proof fn lemma_row_fields_prefix(ctx: Ctx, fields: Dict<Field>, k: int, m: int, item: RowView)
    requires
        0 <= k <= m <= fields.items().len(),
        row_fields(ctx, fields, k, item) is Err,
    ensures
        row_fields(ctx, fields, m, item) == row_fields(ctx, fields, k, item),
    decreases m - k,
{
    if k < m {
        lemma_row_fields_prefix(ctx, fields, k, m - 1, item);
    }
}

/// A failure in the first elements is a failure of all of them.
proof fn lemma_nested_list_prefix(ctx: Ctx, nf: NestedField, vs: Seq<Json>, k: int, m: int)
    requires
        0 <= k <= m <= vs.len(),
        nested_list(ctx, nf, vs, k) is Err,
    ensures
        nested_list(ctx, nf, vs, m) == nested_list(ctx, nf, vs, k),
    decreases m - k,
{
    if k < m {
        lemma_nested_list_prefix(ctx, nf, vs, k, m - 1);
    }
}


/// What a request is evaluated against: its relationships and variables,
/// the data, and the closures that order and aggregate numbers.
#[verifier::opaque]
pub open spec fn context_of<L, F, A>(
    relationships: Map<Seq<char>, Relationship>,
    variables: Map<Seq<char>, Json>,
    state: AppState,
    less: L,
    floats: F,
    average: A,
) -> Ctx where
    L: Fn(&JsonNumber, &JsonNumber) -> bool,
    F: Fn(FloatAggregate, &Vec<JsonNumber>) -> JsonValue,
    A: Fn(i64, usize) -> JsonValue,
 {
    Ctx {
        relationships,
        variables,
        state,
        less: less_by(less),
        floats: float_fn(floats),
        average: average_fn(average),
    }
}

/// The values of a collection's arguments, added in order.
pub fn collection_argument_values(variables: &Row, arguments: &Dict<Argument>) -> (r: Result<Row, ServerError>)
    ensures
        map_outcome(r) == collection_arguments(row_value(*variables), arguments.items()),
{
    let ghost items = arguments.items();
    let mut out: Row = empty_row();
    let mut i: usize = 0;
    proof {
        assert(items.take(0) =~= Seq::<(Seq<char>, Argument)>::empty());
    }
    while i < arguments.len()
        invariant
            items == arguments.items(),
            i <= items.len(),
            collection_arguments(row_value(*variables), items.take(i as int)) == Ok::<RowView, Failure>(row_value(out)),
        decreases items.len() - i,
    {
        proof {
            assert(items.take(i + 1).drop_last() =~= items.take(i as int));
            assert(items.take(i + 1).last() == items[i as int]);
        }
        let (name, argument) = arguments.get_index(i);
        match crate::engine::eval_argument(variables, argument) {
            Err(e) => {
                proof {
                    lemma_collection_arguments_prefix(row_value(*variables), items, i + 1);
                }
                return Err(e);
            },
            Ok(v) => {
                let ghost before = out;
                let ghost vv = v;
                out.insert(name.clone(), v);
                proof {
                    lemma_row_insert(before, out, name@, vv);
                }
            },
        }
        i += 1;
    }
    proof {
        assert(items.take(i as int) =~= items);
    }
    Ok(out)
}

/// A failure in the first arguments is a failure of all of them.
proof fn lemma_collection_arguments_prefix(variables: Map<Seq<char>, Json>, s: Seq<(Seq<char>, Argument)>, k: int)
    requires
        0 <= k <= s.len(),
        collection_arguments(variables, s.take(k)) is Err,
    ensures
        collection_arguments(variables, s) == collection_arguments(variables, s.take(k)),
    decreases s.len(),
{
    if k < s.len() {
        assert(s.drop_last().take(k) =~= s.take(k));
        lemma_collection_arguments_prefix(variables, s.drop_last(), k);
    } else {
        assert(s.take(k) =~= s);
    }
}

/// Evaluates a query on a named collection with one set of variables: the
/// collection's arguments, then its rows, then the query over them.
/// `less`, `floats` and `average` compute with 64-bit floats.
pub fn execute_query_with_variables<L, F, A>(
    collection: &String,
    arguments: &Dict<Argument>,
    collection_relationships: &Dict<Relationship>,
    query: &Query,
    variables: &Row,
    state: &AppState,
    less: &L,
    floats: &F,
    average: &A,
) -> (r: Result<RowSet, ServerError>) where
    L: Fn(&JsonNumber, &JsonNumber) -> bool,
    F: Fn(FloatAggregate, &Vec<JsonNumber>) -> JsonValue,
    A: Fn(i64, usize) -> JsonValue,

    requires
        orderly_less(*less),
        deterministic_float(*floats),
        deterministic_average(*average),
    ensures
        rowset_outcome(r) == collection_query(
            context_of(collection_relationships.map(), row_value(*variables), *state, *less, *floats, *average),
            collection@,
            arguments.items(),
            *query,
        ),
        r matches Ok(rs) ==> rows_follow_fields(*query, rs),
{
    proof {
        reveal(context_of);
        reveal(collection_query);
    }
    let argument_values = collection_argument_values(variables, arguments)?;
    let rows = get_collection_by_name(collection, &argument_values, state)?;
    let evaluator = Evaluator { relationships: collection_relationships, variables, state, less, floats, average };
    evaluator.query_result(query, None, &rows)
}

/// The variable sets of a request: one empty set when it gives none.
pub open spec fn variable_sets(request: QueryRequest) -> Seq<Map<Seq<char>, Json>> {
    match request.variables {
        Some(vs) => row_views(vs@),
        None => seq![Map::empty()],
    }
}

/// A request without variables is run once; one with variables, once for
/// each set of them.
pub proof fn lemma_variable_sets_count(request: QueryRequest)
    ensures
        variable_sets(request).len() == match request.variables {
            Some(vs) => vs.len(),
            None => 1,
        },
{
}

/// The meanings of row sets.
pub open spec fn rowset_views(s: Seq<RowSet>) -> Seq<RowSetValue> {
    s.map_values(|rs: RowSet| rowset_value(rs))
}

/// The row set of a request for one set of variables.
fn request_rowset<L, F, A>(request: &QueryRequest, variables: &Row, state: &AppState, less: &L, floats: &F, average: &A) -> (r: Result<RowSet, ServerError>) where
    L: Fn(&JsonNumber, &JsonNumber) -> bool,
    F: Fn(FloatAggregate, &Vec<JsonNumber>) -> JsonValue,
    A: Fn(i64, usize) -> JsonValue,

    requires
        orderly_less(*less),
        deterministic_float(*floats),
        deterministic_average(*average),
    ensures
        rowset_outcome(r) == collection_query(
            context_with(
                context_of(request.collection_relationships.map(), Map::<Seq<char>, Json>::empty(), *state, *less, *floats, *average),
                row_value(*variables),
            ),
            request.collection@,
            request.arguments.items(),
            request.query,
        ),
        r matches Ok(rs) ==> rows_follow_fields(request.query, rs),
{
    proof {
        reveal(context_of);
        assert(context_with(
            context_of(request.collection_relationships.map(), Map::<Seq<char>, Json>::empty(), *state, *less, *floats, *average),
            row_value(*variables),
        ) == context_of(request.collection_relationships.map(), row_value(*variables), *state, *less, *floats, *average));
    }
    execute_query_with_variables(
        &request.collection,
        &request.arguments,
        &request.collection_relationships,
        &request.query,
        variables,
        state,
        less,
        floats,
        average,
    )
}

/// Answers a query request: one row set for each set of variables (a
/// single empty one when there are none), in order; the rows hold the
/// columns asked for, in the order asked.  `less`, `floats` and
/// `average` compute with 64-bit floats.
#[verifier::rlimit(40)]
pub fn execute_query_request<L, F, A>(request: &QueryRequest, state: &AppState, less: &L, floats: &F, average: &A) -> (r: Result<QueryResponse, ServerError>) where
    L: Fn(&JsonNumber, &JsonNumber) -> bool,
    F: Fn(FloatAggregate, &Vec<JsonNumber>) -> JsonValue,
    A: Fn(i64, usize) -> JsonValue,

    requires
        orderly_less(*less),
        deterministic_float(*floats),
        deterministic_average(*average),
    ensures
        match r {
            Ok(response) => request_rowsets(
                context_of(request.collection_relationships.map(), Map::<Seq<char>, Json>::empty(), *state, *less, *floats, *average),
                request.collection@,
                request.arguments.items(),
                request.query,
                variable_sets(*request),
            ) == Ok::<Seq<RowSetValue>, Failure>(crate::rowset::response_value(response)),
            Err(e) => request_rowsets(
                context_of(request.collection_relationships.map(), Map::<Seq<char>, Json>::empty(), *state, *less, *floats, *average),
                request.collection@,
                request.arguments.items(),
                request.query,
                variable_sets(*request),
            ) == Err::<Seq<RowSetValue>, Failure>((e.status, e.message@)),
        },
        r matches Ok(response) ==> forall|k: int|
            0 <= k < response.0.len() ==> rows_follow_fields(request.query, #[trigger] response.0@[k]),
{
    let ghost ctx = context_of(request.collection_relationships.map(), Map::<Seq<char>, Json>::empty(), *state, *less, *floats, *average);
    let no_variables = empty_row();
    let single = vec![empty_row()];
    let sets: &Vec<Row> = match &request.variables {
        Some(vs) => vs,
        None => &single,
    };
    let ghost vsets = variable_sets(*request);
    proof {
        assert(row_views(single@) =~= seq![Map::<Seq<char>, Json>::empty()]);
        assert(row_views(sets@) == vsets);
    }
    let mut out: Vec<RowSet> = Vec::new();
    let mut i: usize = 0;
    proof {
        assert(vsets.take(0) =~= Seq::<Map<Seq<char>, Json>>::empty());
        assert(rowset_views(out@) =~= Seq::<RowSetValue>::empty());
    }
    while i < sets.len()
        invariant
            orderly_less(*less),
            deterministic_float(*floats),
            deterministic_average(*average),
            ctx == context_of(request.collection_relationships.map(), Map::<Seq<char>, Json>::empty(), *state, *less, *floats, *average),
            vsets == row_views(sets@),
            vsets == variable_sets(*request),
            i <= sets.len(),
            request_rowsets(ctx, request.collection@, request.arguments.items(), request.query, vsets.take(i as int))
                == Ok::<Seq<RowSetValue>, Failure>(rowset_views(out@)),
            forall|k: int| 0 <= k < out.len() ==> rows_follow_fields(request.query, #[trigger] out@[k]),
        decreases sets.len() - i,
    {
        let step = request_rowset(request, &sets[i], state, less, floats, average);
        match step {
            Err(e) => {
                proof {
                    assert(vsets[i as int] == row_value(sets@[i as int]));
                    lemma_request_failure(ctx, request.collection@, request.arguments.items(), request.query, vsets, i as int, rowset_views(out@), (e.status, e.message@));
                }
                return Err(e);
            },
            Ok(rs) => {
                let ghost before = out@;
                let ghost rv = rowset_value(rs);
                proof {
                    assert(vsets[i as int] == row_value(sets@[i as int]));
                    assert(collection_query(context_with(ctx, vsets[i as int]), request.collection@, request.arguments.items(), request.query) == Ok::<RowSetValue, Failure>(rv));
                    lemma_request_step(ctx, request.collection@, request.arguments.items(), request.query, vsets, i as int, rowset_views(before), rv);
                }
                out.push(rs);
                proof {
                    lemma_rowset_views_push(before, rs);
                }
            },
        }
        i += 1;
    }
    proof {
        assert(vsets.take(i as int) =~= vsets);
    }
    let response = QueryResponse(out);
    proof {
        assert(crate::rowset::response_value(response) =~= rowset_views(out@));
    }
    Ok(response)
}

/// A failure for the first variable sets is a failure of the request.
proof fn lemma_request_prefix(
    ctx: Ctx,
    collection: Seq<char>,
    arguments: Seq<(Seq<char>, Argument)>,
    q: Query,
    s: Seq<Map<Seq<char>, Json>>,
    k: int,
)
    requires
        0 <= k <= s.len(),
        request_rowsets(ctx, collection, arguments, q, s.take(k)) is Err,
    ensures
        request_rowsets(ctx, collection, arguments, q, s) == request_rowsets(ctx, collection, arguments, q, s.take(k)),
    decreases s.len(),
{
    if k < s.len() {
        assert(s.drop_last().take(k) =~= s.take(k));
        lemma_request_prefix(ctx, collection, arguments, q, s.drop_last(), k);
    } else {
        assert(s.take(k) =~= s);
    }
}


/// The row sets of a request grow by that of the next variable set.
proof fn lemma_request_step(
    ctx: Ctx,
    collection: Seq<char>,
    arguments: Seq<(Seq<char>, Argument)>,
    q: Query,
    s: Seq<Map<Seq<char>, Json>>,
    i: int,
    sets: Seq<RowSetValue>,
    rv: RowSetValue,
)
    requires
        0 <= i < s.len(),
        request_rowsets(ctx, collection, arguments, q, s.take(i)) == Ok::<Seq<RowSetValue>, Failure>(sets),
        collection_query(context_with(ctx, s[i]), collection, arguments, q) == Ok::<RowSetValue, Failure>(rv),
    ensures
        request_rowsets(ctx, collection, arguments, q, s.take(i + 1)) == Ok::<Seq<RowSetValue>, Failure>(sets.push(rv)),
{
    assert(s.take(i + 1).drop_last() =~= s.take(i));
    assert(s.take(i + 1).last() == s[i]);
}

/// A failure for a variable set fails the request.
proof fn lemma_request_failure(
    ctx: Ctx,
    collection: Seq<char>,
    arguments: Seq<(Seq<char>, Argument)>,
    q: Query,
    s: Seq<Map<Seq<char>, Json>>,
    i: int,
    sets: Seq<RowSetValue>,
    e: Failure,
)
    requires
        0 <= i < s.len(),
        request_rowsets(ctx, collection, arguments, q, s.take(i)) == Ok::<Seq<RowSetValue>, Failure>(sets),
        collection_query(context_with(ctx, s[i]), collection, arguments, q) == Err::<RowSetValue, Failure>(e),
    ensures
        request_rowsets(ctx, collection, arguments, q, s) == Err::<Seq<RowSetValue>, Failure>(e),
{
    assert(s.take(i + 1).drop_last() =~= s.take(i));
    assert(s.take(i + 1).last() == s[i]);
    lemma_request_prefix(ctx, collection, arguments, q, s, i + 1);
}


/// The meanings of row sets grow with them.
proof fn lemma_rowset_views_push(s: Seq<RowSet>, rs: RowSet)
    ensures
        rowset_views(s.push(rs)) == rowset_views(s).push(rowset_value(rs)),
{
    assert(rowset_views(s.push(rs)) =~= rowset_views(s).push(rowset_value(rs)));
}

} // verus!
