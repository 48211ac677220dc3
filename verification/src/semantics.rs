use vstd::prelude::*;
use crate::dict::Dict;
use crate::engine::{
    aggregate_result, all_i64, column_value, int_values, sums_fit, extraction_value, field_path_value, mapping_scan, paginated,
    relationship_argument_value, row_path_value, value_order, comparison_outcome, Order,
};
use crate::error::path_view;
use crate::json::Json;
use crate::query::{
    Aggregate, ArrayComparison, ComparisonTarget, ComparisonValue, Dimension, ExistsInCollection,
    Expression, Field, GroupComparisonTarget, GroupComparisonValue, GroupExpression, GroupOrderBy,
    GroupOrderByElement, GroupOrderByTarget, Grouping, NestedField, OrderBy, OrderByElement,
    OrderByTarget, OrderDirection, PathElement, Query, Relationship, RelationshipArgument, Argument,
};
use crate::rowset::RowSetValue;
use crate::state::{collection_rows, AppState};

verus! {

broadcast use crate::dict::Dict::lemma_value_decreases;

/// The status and message of a failed evaluation.
pub type Failure = (u16, Seq<char>);

/// A row taken by its meaning: its columns and their values.
pub type RowView = Map<Seq<char>, Json>;

/// What a query is evaluated against: the relationships and variables of
/// the request, the data, and how numbers are ordered and aggregated.
pub struct Ctx {
    pub relationships: Map<Seq<char>, Relationship>,
    pub variables: Map<Seq<char>, Json>,
    pub state: AppState,
    pub less: spec_fn(Json, Json) -> bool,
    pub floats: spec_fn(crate::engine::FloatAggregate, Seq<Json>) -> Json,
    pub average: spec_fn(int, nat) -> Json,
}

/// The value of a column of a row, then of a path of fields within it.
pub open spec fn column_at(
    variables: Map<Seq<char>, Json>,
    row: RowView,
    name: Seq<char>,
    field_path: Option<Vec<String>>,
    arguments: Dict<Argument>,
) -> Result<Json, Failure> {
    match column_value(variables, row, name, arguments.map()) {
        Err(e) => Err(e),
        Ok(v) => match field_path {
            None => Ok(v),
            Some(p) => match field_path_value(path_view(p@), v) {
                Some(j) => Ok(j),
                None => Err((400, "invalid field path"@)),
            },
        },
    }
}

/// The values of a column over rows, in order; the first failure fails
/// them all.
pub open spec fn column_values(
    variables: Map<Seq<char>, Json>,
    rows: Seq<RowView>,
    name: Seq<char>,
    field_path: Option<Vec<String>>,
    arguments: Dict<Argument>,
) -> Result<Seq<Json>, Failure>
    decreases rows.len(),
{
    if rows.len() == 0 {
        Ok(Seq::empty())
    } else {
        match column_values(variables, rows.drop_last(), name, field_path, arguments) {
            Err(e) => Err(e),
            Ok(vs) => match column_at(variables, rows.last(), name, field_path, arguments) {
                Err(e) => Err(e),
                Ok(v) => Ok(vs.push(v)),
            },
        }
    }
}

/// The values that are not null, in order.
pub open spec fn present(vs: Seq<Json>) -> Seq<Json>
    decreases vs.len(),
{
    if vs.len() == 0 {
        Seq::empty()
    } else if vs.last() == Json::Null {
        present(vs.drop_last())
    } else {
        present(vs.drop_last()).push(vs.last())
    }
}

/// An aggregate function over values, failing when an integer sum would
/// not fit in 64 bits.
pub open spec fn aggregate_checked(
    function: Seq<char>,
    values: Seq<Json>,
    floats: spec_fn(crate::engine::FloatAggregate, Seq<Json>) -> Json,
    average: spec_fn(int, nat) -> Json,
) -> Result<Json, Failure> {
    if values.len() > 0 && all_i64(values) && (function == "sum"@ || function == "avg"@) && !sums_fit(
        int_values(values),
    ) {
        Err((500, "aggregate sum out of range"@))
    } else {
        aggregate_result(function, values, floats, average)
    }
}

/// The value of an aggregate over rows: their number, the number of
/// (distinct) non-null values of a column, or an aggregate function of a
/// column's values.
pub open spec fn aggregate_value(ctx: Ctx, aggregate: Aggregate, rows: Seq<RowView>) -> Result<Json, Failure> {
    match aggregate {
        Aggregate::StarCount {  } => Ok(Json::Int(rows.len() as int)),
        Aggregate::ColumnCount { column, arguments, field_path, distinct } => match column_values(
            ctx.variables,
            rows,
            column@,
            field_path,
            arguments,
        ) {
            Err(e) => Err(e),
            Ok(vs) => if distinct {
                Ok(Json::Int(present(vs).to_set().len() as int))
            } else {
                Ok(Json::Int(present(vs).len() as int))
            },
        },
        Aggregate::SingleColumn { column, arguments, field_path, function } => match column_values(
            ctx.variables,
            rows,
            column@,
            field_path,
            arguments,
        ) {
            Err(e) => Err(e),
            Ok(vs) => aggregate_checked(function@, vs, ctx.floats, ctx.average),
        },
    }
}

/// The values of named aggregates over rows, in order.
pub open spec fn aggregates_value(ctx: Ctx, aggregates: Seq<(Seq<char>, Aggregate)>, rows: Seq<RowView>) -> Result<Map<Seq<char>, Json>, Failure>
    decreases aggregates.len(),
{
    if aggregates.len() == 0 {
        Ok(Map::empty())
    } else {
        match aggregates_value(ctx, aggregates.drop_last(), rows) {
            Err(e) => Err(e),
            Ok(m) => match aggregate_value(ctx, aggregates.last().1, rows) {
                Err(e) => Err(e),
                Ok(v) => Ok(m.insert(aggregates.last().0, v)),
            },
        }
    }
}

/// The values of relationship arguments against a row, added in order to
/// those already given; a name given twice fails when `unique` is asked.
pub open spec fn arguments_value(
    variables: Map<Seq<char>, Json>,
    row: RowView,
    given: Map<Seq<char>, Json>,
    arguments: Seq<(Seq<char>, RelationshipArgument)>,
    unique: bool,
) -> Result<Map<Seq<char>, Json>, Failure>
    decreases arguments.len(),
{
    if arguments.len() == 0 {
        Ok(given)
    } else {
        match arguments_value(variables, row, given, arguments.drop_last(), unique) {
            Err(e) => Err(e),
            Ok(m) => match relationship_argument_value(variables, row, arguments.last().1) {
                Err(e) => Err(e),
                Ok(v) => if unique && m.contains_key(arguments.last().0) {
                    Err((400, "duplicate argument names"@))
                } else {
                    Ok(m.insert(arguments.last().0, v))
                },
            },
        }
    }
}

/// The row a source row gives after following a path of fields.
pub open spec fn source_row(field_path: Option<Vec<String>>, row: RowView) -> Result<RowView, Failure> {
    match field_path {
        None => Ok(row),
        Some(p) => row_path_value(path_view(p@), row),
    }
}

/// The rows of a relationship's target collection for a source row: the
/// relationship's arguments and then the given ones, a name given twice
/// failing.
pub open spec fn target_rows(
    ctx: Ctx,
    relationship: Relationship,
    arguments: Dict<RelationshipArgument>,
    src: RowView,
) -> Result<Seq<RowView>, Failure> {
    match arguments_value(ctx.variables, src, Map::empty(), relationship.arguments.items(), false) {
        Err(e) => Err(e),
        Ok(m) => match arguments_value(ctx.variables, src, m, arguments.items(), true) {
            Err(e) => Err(e),
            Ok(all) => collection_rows(ctx.state, relationship.target_collection@, all),
        },
    }
}

/// The target rows that the relationship's column mapping relates to a
/// source row, in order.
pub open spec fn mapped_rows(relationship: Relationship, src: RowView, targets: Seq<RowView>) -> Result<Seq<RowView>, Failure>
    decreases targets.len(),
{
    if targets.len() == 0 {
        Ok(Seq::empty())
    } else {
        match mapped_rows(relationship, src, targets.drop_last()) {
            Err(e) => Err(e),
            Ok(kept) => match mapping_scan(relationship.column_mapping.items(), src, targets.last()) {
                Err(e) => Err(e),
                Ok(true) => Ok(kept.push(targets.last())),
                Ok(false) => Ok(kept),
            },
        }
    }
}

/// The rows related to source rows, source by source and, for each, in the
/// order of the target collection.
pub open spec fn related_rows(
    ctx: Ctx,
    relationship: Relationship,
    arguments: Dict<RelationshipArgument>,
    sources: Seq<RowView>,
    field_path: Option<Vec<String>>,
) -> Result<Seq<RowView>, Failure>
    decreases sources.len(),
{
    if sources.len() == 0 {
        Ok(Seq::empty())
    } else {
        match related_rows(ctx, relationship, arguments, sources.drop_last(), field_path) {
            Err(e) => Err(e),
            Ok(found) => match source_row(field_path, sources.last()) {
                Err(e) => Err(e),
                Ok(src) => match target_rows(ctx, relationship, arguments, src) {
                    Err(e) => Err(e),
                    Ok(targets) => match mapped_rows(relationship, src, targets) {
                        Err(e) => Err(e),
                        Ok(kept) => Ok(found + kept),
                    },
                },
            },
        }
    }
}

/// The rows of an array of objects.
pub open spec fn objects_of(v: Json) -> Option<Seq<RowView>> {
    match v {
        Json::Array(vs) => if forall|i: int| 0 <= i < vs.len() ==> #[trigger] vs[i] is Object {
            Some(vs.map_values(|x: Json| x->Object_0))
        } else {
            None
        },
        _ => None,
    }
}

/// Rows holding each value in a `__value` column.
pub open spec fn value_rows(vs: Seq<Json>) -> Seq<RowView> {
    vs.map_values(|x: Json| map!["__value"@ => x])
}

/// The rows an `exists` expression ranges over.
pub open spec fn in_collection_rows(ctx: Ctx, in_collection: ExistsInCollection, item: RowView) -> Result<Seq<RowView>, Failure> {
    match in_collection {
        ExistsInCollection::Related { field_path, relationship, arguments } => if !ctx.relationships.contains_key(relationship@) {
            Err((400, "relationship is undefined"@))
        } else {
            related_rows(ctx, ctx.relationships[relationship@], arguments, seq![item], field_path)
        },
        ExistsInCollection::Unrelated { collection, arguments } => match arguments_value(
            ctx.variables,
            item,
            Map::empty(),
            arguments.items(),
            false,
        ) {
            Err(e) => Err(e),
            Ok(m) => collection_rows(ctx.state, collection@, m),
        },
        ExistsInCollection::NestedCollection { column_name, arguments, field_path } => match column_at(
            ctx.variables,
            item,
            column_name@,
            Some(field_path),
            arguments,
        ) {
            Err(e) => Err(e),
            Ok(v) => match objects_of(v) {
                Some(rows) => Ok(rows),
                None => Err((400, "nested collection must be an array of objects"@)),
            },
        },
        ExistsInCollection::NestedScalarCollection { column_name, arguments, field_path } => match column_at(
            ctx.variables,
            item,
            column_name@,
            Some(field_path),
            arguments,
        ) {
            Err(e) => Err(e),
            Ok(v) => match v {
                Json::Array(vs) => Ok(value_rows(vs)),
                _ => Err((400, "nested scalar collection column value must be an array"@)),
            },
        },
    }
}

/// The order of a comparison chain: the first order that is not equal.
pub open spec fn then(first: Order, next: Order) -> Order {
    if first == Order::Equal {
        next
    } else {
        first
    }
}

/// How two values are ordered in a direction.
pub open spec fn directed_order(direction: OrderDirection, v1: Json, v2: Json, less: spec_fn(Json, Json) -> bool) -> Result<Order, Failure> {
    match direction {
        OrderDirection::Asc => value_order(v1, v2, less),
        OrderDirection::Desc => value_order(v2, v1, less),
    }
}

/// The meaning of a row set as JSON: an object with the parts it has.
pub open spec fn rowset_json(rs: RowSetValue) -> Json {
    let with_aggregates = match rs.aggregates {
        Some(a) => Map::empty().insert("aggregates"@, Json::Object(a)),
        None => Map::empty(),
    };
    let with_rows = match rs.rows {
        Some(rows) => with_aggregates.insert(
            "rows"@,
            Json::Array(rows.map_values(|r: Map<Seq<char>, Json>| Json::Object(r))),
        ),
        None => with_aggregates,
    };
    let with_groups = match rs.groups {
        Some(gs) => with_rows.insert(
            "groups"@,
            Json::Array(
                gs.map_values(
                    |g: (Seq<Json>, Map<Seq<char>, Json>)|
                        Json::Object(
                            map!["dimensions"@ => Json::Array(g.0), "aggregates"@ => Json::Object(g.1)],
                        ),
                ),
            ),
        ),
        None => with_rows,
    };
    Json::Object(with_groups)
}

/// Rows cut into runs of consecutive rows with equal dimension values.
pub open spec fn chunks_of(rows: Seq<RowView>, dims: Seq<Seq<Json>>) -> Seq<(Seq<Json>, Seq<RowView>)>
    decreases rows.len(),
{
    if rows.len() == 0 || dims.len() != rows.len() {
        Seq::empty()
    } else {
        let before = chunks_of(rows.drop_last(), dims.drop_last());
        if before.len() > 0 && before.last().0 == dims.last() {
            before.update(before.len() - 1, (before.last().0, before.last().1.push(rows.last())))
        } else {
            before.push((dims.last(), seq![rows.last()]))
        }
    }
}

/// The value a group is ordered by: one of its dimensions or an aggregate
/// over its rows.
pub open spec fn group_element_value(ctx: Ctx, element: GroupOrderByElement, chunk: (Seq<Json>, Seq<RowView>)) -> Result<Json, Failure> {
    match element.target {
        GroupOrderByTarget::Dimension { index } => if index < chunk.0.len() {
            Ok(chunk.0[index as int])
        } else {
            Err((400, "dimension index out of range"@))
        },
        GroupOrderByTarget::Aggregate { aggregate } => aggregate_value(ctx, aggregate, chunk.1),
    }
}

/// The order of two groups by the elements from the `i`th on, after the
/// order `acc` of the earlier ones.
pub open spec fn group_compare_from(
    ctx: Ctx,
    elements: Seq<GroupOrderByElement>,
    i: int,
    acc: Order,
    c1: (Seq<Json>, Seq<RowView>),
    c2: (Seq<Json>, Seq<RowView>),
) -> Result<Order, Failure>
    decreases elements.len() - i,
{
    if i < 0 || i >= elements.len() {
        Ok(acc)
    } else {
        match group_element_value(ctx, elements[i], c1) {
            Err(e) => Err(e),
            Ok(v1) => match group_element_value(ctx, elements[i], c2) {
                Err(e) => Err(e),
                Ok(v2) => match directed_order(elements[i].order_direction, v1, v2, ctx.less) {
                    Err(e) => Err(e),
                    Ok(x) => group_compare_from(ctx, elements, i + 1, then(acc, x), c1, c2),
                },
            },
        }
    }
}

/// Where a group is inserted among sorted groups: before the first that
/// compares greater than it.
pub open spec fn group_insertion_point(
    ctx: Ctx,
    elements: Seq<GroupOrderByElement>,
    sorted: Seq<(Seq<Json>, Seq<RowView>)>,
    item: (Seq<Json>, Seq<RowView>),
) -> Result<int, Failure>
    decreases sorted.len(),
{
    if sorted.len() == 0 {
        Ok(0)
    } else {
        match group_compare_from(ctx, elements, 0, Order::Equal, sorted[0], item) {
            Err(e) => Err(e),
            Ok(Order::Greater) => Ok(0),
            Ok(_) => match group_insertion_point(ctx, elements, sorted.drop_first(), item) {
                Err(e) => Err(e),
                Ok(i) => Ok(i + 1),
            },
        }
    }
}

/// Groups sorted by insertion.
pub open spec fn groups_sorted(ctx: Ctx, elements: Seq<GroupOrderByElement>, chunks: Seq<(Seq<Json>, Seq<RowView>)>) -> Result<Seq<(Seq<Json>, Seq<RowView>)>, Failure>
    decreases chunks.len(),
{
    if chunks.len() == 0 {
        Ok(Seq::empty())
    } else {
        match groups_sorted(ctx, elements, chunks.drop_last()) {
            Err(e) => Err(e),
            Ok(s) => match group_insertion_point(ctx, elements, s, chunks.last()) {
                Err(e) => Err(e),
                Ok(i) => Ok(s.insert(i, chunks.last())),
            },
        }
    }
}

/// The values a group comparison is made against.
pub open spec fn group_comparison_values(ctx: Ctx, value: GroupComparisonValue) -> Result<Seq<Json>, Failure> {
    match value {
        GroupComparisonValue::Scalar { value } => Ok(seq![value@]),
        GroupComparisonValue::Variable { name } => if ctx.variables.contains_key(name@) {
            Ok(seq![ctx.variables[name@]])
        } else {
            Err((400, "invalid variable name"@))
        },
    }
}

/// Whether a predicate on groups holds of a group's rows.
pub open spec fn group_holds(ctx: Ctx, expression: GroupExpression, rows: Seq<RowView>) -> Result<bool, Failure>
    decreases expression, 1int, 0int,
{
    match expression {
        GroupExpression::And { expressions } => group_all_hold(ctx, expressions, 0, rows),
        GroupExpression::Or { expressions } => group_any_holds(ctx, expressions, 0, rows),
        GroupExpression::Not { expression } => match group_holds(ctx, *expression, rows) {
            Err(e) => Err(e),
            Ok(b) => Ok(!b),
        },
        GroupExpression::UnaryComparisonOperator { target, operator } => match target {
            GroupComparisonTarget::Aggregate { aggregate } => match aggregate_value(ctx, aggregate, rows) {
                Err(e) => Err(e),
                Ok(v) => Ok(v == Json::Null),
            },
        },
        GroupExpression::BinaryComparisonOperator { target, operator, value } => match target {
            GroupComparisonTarget::Aggregate { aggregate } => match aggregate_value(ctx, aggregate, rows) {
                Err(e) => Err(e),
                Ok(l) => match group_comparison_values(ctx, value) {
                    Err(e) => Err(e),
                    Ok(rs) => comparison_outcome(operator@, l, rs, ctx.less),
                },
            },
        },
    }
}

/// Whether all the predicates from the `i`th on hold, tried in order.
pub open spec fn group_all_hold(ctx: Ctx, expressions: Vec<GroupExpression>, i: int, rows: Seq<RowView>) -> Result<bool, Failure>
    decreases expressions, 0int, expressions.len() - i,
{
    if i < 0 || i >= expressions.len() {
        Ok(true)
    } else {
        proof {
            assert(decreases_to!(expressions => expressions@));
        }
        match group_holds(ctx, expressions@[i], rows) {
            Err(e) => Err(e),
            Ok(false) => Ok(false),
            Ok(true) => group_all_hold(ctx, expressions, i + 1, rows),
        }
    }
}

/// Whether one of the predicates from the `i`th on holds, tried in order.
pub open spec fn group_any_holds(ctx: Ctx, expressions: Vec<GroupExpression>, i: int, rows: Seq<RowView>) -> Result<bool, Failure>
    decreases expressions, 0int, expressions.len() - i,
{
    if i < 0 || i >= expressions.len() {
        Ok(false)
    } else {
        proof {
            assert(decreases_to!(expressions => expressions@));
        }
        match group_holds(ctx, expressions@[i], rows) {
            Err(e) => Err(e),
            Ok(true) => Ok(true),
            Ok(false) => group_any_holds(ctx, expressions, i + 1, rows),
        }
    }
}

/// The groups kept, in order: each with its aggregates, when it satisfies
/// the grouping's predicate.
pub open spec fn groups_kept(ctx: Ctx, grouping: Grouping, chunks: Seq<(Seq<Json>, Seq<RowView>)>) -> Result<Seq<(Seq<Json>, Map<Seq<char>, Json>)>, Failure>
    decreases chunks.len(),
{
    if chunks.len() == 0 {
        Ok(Seq::empty())
    } else {
        match groups_kept(ctx, grouping, chunks.drop_last()) {
            Err(e) => Err(e),
            Ok(kept) => match aggregates_value(ctx, grouping.aggregates.items(), chunks.last().1) {
                Err(e) => Err(e),
                Ok(aggregates) => match grouping.predicate {
                    None => Ok(kept.push((chunks.last().0, aggregates))),
                    Some(p) => match group_holds(ctx, p, chunks.last().1) {
                        Err(e) => Err(e),
                        Ok(true) => Ok(kept.push((chunks.last().0, aggregates))),
                        Ok(false) => Ok(kept),
                    },
                },
            },
        }
    }
}

/// The row set a query gives over a collection: the collection sorted, then
/// filtered by the predicate (each row evaluated with the scopes of `root`
/// and itself), then paginated, then its aggregates, groups and rows.
pub open spec fn query_result(ctx: Ctx, q: Query, root: Option<Seq<RowView>>, collection: Seq<RowView>) -> Result<RowSetValue, Failure>
    decreases q, 10int, 0int,
{
    let sorted = match q.order_by {
        None => Ok(collection),
        Some(ob) => sorted_rows(ctx, ob, collection),
    };
    match sorted {
        Err(e) => Err(e),
        Ok(sorted) => {
            let filtered = match q.predicate {
                None => Ok(sorted),
                Some(p) => filter_rows(ctx, p, root, sorted),
            };
            match filtered {
                Err(e) => Err(e),
                Ok(filtered) => {
                    let page = paginated(filtered, q.limit, q.offset);
                    let aggregates = match q.aggregates {
                        None => Ok(None),
                        Some(a) => match aggregates_value(ctx, a.items(), page) {
                            Err(e) => Err(e),
                            Ok(m) => Ok(Some(m)),
                        },
                    };
                    match aggregates {
                        Err(e) => Err(e),
                        Ok(aggregates) => {
                            let groups = match q.groups {
                                None => Ok(None),
                                Some(g) => match groups_value(ctx, g, page) {
                                    Err(e) => Err(e),
                                    Ok(gs) => Ok(Some(gs)),
                                },
                            };
                            match groups {
                                Err(e) => Err(e),
                                Ok(groups) => {
                                    let rows = match q.fields {
                                        None => Ok(None),
                                        Some(f) => match row_list(ctx, f, page) {
                                            Err(e) => Err(e),
                                            Ok(rs) => Ok(Some(rs)),
                                        },
                                    };
                                    match rows {
                                        Err(e) => Err(e),
                                        Ok(rows) => Ok(RowSetValue { aggregates, rows, groups }),
                                    }
                                },
                            }
                        },
                    }
                },
            }
        },
    }
}

/// Rows sorted by insertion: each row, in turn, placed before the first
/// sorted row that compares greater than it.
pub open spec fn sorted_rows(ctx: Ctx, ob: OrderBy, rows: Seq<RowView>) -> Result<Seq<RowView>, Failure>
    decreases rows.len(),
{
    if rows.len() == 0 {
        Ok(Seq::empty())
    } else {
        match sorted_rows(ctx, ob, rows.drop_last()) {
            Err(e) => Err(e),
            Ok(s) => match insertion_point(ctx, ob, s, rows.last()) {
                Err(e) => Err(e),
                Ok(i) => Ok(s.insert(i, rows.last())),
            },
        }
    }
}

/// Where a row is inserted among sorted rows: before the first that
/// compares greater than it.
pub open spec fn insertion_point(ctx: Ctx, ob: OrderBy, sorted: Seq<RowView>, item: RowView) -> Result<int, Failure>
    decreases sorted.len(),
{
    if sorted.len() == 0 {
        Ok(0)
    } else {
        match compare_from(ctx, ob, 0, Order::Equal, sorted[0], item) {
            Err(e) => Err(e),
            Ok(Order::Greater) => Ok(0),
            Ok(_) => match insertion_point(ctx, ob, sorted.drop_first(), item) {
                Err(e) => Err(e),
                Ok(i) => Ok(i + 1),
            },
        }
    }
}

/// The order of two rows by the elements of an ordering from the `i`th
/// on, after the order `acc` of the earlier ones.  Every element is
/// evaluated, whatever the earlier ones gave.
pub open spec fn compare_from(ctx: Ctx, ob: OrderBy, i: int, acc: Order, t1: RowView, t2: RowView) -> Result<Order, Failure>
    decreases ob.elements.len() - i,
{
    if i < 0 || i >= ob.elements.len() {
        Ok(acc)
    } else {
        let element = ob.elements@[i];
        match element_value(ctx, element, t1) {
            Err(e) => Err(e),
            Ok(v1) => match element_value(ctx, element, t2) {
                Err(e) => Err(e),
                Ok(v2) => match directed_order(element.order_direction, v1, v2, ctx.less) {
                    Err(e) => Err(e),
                    Ok(x) => compare_from(ctx, ob, i + 1, then(acc, x), t1, t2),
                },
            },
        }
    }
}

/// The value a row is ordered by for an element of an ordering.
pub open spec fn element_value(ctx: Ctx, element: OrderByElement, item: RowView) -> Result<Json, Failure>
{
    match element.target {
        OrderByTarget::Column { path, name, arguments, field_path } => column_at_path(
            ctx,
            path,
            item,
            name@,
            arguments,
            field_path,
        ),
        OrderByTarget::Aggregate { path, aggregate } => match path_rows(ctx, path, path.len() as int, seq![item]) {
            Err(e) => Err(e),
            Ok(rows) => aggregate_value(ctx, aggregate, rows),
        },
    }
}

/// The value of a column reached from a row through a path of
/// relationships, which may give at most one row; null when it gives none.
pub open spec fn column_at_path(
    ctx: Ctx,
    path: Vec<PathElement>,
    item: RowView,
    name: Seq<char>,
    arguments: Dict<Argument>,
    field_path: Option<Vec<String>>,
) -> Result<Json, Failure> {
    match path_rows(ctx, path, path.len() as int, seq![item]) {
        Err(e) => Err(e),
        Ok(rows) => if rows.len() > 1 {
            Err((400, "path elements used in sorting and grouping cannot yield multiple rows"@))
        } else if rows.len() == 1 {
            column_at(ctx.variables, rows[0], name, field_path, arguments)
        } else {
            Ok(Json::Null)
        },
    }
}

/// The rows reached from rows by the first `n` elements of a path of
/// relationships.
pub open spec fn path_rows(ctx: Ctx, path: Vec<PathElement>, n: int, items: Seq<RowView>) -> Result<Seq<RowView>, Failure>
    decreases path, 4int, n,
{
    if n <= 0 || n > path.len() {
        Ok(items)
    } else {
        match path_rows(ctx, path, n - 1, items) {
            Err(e) => Err(e),
            Ok(rows) => {
                proof {
                    assert(decreases_to!(path => path@));
                }
                let element = path@[n - 1];
                if !ctx.relationships.contains_key(element.relationship@) {
                    Err((400, "invalid relationship name in path"@))
                } else {
                    related_where(ctx, element, ctx.relationships[element.relationship@], rows)
                }
            },
        }
    }
}

/// The rows related to source rows through a path element: its field path
/// and arguments, and its predicate on the target rows.
pub open spec fn related_where(ctx: Ctx, element: PathElement, relationship: Relationship, sources: Seq<RowView>) -> Result<Seq<RowView>, Failure>
    decreases element, 3int, sources.len(),
{
    if sources.len() == 0 {
        Ok(Seq::empty())
    } else {
        match related_where(ctx, element, relationship, sources.drop_last()) {
            Err(e) => Err(e),
            Ok(found) => match source_row(element.field_path, sources.last()) {
                Err(e) => Err(e),
                Ok(src) => match target_rows(ctx, relationship, element.arguments, src) {
                    Err(e) => Err(e),
                    Ok(targets) => match targets_where(ctx, element, relationship, src, targets) {
                        Err(e) => Err(e),
                        Ok(kept) => Ok(found + kept),
                    },
                },
            },
        }
    }
}

/// The target rows that the column mapping relates to a source row and that
/// satisfy the path element's predicate, in order.
pub open spec fn targets_where(ctx: Ctx, element: PathElement, relationship: Relationship, src: RowView, targets: Seq<RowView>) -> Result<Seq<RowView>, Failure>
    decreases element, 2int, targets.len(),
{
    if targets.len() == 0 {
        Ok(Seq::empty())
    } else {
        match targets_where(ctx, element, relationship, src, targets.drop_last()) {
            Err(e) => Err(e),
            Ok(kept) => match mapping_scan(relationship.column_mapping.items(), src, targets.last()) {
                Err(e) => Err(e),
                Ok(false) => Ok(kept),
                Ok(true) => match element.predicate {
                    None => Ok(kept.push(targets.last())),
                    Some(p) => match expr_holds(ctx, *p, Seq::empty(), targets.last()) {
                        Err(e) => Err(e),
                        Ok(true) => Ok(kept.push(targets.last())),
                        Ok(false) => Ok(kept),
                    },
                },
            },
        }
    }
}

/// Whether a predicate holds of a row, with the scopes of the enclosing
/// `exists` expressions.
pub open spec fn expr_holds(ctx: Ctx, e: Expression, scopes: Seq<RowView>, item: RowView) -> Result<bool, Failure>
    decreases e, 5int, 0int,
{
    match e {
        Expression::And { expressions } => all_hold(ctx, expressions, 0, scopes, item),
        Expression::Or { expressions } => any_holds(ctx, expressions, 0, scopes, item),
        Expression::Not { expression } => match expr_holds(ctx, *expression, scopes, item) {
            Err(e) => Err(e),
            Ok(b) => Ok(!b),
        },
        Expression::UnaryComparisonOperator { column, operator } => match target_value(ctx, column, item) {
            Err(e) => Err(e),
            Ok(v) => Ok(v == Json::Null),
        },
        Expression::BinaryComparisonOperator { column, operator, value } => match target_value(ctx, column, item) {
            Err(e) => Err(e),
            Ok(l) => match comparison_values(ctx, value, scopes, item) {
                Err(e) => Err(e),
                Ok(rs) => comparison_outcome(operator@, l, rs, ctx.less),
            },
        },
        Expression::ArrayComparison { column, comparison } => match target_value(ctx, column, item) {
            Err(e) => Err(e),
            Ok(l) => match l {
                Json::Array(ls) => match comparison {
                    ArrayComparison::Contains { value } => match comparison_values(ctx, value, scopes, item) {
                        Err(e) => Err(e),
                        Ok(rs) => Ok(exists|j: int| 0 <= j < rs.len() && ls.contains(#[trigger] rs[j])),
                    },
                    ArrayComparison::IsEmpty => Ok(ls.len() == 0),
                },
                _ => Err((400, "column used in array comparison is not an array"@)),
            },
        },
        Expression::Exists { in_collection, predicate } => match in_collection_rows(ctx, in_collection, item) {
            Err(e) => Err(e),
            Ok(rows) => match predicate {
                None => Ok(rows.len() > 0),
                Some(p) => match filter_rows(ctx, *p, Some(scopes), rows) {
                    Err(e) => Err(e),
                    Ok(kept) => Ok(kept.len() > 0),
                },
            },
        },
    }
}

/// Whether all the predicates from the `i`th on hold, tried in order until
/// one fails or does not hold.
pub open spec fn all_hold(ctx: Ctx, expressions: Vec<Expression>, i: int, scopes: Seq<RowView>, item: RowView) -> Result<bool, Failure>
    decreases expressions, 4int, expressions.len() - i,
{
    if i < 0 || i >= expressions.len() {
        Ok(true)
    } else {
        proof {
            assert(decreases_to!(expressions => expressions@));
        }
        match expr_holds(ctx, expressions@[i], scopes, item) {
            Err(e) => Err(e),
            Ok(false) => Ok(false),
            Ok(true) => all_hold(ctx, expressions, i + 1, scopes, item),
        }
    }
}

/// Whether one of the predicates from the `i`th on holds, tried in order
/// until one fails or holds.
pub open spec fn any_holds(ctx: Ctx, expressions: Vec<Expression>, i: int, scopes: Seq<RowView>, item: RowView) -> Result<bool, Failure>
    decreases expressions, 4int, expressions.len() - i,
{
    if i < 0 || i >= expressions.len() {
        Ok(false)
    } else {
        proof {
            assert(decreases_to!(expressions => expressions@));
        }
        match expr_holds(ctx, expressions@[i], scopes, item) {
            Err(e) => Err(e),
            Ok(true) => Ok(true),
            Ok(false) => any_holds(ctx, expressions, i + 1, scopes, item),
        }
    }
}

/// The value a comparison is made on: a column of the row, or an aggregate
/// over the rows a path of relationships reaches.
pub open spec fn target_value(ctx: Ctx, target: ComparisonTarget, item: RowView) -> Result<Json, Failure>
    decreases target, 5int, 0int,
{
    match target {
        ComparisonTarget::Column { name, arguments, field_path } => column_at(
            ctx.variables,
            item,
            name@,
            field_path,
            arguments,
        ),
        ComparisonTarget::Aggregate { path, aggregate } => match path_rows(ctx, path, path.len() as int, seq![item]) {
            Err(e) => Err(e),
            Ok(rows) => aggregate_value(ctx, aggregate, rows),
        },
    }
}

/// The row of a scope: 0 (or none) is the current row, `s` the `s`th
/// enclosing one.
pub open spec fn scope_row(scope: Option<usize>, scopes: Seq<RowView>, item: RowView) -> Result<RowView, Failure> {
    match scope {
        None => Ok(item),
        Some(s) => if s == 0 {
            Ok(item)
        } else if s < scopes.len() {
            Ok(scopes[scopes.len() - 1 - s])
        } else {
            Err((400, "named scope is invalid"@))
        },
    }
}

/// The values a comparison is made against: a column of the rows a path
/// reaches from a scope's row, a scalar, or a variable.
pub open spec fn comparison_values(ctx: Ctx, value: ComparisonValue, scopes: Seq<RowView>, item: RowView) -> Result<Seq<Json>, Failure>
    decreases value, 5int, 0int,
{
    match value {
        ComparisonValue::Column { path, name, arguments, field_path, scope } => match scope_row(scope, scopes, item) {
            Err(e) => Err(e),
            Ok(r) => match path_rows(ctx, path, path.len() as int, seq![r]) {
                Err(e) => Err(e),
                Ok(rows) => column_values(ctx.variables, rows, name@, field_path, arguments),
            },
        },
        ComparisonValue::Scalar { value } => Ok(seq![value@]),
        ComparisonValue::Variable { name } => if ctx.variables.contains_key(name@) {
            Ok(seq![ctx.variables[name@]])
        } else {
            Err((400, "invalid variable name"@))
        },
    }
}

/// The rows that satisfy a predicate, in order; each row is evaluated with
/// the scopes of `root` and itself.
pub open spec fn filter_rows(ctx: Ctx, e: Expression, root: Option<Seq<RowView>>, rows: Seq<RowView>) -> Result<Seq<RowView>, Failure>
    decreases e, 6int, rows.len(),
{
    if rows.len() == 0 {
        Ok(Seq::empty())
    } else {
        match filter_rows(ctx, e, root, rows.drop_last()) {
            Err(err) => Err(err),
            Ok(kept) => {
                let scopes = match root {
                    Some(sc) => sc.push(rows.last()),
                    None => seq![rows.last()],
                };
                match expr_holds(ctx, e, scopes, rows.last()) {
                    Err(err) => Err(err),
                    Ok(true) => Ok(kept.push(rows.last())),
                    Ok(false) => Ok(kept),
                }
            },
        }
    }
}

/// The fields of each row, in order.
pub open spec fn row_list(ctx: Ctx, fields: Dict<Field>, rows: Seq<RowView>) -> Result<Seq<Map<Seq<char>, Json>>, Failure>
    decreases fields, 4int, rows.len(),
{
    if rows.len() == 0 {
        Ok(Seq::empty())
    } else {
        match row_list(ctx, fields, rows.drop_last()) {
            Err(e) => Err(e),
            Ok(out) => match row_fields(ctx, fields, fields.items().len() as int, rows.last()) {
                Err(e) => Err(e),
                Ok(r) => Ok(out.push(r)),
            },
        }
    }
}

/// The values of the first `n` fields for a row.
pub open spec fn row_fields(ctx: Ctx, fields: Dict<Field>, n: int, item: RowView) -> Result<Map<Seq<char>, Json>, Failure>
    decreases fields, 3int, n,
{
    if n <= 0 || n > fields.items().len() {
        Ok(Map::empty())
    } else {
        match row_fields(ctx, fields, n - 1, item) {
            Err(e) => Err(e),
            Ok(m) => match field_value(ctx, fields.items()[n - 1].1, item) {
                Err(e) => Err(e),
                Ok(v) => Ok(m.insert(fields.items()[n - 1].0, v)),
            },
        }
    }
}

/// The value of a field for a row: a column, with the nested fields it
/// asks for, or the row set of a relationship's query.
pub open spec fn field_value(ctx: Ctx, f: Field, item: RowView) -> Result<Json, Failure>
    decreases f, 5int, 0int,
{
    match f {
        Field::Column { column, fields, arguments } => match column_value(ctx.variables, item, column@, arguments.map()) {
            Err(e) => Err(e),
            Ok(v) => match fields {
                None => Ok(v),
                Some(nf) => nested_value(ctx, nf, v),
            },
        },
        Field::Relationship { query, relationship, arguments } => if !ctx.relationships.contains_key(relationship@) {
            Err((400, "relationship is undefined"@))
        } else {
            match related_rows(ctx, ctx.relationships[relationship@], arguments, seq![item], None) {
                Err(e) => Err(e),
                Ok(collection) => match query_result(ctx, *query, None, collection) {
                    Err(e) => Err(e),
                    Ok(rs) => Ok(rowset_json(rs)),
                },
            }
        },
    }
}

/// The part of a value that nested fields ask for.
pub open spec fn nested_value(ctx: Ctx, nf: NestedField, v: Json) -> Result<Json, Failure>
    decreases nf, 5int, 0int,
{
    match nf {
        NestedField::Object(o) => match v {
            Json::Object(m) => match row_fields(ctx, o.fields, o.fields.items().len() as int, m) {
                Err(e) => Err(e),
                Ok(r) => Ok(Json::Object(r)),
            },
            _ => Err((400, "Expected object"@)),
        },
        NestedField::Array(_) => match v {
            Json::Array(vs) => match nested_list(ctx, nf, vs, vs.len() as int) {
                Err(e) => Err(e),
                Ok(out) => Ok(Json::Array(out)),
            },
            _ => Err((400, "Expected array"@)),
        },
        NestedField::Collection(c) => match objects_of(v) {
            None => Err((500, "cannot decode rows"@)),
            Some(rows) => match query_result(ctx, c.query, None, rows) {
                Err(e) => Err(e),
                Ok(rs) => Ok(rowset_json(rs)),
            },
        },
    }
}

/// The parts of the first `n` elements of an array that an array's nested
/// fields ask for.
pub open spec fn nested_list(ctx: Ctx, nf: NestedField, vs: Seq<Json>, n: int) -> Result<Seq<Json>, Failure>
    decreases nf, 4int, n,
{
    if n <= 0 || n > vs.len() {
        Ok(Seq::empty())
    } else {
        match nested_list(ctx, nf, vs, n - 1) {
            Err(e) => Err(e),
            Ok(out) => match nf {
                NestedField::Array(a) => match nested_value(ctx, *a.fields, vs[n - 1]) {
                    Err(e) => Err(e),
                    Ok(x) => Ok(out.push(x)),
                },
                _ => Ok(out),
            },
        }
    }
}

/// The groups of rows: runs of consecutive rows with the same dimension
/// values, sorted, with their aggregates, filtered, then paginated.
pub open spec fn groups_value(ctx: Ctx, g: Grouping, rows: Seq<RowView>) -> Result<Seq<(Seq<Json>, Map<Seq<char>, Json>)>, Failure>
{
    match dims_list(ctx, g, rows) {
        Err(_) => Err((500, "cannot eval dimensions"@)),
        Ok(dims) => {
            let chunks = chunks_of(rows, dims);
            let sorted = match g.order_by {
                None => Ok(chunks),
                Some(ob) => groups_sorted(ctx, ob.elements@, chunks),
            };
            match sorted {
                Err(e) => Err(e),
                Ok(sorted) => match groups_kept(ctx, g, sorted) {
                    Err(e) => Err(e),
                    Ok(groups) => Ok(paginated(groups, g.limit, g.offset)),
                },
            }
        },
    }
}

/// The dimension values of each row, in order.
pub open spec fn dims_list(ctx: Ctx, g: Grouping, rows: Seq<RowView>) -> Result<Seq<Seq<Json>>, Failure>
    decreases rows.len(),
{
    if rows.len() == 0 {
        Ok(Seq::empty())
    } else {
        match dims_list(ctx, g, rows.drop_last()) {
            Err(e) => Err(e),
            Ok(out) => match row_dims(ctx, g, g.dimensions.len() as int, rows.last()) {
                Err(e) => Err(e),
                Ok(d) => Ok(out.push(d)),
            },
        }
    }
}

/// The values of the first `i` dimensions for a row.
pub open spec fn row_dims(ctx: Ctx, g: Grouping, i: int, row: RowView) -> Result<Seq<Json>, Failure>
    decreases i,
{
    if i <= 0 || i > g.dimensions.len() {
        Ok(Seq::empty())
    } else {
        match row_dims(ctx, g, i - 1, row) {
            Err(e) => Err(e),
            Ok(out) => {
                match dim_value(ctx, g.dimensions@[i - 1], row) {
                    Err(e) => Err(e),
                    Ok(v) => Ok(out.push(v)),
                }
            },
        }
    }
}

/// The value of a dimension for a row: a column reached through a path,
/// with its extraction function applied.
pub open spec fn dim_value(ctx: Ctx, d: Dimension, row: RowView) -> Result<Json, Failure>
{
    match d {
        Dimension::Column { path, column_name, arguments, field_path, extraction } => match column_at_path(
            ctx,
            path,
            row,
            column_name@,
            arguments,
            field_path,
        ) {
            Err(e) => Err(e),
            Ok(v) => extraction_value(
                match extraction {
                    Some(x) => Some(x@),
                    None => None,
                },
                v,
            ),
        },
    }
}

/// The values of a collection's arguments, added in order.
pub open spec fn collection_arguments(variables: Map<Seq<char>, Json>, arguments: Seq<(Seq<char>, Argument)>) -> Result<Map<Seq<char>, Json>, Failure>
    decreases arguments.len(),
{
    if arguments.len() == 0 {
        Ok(Map::empty())
    } else {
        match collection_arguments(variables, arguments.drop_last()) {
            Err(e) => Err(e),
            Ok(m) => match crate::engine::argument_value(variables, arguments.last().1) {
                Err(e) => Err(e),
                Ok(v) => Ok(m.insert(arguments.last().0, v)),
            },
        }
    }
}

/// The row set of a query on a named collection, with one set of
/// variables.
#[verifier::opaque]
pub open spec fn collection_query(ctx: Ctx, collection: Seq<char>, arguments: Seq<(Seq<char>, Argument)>, q: Query) -> Result<RowSetValue, Failure> {
    match collection_arguments(ctx.variables, arguments) {
        Err(e) => Err(e),
        Ok(m) => match collection_rows(ctx.state, collection, m) {
            Err(e) => Err(e),
            Ok(rows) => query_result(ctx, q, None, rows),
        },
    }
}

/// What a request is evaluated against, with one set of variables.
pub open spec fn context_with(ctx: Ctx, variables: Map<Seq<char>, Json>) -> Ctx {
    Ctx { variables, ..ctx }
}

/// The row sets of a query request: one for each set of variables (a
/// single empty one when there are none), in order; the first failure
/// fails the request.
pub open spec fn request_rowsets(ctx: Ctx, collection: Seq<char>, arguments: Seq<(Seq<char>, Argument)>, q: Query, variable_sets: Seq<Map<Seq<char>, Json>>) -> Result<Seq<RowSetValue>, Failure>
    decreases variable_sets.len(),
{
    if variable_sets.len() == 0 {
        Ok(Seq::empty())
    } else {
        match request_rowsets(ctx, collection, arguments, q, variable_sets.drop_last()) {
            Err(e) => Err(e),
            Ok(sets) => match collection_query(context_with(ctx, variable_sets.last()), collection, arguments, q) {
                Err(e) => Err(e),
                Ok(rs) => Ok(sets.push(rs)),
            },
        }
    }
}

/// A column has one value for each row.
proof fn lemma_column_values_len(
    variables: Map<Seq<char>, Json>,
    rows: Seq<RowView>,
    name: Seq<char>,
    field_path: Option<Vec<String>>,
    arguments: Dict<Argument>,
)
    requires
        column_values(variables, rows, name, field_path, arguments) is Ok,
    ensures
        column_values(variables, rows, name, field_path, arguments)->Ok_0.len() == rows.len(),
    decreases rows.len(),
{
    if rows.len() > 0 {
        lemma_column_values_len(variables, rows.drop_last(), name, field_path, arguments);
    }
}

/// There are no more non-null values than values.
proof fn lemma_present_len(vs: Seq<Json>)
    ensures
        present(vs).len() <= vs.len(),
    decreases vs.len(),
{
    if vs.len() > 0 {
        lemma_present_len(vs.drop_last());
    }
}

/// The counts of a column are ordered: the star count is the number of
/// rows, the count of a column is that of its non-null values, at most
/// the star count, and its distinct count is at most its count.
pub proof fn lemma_counts_ordered(
    ctx: Ctx,
    column: String,
    arguments: Dict<Argument>,
    field_path: Option<Vec<String>>,
    rows: Seq<RowView>,
)
    requires
        column_values(ctx.variables, rows, column@, field_path, arguments) is Ok,
    ensures
        aggregate_value(ctx, Aggregate::StarCount {  }, rows) == Ok::<Json, Failure>(Json::Int(rows.len() as int)),
        aggregate_value(ctx, (Aggregate::ColumnCount { column, arguments, field_path, distinct: false }), rows) matches Ok(
            Json::Int(count),
        ) && aggregate_value(ctx, (Aggregate::ColumnCount { column, arguments, field_path, distinct: true }), rows) matches Ok(
            Json::Int(distinct),
        ) && 0 <= distinct <= count <= rows.len(),
{
    let vs = column_values(ctx.variables, rows, column@, field_path, arguments)->Ok_0;
    lemma_column_values_len(ctx.variables, rows, column@, field_path, arguments);
    lemma_present_len(vs);
    present(vs).lemma_cardinality_of_set();
}

/// Whether a value is not null.
pub open spec fn not_null() -> spec_fn(Json) -> bool {
    |v: Json| v != Json::Null
}

/// The values that are not null are the values filtered by not being null.
proof fn lemma_present_filter(vs: Seq<Json>)
    ensures
        present(vs) == vs.filter(not_null()),
    decreases vs.len(),
{
    reveal(Seq::filter);
    if vs.len() > 0 {
        lemma_present_filter(vs.drop_last());
    }
}

/// The count of a column is the number of rows whose value in it is not
/// null, and its distinct count the number of different such values.
pub proof fn lemma_column_count(
    ctx: Ctx,
    column: String,
    arguments: Dict<Argument>,
    field_path: Option<Vec<String>>,
    rows: Seq<RowView>,
)
    requires
        column_values(ctx.variables, rows, column@, field_path, arguments) is Ok,
    ensures
        ({
            let vs = column_values(ctx.variables, rows, column@, field_path, arguments)->Ok_0;
            &&& vs.len() == rows.len()
            &&& aggregate_value(ctx, (Aggregate::ColumnCount { column, arguments, field_path, distinct: false }), rows)
                == Ok::<Json, Failure>(Json::Int(vs.filter(not_null()).len() as int))
            &&& aggregate_value(ctx, (Aggregate::ColumnCount { column, arguments, field_path, distinct: true }), rows)
                == Ok::<Json, Failure>(Json::Int(vs.filter(not_null()).to_set().len() as int))
        }),
{
    let vs = column_values(ctx.variables, rows, column@, field_path, arguments)->Ok_0;
    lemma_column_values_len(ctx.variables, rows, column@, field_path, arguments);
    lemma_present_filter(vs);
}

/// An insertion point lies within the sorted rows.
pub proof fn lemma_insertion_point_bound(ctx: Ctx, ob: OrderBy, sorted: Seq<RowView>, item: RowView)
    ensures
        insertion_point(ctx, ob, sorted, item) matches Ok(p) ==> 0 <= p <= sorted.len(),
    decreases sorted.len(),
{
    if sorted.len() > 0 {
        lemma_insertion_point_bound(ctx, ob, sorted.drop_first(), item);
    }
}

/// Whether the first row does not come after the second by an ordering.
pub open spec fn not_after(ctx: Ctx, ob: OrderBy, a: RowView, b: RowView) -> bool {
    compare_from(ctx, ob, 0, Order::Equal, a, b) matches Ok(o) && o != Order::Greater
}

/// Whether an ordering is a total preorder on a set of rows: it compares
/// any two of them, one comes after another exactly when that other comes
/// before it, and not coming after is transitive.
pub open spec fn total_preorder_on(ctx: Ctx, ob: OrderBy, u: Set<RowView>) -> bool {
    &&& forall|a: RowView, b: RowView|
        u.contains(a) && u.contains(b) ==> #[trigger] compare_from(ctx, ob, 0, Order::Equal, a, b) is Ok
    &&& forall|a: RowView, b: RowView|
        u.contains(a) && u.contains(b) ==> (#[trigger] compare_from(ctx, ob, 0, Order::Equal, a, b) == Ok::<
            Order,
            Failure,
        >(Order::Greater) <==> compare_from(ctx, ob, 0, Order::Equal, b, a) == Ok::<Order, Failure>(Order::Less))
    &&& forall|a: RowView, b: RowView, c: RowView|
        u.contains(a) && u.contains(b) && u.contains(c) && #[trigger] not_after(ctx, ob, a, b) && #[trigger] not_after(
            ctx,
            ob,
            b,
            c,
        ) ==> not_after(ctx, ob, a, c)
}

/// Whether no row comes after a later one.
pub open spec fn sorted_by(ctx: Ctx, ob: OrderBy, s: Seq<RowView>) -> bool {
    forall|i: int, j: int| 0 <= i < j < s.len() ==> not_after(ctx, ob, #[trigger] s[i], #[trigger] s[j])
}

/// The rows before an insertion point do not come after the row inserted,
/// and the row at it comes after it.
proof fn lemma_insertion_point_facts(ctx: Ctx, ob: OrderBy, sorted: Seq<RowView>, item: RowView)
    ensures
        insertion_point(ctx, ob, sorted, item) matches Ok(p) ==> (forall|k: int|
            0 <= k < p ==> not_after(ctx, ob, #[trigger] sorted[k], item)) && (p < sorted.len()
            ==> compare_from(ctx, ob, 0, Order::Equal, sorted[p], item) == Ok::<Order, Failure>(Order::Greater)),
    decreases sorted.len(),
{
    if sorted.len() > 0 {
        let rest = sorted.drop_first();
        lemma_insertion_point_facts(ctx, ob, rest, item);
        lemma_insertion_point_bound(ctx, ob, rest, item);
        match compare_from(ctx, ob, 0, Order::Equal, sorted[0], item) {
            Ok(Order::Greater) => {},
            Ok(o) => {
                match insertion_point(ctx, ob, rest, item) {
                    Ok(i) => {
                        assert(insertion_point(ctx, ob, sorted, item) == Ok::<int, Failure>(i + 1));
                        assert forall|k: int| 0 <= k < i + 1 implies not_after(ctx, ob, #[trigger] sorted[k], item) by {
                            if k > 0 {
                                assert(sorted[k] == rest[k - 1]);
                            }
                        }
                        if i + 1 < sorted.len() {
                            assert(sorted[i + 1] == rest[i]);
                        }
                    },
                    Err(_) => {},
                }
            },
            Err(_) => {},
        }
    }
}

/// Sorting sorts: when the ordering is a total preorder on the rows, no
/// sorted row comes after a later one.
pub proof fn lemma_sorted_rows_sorted(ctx: Ctx, ob: OrderBy, rows: Seq<RowView>, u: Set<RowView>)
    requires
        total_preorder_on(ctx, ob, u),
        forall|i: int| 0 <= i < rows.len() ==> u.contains(#[trigger] rows[i]),
    ensures
        sorted_rows(ctx, ob, rows) matches Ok(s) ==> sorted_by(ctx, ob, s) && forall|i: int|
            0 <= i < s.len() ==> u.contains(#[trigger] s[i]),
    decreases rows.len(),
{
    if rows.len() > 0 {
        let front = rows.drop_last();
        assert forall|i: int| 0 <= i < front.len() implies u.contains(#[trigger] front[i]) by {
            assert(front[i] == rows[i]);
        }
        lemma_sorted_rows_sorted(ctx, ob, front, u);
        let x = rows.last();
        assert(u.contains(rows[rows.len() - 1]));
        match sorted_rows(ctx, ob, front) {
            Ok(prev) => {
                lemma_insertion_point_bound(ctx, ob, prev, x);
                lemma_insertion_point_facts(ctx, ob, prev, x);
                match insertion_point(ctx, ob, prev, x) {
                    Ok(p) => {
                        let s = prev.insert(p, x);
                        assert forall|i: int| 0 <= i < s.len() implies u.contains(#[trigger] s[i]) by {
                            if i < p {
                                assert(s[i] == prev[i]);
                            } else if i > p {
                                assert(s[i] == prev[i - 1]);
                            }
                        }
                        assert forall|i: int, j: int| 0 <= i < j < s.len() implies not_after(ctx, ob, #[trigger] s[i], #[trigger] s[j]) by {
                            if j < p {
                                assert(s[i] == prev[i] && s[j] == prev[j]);
                            } else if j == p {
                                assert(s[i] == prev[i] && s[j] == x);
                            } else if i < p {
                                assert(s[i] == prev[i] && s[j] == prev[j - 1]);
                            } else if i == p {
                                assert(s[i] == x && s[j] == prev[j - 1]);
                                assert(u.contains(prev[p]));
                                assert(u.contains(prev[j - 1]));
                                assert(compare_from(ctx, ob, 0, Order::Equal, prev[p], x) == Ok::<Order, Failure>(Order::Greater));
                                assert(compare_from(ctx, ob, 0, Order::Equal, x, prev[p]) == Ok::<Order, Failure>(Order::Less));
                                assert(not_after(ctx, ob, x, prev[p]));
                                if j - 1 > p {
                                    assert(not_after(ctx, ob, prev[p], prev[j - 1]));
                                }
                            } else {
                                assert(s[i] == prev[i - 1] && s[j] == prev[j - 1]);
                            }
                        }
                    },
                    Err(_) => {},
                }
            },
            Err(_) => {},
        }
    }
}

/// The opposite of an order.
pub open spec fn reversed(o: Order) -> Order {
    match o {
        Order::Less => Order::Greater,
        Order::Equal => Order::Equal,
        Order::Greater => Order::Less,
    }
}

/// Whether the orders of `a` to `b`, `b` to `c` and `a` to `c` fit a total
/// preorder: equal neighbours pass the other order on, and two orders the
/// same way give that order.
pub open spec fn consistent(ab: Order, bc: Order, ac: Order) -> bool {
    &&& ab == Order::Equal ==> ac == bc
    &&& bc == Order::Equal ==> ac == ab
    &&& ab == bc ==> ac == ab
}

/// Whether a value orders: anything but a NaN float.
pub open spec fn orders(v: Json) -> bool {
    crate::engine::is_number(v) ==> crate::engine::orderable(v)
}

/// Under a numeric order, the order of values is a total preorder where it
/// is defined: reversing the values reverses their order, and the orders of
/// three values fit together.
pub proof fn lemma_value_order_laws(v1: Json, v2: Json, v3: Json, less: spec_fn(Json, Json) -> bool)
    requires
        crate::engine::numeric_less(less),
        orders(v1),
        orders(v2),
        orders(v3),
        value_order(v1, v2, less) is Ok,
        value_order(v2, v3, less) is Ok,
        value_order(v1, v3, less) is Ok,
    ensures
        value_order(v2, v1, less) == Ok::<Order, Failure>(reversed(value_order(v1, v2, less)->Ok_0)),
        consistent(value_order(v1, v2, less)->Ok_0, value_order(v2, v3, less)->Ok_0, value_order(v1, v3, less)->Ok_0),
{
    reveal(crate::engine::numeric_less);
    if let (Json::Str(a), Json::Str(b)) = (v1, v2) {
        crate::strings::lemma_lex_flip(a, b);
    }
    if let (Json::Str(a), Json::Str(b), Json::Str(c)) = (v1, v2, v3) {
        crate::strings::lemma_lex_flip(a, b);
        crate::strings::lemma_lex_flip(b, c);
        crate::strings::lemma_lex_flip(a, c);
        crate::strings::lemma_lex_equal(a, b);
        crate::strings::lemma_lex_equal(b, c);
        crate::strings::lemma_lex_equal(a, c);
        if crate::strings::lex_order(a, b) < 0 && crate::strings::lex_order(b, c) < 0 {
            crate::strings::lemma_lex_transitive(a, b, c);
        }
        if crate::strings::lex_order(a, b) > 0 && crate::strings::lex_order(b, c) > 0 {
            crate::strings::lemma_lex_transitive(c, b, a);
        }
    }
    if crate::engine::is_number(v1) && crate::engine::is_number(v2) && crate::engine::is_number(v3) {
        if less(v1, v2) && less(v2, v1) {
            assert(less(v1, v1));
        }
        if less(v2, v3) && less(v3, v2) {
            assert(less(v2, v2));
        }
        if less(v1, v3) && less(v3, v1) {
            assert(less(v1, v1));
        }
        if !less(v1, v2) && !less(v2, v1) && less(v2, v3) && !less(v1, v3) {
            if less(v3, v1) {
                assert(less(v2, v1));
            } else {
                assert(!less(v2, v3));
            }
        }
        if !less(v1, v2) && !less(v2, v1) && less(v3, v2) && !less(v3, v1) {
            if less(v1, v3) {
                assert(less(v1, v2));
            } else {
                assert(!less(v3, v2));
            }
        }
        if !less(v2, v3) && !less(v3, v2) && less(v1, v2) && !less(v1, v3) {
            if less(v3, v1) {
                assert(less(v3, v2));
            } else {
                assert(!less(v1, v2));
            }
        }
        if !less(v2, v3) && !less(v3, v2) && less(v2, v1) && !less(v3, v1) {
            if less(v1, v3) {
                assert(less(v2, v3));
            } else {
                assert(!less(v2, v1));
            }
        }
    }
}

/// Under a numeric order, reversing two values reverses their order.
pub proof fn lemma_value_order_flip(v1: Json, v2: Json, less: spec_fn(Json, Json) -> bool)
    requires
        crate::engine::numeric_less(less),
        orders(v1),
        orders(v2),
        value_order(v1, v2, less) is Ok,
    ensures
        value_order(v2, v1, less) == Ok::<Order, Failure>(reversed(value_order(v1, v2, less)->Ok_0)),
{
    reveal(crate::engine::numeric_less);
    if let (Json::Str(a), Json::Str(b)) = (v1, v2) {
        crate::strings::lemma_lex_flip(a, b);
    }
    if crate::engine::is_number(v1) && crate::engine::is_number(v2) && less(v1, v2) && less(v2, v1) {
        assert(less(v1, v1));
    }
}

/// Whether every value that an ordering gives for a row orders.
pub open spec fn row_orders(ctx: Ctx, ob: OrderBy, t: RowView) -> bool {
    forall|k: int| 0 <= k < ob.elements.len() ==> (#[trigger] element_value(ctx, ob.elements@[k], t) matches Ok(v)
        ==> orders(v))
}

/// Under a numeric order, the order of rows by an ordering is a total
/// preorder where it is defined: reversing two rows reverses their order,
/// and the orders of three rows fit together.
pub proof fn lemma_compare_from_laws(
    ctx: Ctx,
    ob: OrderBy,
    i: int,
    ab: Order,
    bc: Order,
    ac: Order,
    a: RowView,
    b: RowView,
    c: RowView,
)
    requires
        crate::engine::numeric_less(ctx.less),
        consistent(ab, bc, ac),
        0 <= i,
        row_orders(ctx, ob, a),
        row_orders(ctx, ob, b),
        row_orders(ctx, ob, c),
        compare_from(ctx, ob, i, ab, a, b) is Ok,
        compare_from(ctx, ob, i, bc, b, c) is Ok,
        compare_from(ctx, ob, i, ac, a, c) is Ok,
    ensures
        compare_from(ctx, ob, i, reversed(ab), b, a) == Ok::<Order, Failure>(reversed(compare_from(ctx, ob, i, ab, a, b)->Ok_0)),
        consistent(
            compare_from(ctx, ob, i, ab, a, b)->Ok_0,
            compare_from(ctx, ob, i, bc, b, c)->Ok_0,
            compare_from(ctx, ob, i, ac, a, c)->Ok_0,
        ),
    decreases ob.elements.len() - i,
{
    if i < ob.elements.len() {
        let e = ob.elements@[i];
        let va = element_value(ctx, e, a)->Ok_0;
        let vb = element_value(ctx, e, b)->Ok_0;
        let vc = element_value(ctx, e, c)->Ok_0;
        assert(orders(va) && orders(vb) && orders(vc));
        match e.order_direction {
            OrderDirection::Asc => {
                lemma_value_order_laws(va, vb, vc, ctx.less);
            },
            OrderDirection::Desc => {
                lemma_value_order_laws(vc, vb, va, ctx.less);
                lemma_value_order_flip(vb, va, ctx.less);
            },
        }
        let x = directed_order(e.order_direction, va, vb, ctx.less)->Ok_0;
        let y = directed_order(e.order_direction, vb, vc, ctx.less)->Ok_0;
        let z = directed_order(e.order_direction, va, vc, ctx.less)->Ok_0;
        assert(consistent(x, y, z));
        assert(directed_order(e.order_direction, vb, va, ctx.less) == Ok::<Order, Failure>(reversed(x)));
        assert(consistent(then(ab, x), then(bc, y), then(ac, z)));
        assert(then(reversed(ab), reversed(x)) == reversed(then(ab, x)));
        lemma_compare_from_laws(ctx, ob, i + 1, then(ab, x), then(bc, y), then(ac, z), a, b, c);
    }
}

/// Whether every two of a set of rows can be compared by an ordering, and
/// every value the ordering gives for them orders.
pub open spec fn comparable_on(ctx: Ctx, ob: OrderBy, u: Set<RowView>) -> bool {
    &&& forall|a: RowView, b: RowView|
        u.contains(a) && u.contains(b) ==> #[trigger] compare_from(ctx, ob, 0, Order::Equal, a, b) is Ok
    &&& forall|a: RowView| u.contains(a) ==> #[trigger] row_orders(ctx, ob, a)
}

/// Under a numeric order, an ordering that compares every two of a set of
/// rows is a total preorder on them.
pub proof fn lemma_total_preorder(ctx: Ctx, ob: OrderBy, u: Set<RowView>)
    requires
        crate::engine::numeric_less(ctx.less),
        comparable_on(ctx, ob, u),
    ensures
        total_preorder_on(ctx, ob, u),
{
    assert forall|a: RowView, b: RowView|
        u.contains(a) && u.contains(b) implies (#[trigger] compare_from(ctx, ob, 0, Order::Equal, a, b) == Ok::<
        Order,
        Failure,
    >(Order::Greater) <==> compare_from(ctx, ob, 0, Order::Equal, b, a) == Ok::<Order, Failure>(Order::Less)) by {
        assert(row_orders(ctx, ob, a) && row_orders(ctx, ob, b));
        assert(compare_from(ctx, ob, 0, Order::Equal, a, a) is Ok);
        assert(compare_from(ctx, ob, 0, Order::Equal, b, a) is Ok);
        lemma_compare_from_laws(ctx, ob, 0, Order::Equal, Order::Equal, Order::Equal, a, b, a);
    }
    assert forall|a: RowView, b: RowView, c: RowView|
        u.contains(a) && u.contains(b) && u.contains(c) && #[trigger] not_after(ctx, ob, a, b) && #[trigger] not_after(
            ctx,
            ob,
            b,
            c,
        ) implies not_after(ctx, ob, a, c) by {
        assert(row_orders(ctx, ob, a) && row_orders(ctx, ob, b) && row_orders(ctx, ob, c));
        assert(compare_from(ctx, ob, 0, Order::Equal, a, c) is Ok);
        lemma_compare_from_laws(ctx, ob, 0, Order::Equal, Order::Equal, Order::Equal, a, b, c);
    }
}

/// Sorting sorts: under a numeric order, when every two rows can be
/// compared and give values that order, the sorted rows are the rows,
/// rearranged, and no sorted row comes after a later one.
pub proof fn lemma_sort_is_sorted(ctx: Ctx, ob: OrderBy, rows: Seq<RowView>)
    requires
        crate::engine::numeric_less(ctx.less),
        comparable_on(ctx, ob, rows.to_set()),
    ensures
        sorted_rows(ctx, ob, rows) matches Ok(s) ==> sorted_by(ctx, ob, s) && s.to_multiset() == rows.to_multiset(),
{
    lemma_total_preorder(ctx, ob, rows.to_set());
    assert forall|i: int| 0 <= i < rows.len() implies rows.to_set().contains(#[trigger] rows[i]) by {
        assert(rows.contains(rows[i]));
    }
    lemma_sorted_rows_sorted(ctx, ob, rows, rows.to_set());
    lemma_sorted_permutation(ctx, ob, rows);
}

/// Under a numeric order, integers within 2^53 of zero are ordered as
/// integers.
pub proof fn lemma_integer_order(less: spec_fn(Json, Json) -> bool, m: int, n: int)
    requires
        crate::engine::numeric_less(less),
        -0x20_0000_0000_0000 <= m <= 0x20_0000_0000_0000,
        -0x20_0000_0000_0000 <= n <= 0x20_0000_0000_0000,
    ensures
        value_order(Json::Int(m), Json::Int(n), less) == Ok::<Order, Failure>(
            if m < n {
                Order::Less
            } else if m == n {
                Order::Equal
            } else {
                Order::Greater
            },
        ),
{
    reveal(crate::engine::numeric_less);
    if m == n {
        assert(!less(Json::Int(m), Json::Int(m)));
    } else if m > n {
        assert(less(Json::Int(n), Json::Int(m)));
        assert(!less(Json::Int(m), Json::Int(n)));
    } else {
        assert(less(Json::Int(m), Json::Int(n)));
    }
}

/// Sorting neither adds nor loses a row: the sorted rows are the rows,
/// rearranged.
pub proof fn lemma_sorted_permutation(ctx: Ctx, ob: OrderBy, rows: Seq<RowView>)
    ensures
        sorted_rows(ctx, ob, rows) matches Ok(s) ==> s.to_multiset() == rows.to_multiset(),
    decreases rows.len(),
{
    broadcast use vstd::seq_lib::group_to_multiset_ensures;
    if rows.len() > 0 {
        lemma_sorted_permutation(ctx, ob, rows.drop_last());
        match sorted_rows(ctx, ob, rows.drop_last()) {
            Ok(prev) => {
                lemma_insertion_point_bound(ctx, ob, prev, rows.last());
                match insertion_point(ctx, ob, prev, rows.last()) {
                    Ok(p) => {
                        vstd::seq_lib::to_multiset_insert(prev, p, rows.last());
                        assert(rows =~= rows.drop_last().push(rows.last()));
                    },
                    Err(_) => {},
                }
            },
            Err(_) => {},
        }
    }
}

/// Filtering keeps only rows that were there, in their order: the kept
/// rows are no more than the rows, and each is one of them.
pub proof fn lemma_filter_keeps(ctx: Ctx, e: Expression, root: Option<Seq<RowView>>, rows: Seq<RowView>)
    ensures
        filter_rows(ctx, e, root, rows) matches Ok(kept) ==> kept.len() <= rows.len() && forall|i: int| 0 <= i < kept.len() ==> rows.contains(#[trigger] kept[i]),
    decreases rows.len(),
{
    if rows.len() > 0 {
        lemma_filter_keeps(ctx, e, root, rows.drop_last());
        match filter_rows(ctx, e, root, rows) {
            Ok(kept) => {
                let prev = filter_rows(ctx, e, root, rows.drop_last())->Ok_0;
                assert forall|i: int| 0 <= i < kept.len() implies rows.contains(#[trigger] kept[i]) by {
                    if i < prev.len() {
                        assert(kept[i] == prev[i]);
                        assert(rows.drop_last().contains(prev[i]));
                        let j = choose|j: int| 0 <= j < rows.drop_last().len() && rows.drop_last()[j] == prev[i];
                        assert(rows[j] == prev[i]);
                    } else {
                        assert(kept[i] == rows.last());
                        assert(rows[rows.len() - 1] == rows.last());
                    }
                }
            },
            Err(_) => {},
        }
    }
}

/// A page has at most `limit` rows, and all rows when neither a limit nor
/// an offset is given.
pub proof fn lemma_page_bound<T>(s: Seq<T>, limit: Option<u32>, offset: Option<u32>)
    ensures
        limit matches Some(n) ==> paginated(s, limit, offset).len() <= n,
        paginated(s, limit, offset).len() <= s.len(),
        limit is None && offset is None ==> paginated(s, limit, offset) == s,
{
    if limit is None && offset is None {
        assert(paginated(s, limit, offset) =~= s);
    }
}

/// The fields of rows give one row of fields for each row.
pub proof fn lemma_row_list_length(ctx: Ctx, fields: Dict<Field>, rows: Seq<RowView>)
    ensures
        row_list(ctx, fields, rows) matches Ok(out) ==> out.len() == rows.len(),
    decreases rows.len(),
{
    if rows.len() > 0 {
        lemma_row_list_length(ctx, fields, rows.drop_last());
    }
}

/// A query that asks for fields answers at most `limit` rows, and without
/// an ordering, a predicate, a limit or an offset it answers one row for
/// each row of the collection.
pub proof fn lemma_query_rows(ctx: Ctx, q: Query, root: Option<Seq<RowView>>, collection: Seq<RowView>)
    requires
        q.fields is Some,
    ensures
        query_result(ctx, q, root, collection) matches Ok(rs) ==> rs.rows is Some,
        query_result(ctx, q, root, collection) matches Ok(rs) ==> (q.limit matches Some(n) ==> rs.rows->Some_0.len() <= n),
        query_result(ctx, q, root, collection) matches Ok(rs) ==> (q.order_by is None && q.predicate is None && q.limit is None && q.offset is None ==> rs.rows->Some_0.len() == collection.len()),
{
    let sorted = match q.order_by {
        None => Ok(collection),
        Some(ob) => sorted_rows(ctx, ob, collection),
    };
    if let Ok(sorted) = sorted {
        let filtered = match q.predicate {
            None => Ok(sorted),
            Some(p) => filter_rows(ctx, p, root, sorted),
        };
        if let Ok(filtered) = filtered {
            let page = paginated(filtered, q.limit, q.offset);
            lemma_page_bound(filtered, q.limit, q.offset);
            lemma_row_list_length(ctx, q.fields->Some_0, page);
        }
    }
}

/// An empty conjunction holds of every row, so filtering by it keeps all
/// the rows.
pub proof fn lemma_empty_and_keeps_all(ctx: Ctx, es: Vec<Expression>, root: Option<Seq<RowView>>, rows: Seq<RowView>)
    requires
        es.len() == 0,
    ensures
        filter_rows(ctx, Expression::And { expressions: es }, root, rows) == Ok::<Seq<RowView>, Failure>(rows),
    decreases rows.len(),
{
    if rows.len() > 0 {
        lemma_empty_and_keeps_all(ctx, es, root, rows.drop_last());
        let scopes = match root {
            Some(sc) => sc.push(rows.last()),
            None => seq![rows.last()],
        };
        assert(all_hold(ctx, es, 0, scopes, rows.last()) == Ok::<bool, Failure>(true));
        assert(expr_holds(ctx, Expression::And { expressions: es }, scopes, rows.last()) == Ok::<bool, Failure>(true));
        assert(rows.drop_last().push(rows.last()) =~= rows);
    } else {
        assert(rows =~= Seq::<RowView>::empty());
    }
}

/// An empty disjunction holds of no row, so filtering by it keeps none.
pub proof fn lemma_empty_or_keeps_none(ctx: Ctx, es: Vec<Expression>, root: Option<Seq<RowView>>, rows: Seq<RowView>)
    requires
        es.len() == 0,
    ensures
        filter_rows(ctx, Expression::Or { expressions: es }, root, rows) == Ok::<Seq<RowView>, Failure>(Seq::empty()),
    decreases rows.len(),
{
    if rows.len() > 0 {
        lemma_empty_or_keeps_none(ctx, es, root, rows.drop_last());
        let scopes = match root {
            Some(sc) => sc.push(rows.last()),
            None => seq![rows.last()],
        };
        assert(any_holds(ctx, es, 0, scopes, rows.last()) == Ok::<bool, Failure>(false));
        assert(expr_holds(ctx, Expression::Or { expressions: es }, scopes, rows.last()) == Ok::<bool, Failure>(false));
    }
}

/// A query whose predicate is an empty conjunction answers as the same
/// query without a predicate.
pub proof fn lemma_empty_and_is_no_op(ctx: Ctx, q: Query, es: Vec<Expression>, root: Option<Seq<RowView>>, collection: Seq<RowView>)
    requires
        es.len() == 0,
        q.predicate is None,
    ensures
        query_result(ctx, Query { predicate: Some(Expression::And { expressions: es }), ..q }, root, collection)
            == query_result(ctx, q, root, collection),
{
    let sorted = match q.order_by {
        None => Ok(collection),
        Some(ob) => sorted_rows(ctx, ob, collection),
    };
    if let Ok(sorted) = sorted {
        lemma_empty_and_keeps_all(ctx, es, root, sorted);
    }
}

/// A query without an ordering whose predicate is an empty disjunction
/// answers as the same query without a predicate over no rows: in
/// particular, it answers no rows.
pub proof fn lemma_empty_or_answers_no_rows(ctx: Ctx, q: Query, es: Vec<Expression>, root: Option<Seq<RowView>>, collection: Seq<RowView>)
    requires
        es.len() == 0,
        q.predicate is None,
        q.order_by is None,
    ensures
        query_result(ctx, Query { predicate: Some(Expression::Or { expressions: es }), ..q }, root, collection)
            == query_result(ctx, q, root, Seq::empty()),
        q.fields is Some ==> (query_result(ctx, q, root, Seq::empty()) matches Ok(rs) ==> rs.rows == Some(
            Seq::<Map<Seq<char>, Json>>::empty(),
        )),
{
    lemma_empty_or_keeps_none(ctx, es, root, collection);
    let empty = Seq::<RowView>::empty();
    assert(paginated(empty, q.limit, q.offset) =~= empty);
    if q.fields is Some {
        lemma_row_list_length(ctx, q.fields->Some_0, empty);
        if let Ok(out) = row_list(ctx, q.fields->Some_0, empty) {
            assert(out =~= Seq::<Map<Seq<char>, Json>>::empty());
        }
    }
}

/// A request is answered with one row set for each set of variables, in
/// their order.
pub proof fn lemma_one_rowset_per_variable_set(
    ctx: Ctx,
    collection: Seq<char>,
    arguments: Seq<(Seq<char>, Argument)>,
    q: Query,
    variable_sets: Seq<Map<Seq<char>, Json>>,
)
    ensures
        request_rowsets(ctx, collection, arguments, q, variable_sets) matches Ok(sets) ==> sets.len() == variable_sets.len(),
    decreases variable_sets.len(),
{
    if variable_sets.len() > 0 {
        lemma_one_rowset_per_variable_set(ctx, collection, arguments, q, variable_sets.drop_last());
    }
}

} // verus!
