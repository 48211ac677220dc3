use vstd::prelude::*;
use std::collections::BTreeMap;
use crate::dict::Dict;
use crate::engine::FloatAggregate;
use crate::engine::{
    deterministic_average, deterministic_float, orderly_less, json_outcome, row_of_object,
    row_value, server_error, Row, ServerError,
};
use crate::evaluate::{context_of, empty_row, Evaluator};
use crate::json::{json_as_i64, Json, JsonNumber, JsonValue};
use crate::query::{Expression, MutationOperation, MutationOperationResults, MutationRequest, MutationResponse, NestedField, Relationship};
use crate::semantics::{expr_holds, nested_value, Ctx, Failure, RowView};
use crate::state::{column_i64, fits_i32, narrow_i32, row_object, row_views, table_rows, table_view, AppState};

verus! {

/// The article an upsert writes and its id: the `article` argument, an
/// object with an integer `id` that fits in 32 bits.
pub open spec fn article_argument(arguments: Map<Seq<char>, Json>) -> Result<(i32, RowView), Failure> {
    if !arguments.contains_key("article"@) {
        Err((400, "Expected argument 'article'"@))
    } else {
        match arguments["article"@] {
            Json::Object(m) => if !m.contains_key("id"@) {
                Err((400, "article missing field 'id'"@))
            } else {
                match json_as_i64(m["id"@]) {
                    None => Err((400, "id must be an integer"@)),
                    Some(i) => if i32::MIN <= i <= i32::MAX {
                        Ok((i as i32, m))
                    } else {
                        Err((400, "id out of range"@))
                    },
                }
            },
            _ => Err((400, "article must be an object"@)),
        }
    }
}

/// Whether `after` is `before` with the article of an id set to a row with
/// the given meaning, and nothing else changed.
pub open spec fn upserted(before: AppState, after: AppState, id: i32, article: RowView) -> bool {
    &&& after.articles@.dom() == before.articles@.dom().insert(id)
    &&& row_value(after.articles@[id]) == article
    &&& forall|k: i32| k != id && #[trigger] before.articles@.contains_key(k) ==> after.articles@[k] == before.articles@[k]
    &&& after.authors@ == before.authors@
    &&& after.institutions@ == before.institutions@
    &&& after.countries@ == before.countries@
}

/// A value with the nested fields asked for, or whole when none are.
pub open spec fn fields_value(ctx: Ctx, fields: Option<NestedField>, v: Json) -> Result<Json, Failure> {
    match fields {
        None => Ok(v),
        Some(nf) => nested_value(ctx, nf, v),
    }
}

/// What an upsert answers: null when the id was new, else the article it
/// replaced, with the fields asked for.
pub open spec fn upsert_value(ctx: Ctx, fields: Option<NestedField>, previous: Option<RowView>) -> Result<Json, Failure> {
    match previous {
        None => Ok(Json::Null),
        Some(row) => fields_value(ctx, fields, Json::Object(row)),
    }
}

/// The outcome of a procedure, its result taken by its meaning.
pub open spec fn result_outcome(r: Result<MutationOperationResults, ServerError>) -> Result<Json, Failure> {
    match r {
        Ok(MutationOperationResults::Procedure { result }) => Ok(result@),
        Err(e) => Err((e.status, e.message@)),
    }
}

/// What an upsert does: when the arguments name no article, nothing, and
/// it fails; else it sets the article of its id and answers the article it
/// replaced (null when the id was new), with the fields asked for evaluated
/// against the new data.
pub open spec fn upsert_holds<L, F, A>(
    before: AppState,
    after: AppState,
    arguments: Row,
    fields: Option<NestedField>,
    relationships: Map<Seq<char>, Relationship>,
    less: L,
    floats: F,
    average: A,
    outcome: Result<Json, Failure>,
) -> bool where
    L: Fn(&JsonNumber, &JsonNumber) -> bool,
    F: Fn(FloatAggregate, &Vec<JsonNumber>) -> JsonValue,
    A: Fn(i64, usize) -> JsonValue,
 {
    match article_argument(row_value(arguments)) {
        Err(e) => after == before && outcome == Err::<Json, Failure>(e),
        Ok((id, article)) => {
            &&& upserted(before, after, id, article)
            &&& outcome == upsert_value(
                context_of(relationships, Map::<Seq<char>, Json>::empty(), after, less, floats, average),
                fields,
                if before.articles@.contains_key(id) {
                    Some(row_value(before.articles@[id]))
                } else {
                    None
                },
            )
        },
    }
}

/// Sets the article of an id, from the `article` argument: an object with
/// an integer `id`.  Answers null when the id was new, else the article it
/// replaced, with the fields asked for evaluated against the new data.
pub fn execute_upsert_article<L, F, A>(
    state: &mut AppState,
    arguments: &Row,
    fields: &Option<NestedField>,
    collection_relationships: &Dict<Relationship>,
    less: &L,
    floats: &F,
    average: &A,
) -> (r: Result<MutationOperationResults, ServerError>) where
    L: Fn(&JsonNumber, &JsonNumber) -> bool,
    F: Fn(FloatAggregate, &Vec<JsonNumber>) -> JsonValue,
    A: Fn(i64, usize) -> JsonValue,

    requires
        orderly_less(*less),
        deterministic_float(*floats),
        deterministic_average(*average),
    ensures
        upsert_holds(*old(state), *final(state), *arguments, *fields, collection_relationships.map(), *less, *floats, *average, result_outcome(r)),
{
    broadcast use vstd::laws_cmp::group_laws_cmp;
    proof {
        reveal_strlit("article");
        reveal_strlit("id");
        reveal_strlit("Expected argument 'article'");
        reveal_strlit("article must be an object");
        reveal_strlit("article missing field 'id'");
        reveal_strlit("id must be an integer");
        reveal_strlit("id out of range");
    }
    let key = "article".to_string();
    proof {
        crate::engine::lemma_row_get(*arguments, key@);
    }
    let article = match arguments.get(&key) {
        None => {
            return Err(server_error(400, "Expected argument 'article'"));
        },
        Some(a) => a,
    };
    let entries = match article {
        JsonValue::Object(es) => es,
        _ => {
            return Err(server_error(400, "article must be an object"));
        },
    };
    proof {
        crate::json::lemma_object_view(*entries);
    }
    let row = row_of_object(entries);
    let id: i32 = match column_i64(&row, "id") {
        None => {
            return Err(server_error(400, "article missing field 'id'"));
        },
        Some(None) => {
            return Err(server_error(400, "id must be an integer"));
        },
        Some(Some(i)) => {
            if !fits_i32(i) {
                return Err(server_error(400, "id out of range"));
            }
            narrow_i32(i)
        },
    };
    let ghost before = *state;
    let ghost article_view = row_value(row);
    let previous = state.articles.insert(id, row);
    proof {
        assert(vstd::laws_cmp::obeys_cmp::<i32>());
        assert(state.articles@ == before.articles@.insert(id, state.articles@[id]));
        assert(upserted(before, *state, id, article_view));
    }
    let value = match previous {
        None => {
            return Ok(MutationOperationResults::Procedure { result: JsonValue::Null });
        },
        Some(old_row) => row_object(&old_row),
    };
    let no_variables = empty_row();
    let evaluator = Evaluator {
        relationships: collection_relationships,
        variables: &no_variables,
        state: &*state,
        less,
        floats,
        average,
    };
    proof {
        reveal(context_of);
    }
    let result = match fields {
        None => value,
        Some(nf) => evaluator.nested_value(nf, &value)?,
    };
    Ok(MutationOperationResults::Procedure { result })
}

/// Whether a parser of predicates accepts every value and gives the same
/// answer for the same value.
pub open spec fn deterministic_parse<P: Fn(&JsonValue) -> Option<Expression>>(parse: P) -> bool {
    &&& forall|v: &JsonValue| parse.requires((v,))
    &&& forall|v: &JsonValue, x: Option<Expression>, y: Option<Expression>|
        #![trigger parse.ensures((v,), x), parse.ensures((v,), y)]
        parse.ensures((v,), x) && parse.ensures((v,), y) ==> x == y
}

/// The predicate a parser reads from a value.
pub open spec fn parsed<P: Fn(&JsonValue) -> Option<Expression>>(parse: P, v: JsonValue) -> Option<Expression> {
    choose|e: Option<Expression>| parse.ensures((&v,), e)
}

/// The rows that satisfy a predicate, evaluated with no enclosing scopes,
/// in order.
pub open spec fn matching_rows(ctx: Ctx, e: Expression, rows: Seq<RowView>) -> Result<Seq<RowView>, Failure>
    decreases rows.len(),
{
    if rows.len() == 0 {
        Ok(Seq::empty())
    } else {
        match matching_rows(ctx, e, rows.drop_last()) {
            Err(err) => Err(err),
            Ok(kept) => match expr_holds(ctx, e, Seq::empty(), rows.last()) {
                Err(err) => Err(err),
                Ok(true) => Ok(kept.push(rows.last())),
                Ok(false) => Ok(kept),
            },
        }
    }
}

/// Rows as JSON objects.
pub open spec fn row_objects(rows: Seq<RowView>) -> Seq<Json> {
    rows.map_values(|r: RowView| Json::Object(r))
}

/// What a deletion answers: the articles that the `where` argument's
/// predicate holds of (evaluated with no relationships or variables), in
/// the order of their ids, with the fields asked for.
pub open spec fn delete_value<P: Fn(&JsonValue) -> Option<Expression>>(
    ctx_where: Ctx,
    ctx_fields: Ctx,
    fields: Option<NestedField>,
    parse: P,
    arguments: Row,
) -> Result<Json, Failure> {
    if !arguments.map().contains_key("where"@) {
        Err((400, "Expected argument 'where'"@))
    } else {
        match parsed(parse, arguments.map()["where"@]) {
            None => Err((400, "Bad predicate"@)),
            Some(e) => match matching_rows(ctx_where, e, table_view(ctx_where.state.articles@)) {
                Err(err) => Err(err),
                Ok(rows) => fields_value(ctx_fields, fields, Json::Array(row_objects(rows))),
            },
        }
    }
}

/// The ids of the articles that a predicate holds of, evaluated with no
/// enclosing scopes.
pub open spec fn matched_ids(ctx: Ctx, e: Expression, articles: Map<i32, Row>) -> Set<i32> {
    articles.dom().filter(|k: i32| expr_holds(ctx, e, Seq::empty(), row_value(articles[k])) == Ok::<bool, Failure>(true))
}

/// The articles that remain after a deletion: those that the `where`
/// argument's predicate does not hold of.
pub open spec fn remaining_articles<P: Fn(&JsonValue) -> Option<Expression>>(
    ctx: Ctx,
    parse: P,
    arguments: Row,
    articles: Map<i32, Row>,
) -> Map<i32, Row> {
    match parsed(parse, arguments.map()["where"@]) {
        Some(e) => articles.remove_keys(matched_ids(ctx, e, articles)),
        None => articles,
    }
}

/// What a deletion does to the data: when it answers, the matching
/// articles are gone and nothing else changed; when it fails, nothing
/// changed.
pub open spec fn deleted<P: Fn(&JsonValue) -> Option<Expression>>(
    before: AppState,
    after: AppState,
    ctx: Ctx,
    parse: P,
    arguments: Row,
    answered: bool,
) -> bool {
    if answered {
        &&& after.articles@ == remaining_articles(ctx, parse, arguments, before.articles@)
        &&& after.authors@ == before.authors@
        &&& after.institutions@ == before.institutions@
        &&& after.countries@ == before.countries@
    } else {
        after == before
    }
}

/// The ids among the first `n` keys whose flag is set.
pub open spec fn flagged(keys: Seq<i32>, flags: Seq<bool>, n: int) -> Set<i32>
    decreases n,
{
    if n <= 0 {
        Set::empty()
    } else if flags[n - 1] {
        flagged(keys, flags, n - 1).insert(keys[n - 1])
    } else {
        flagged(keys, flags, n - 1)
    }
}

/// The ids of all keys whose flag is set.
pub open spec fn all_flagged(keys: Seq<i32>, flags: Seq<bool>) -> Set<i32> {
    flagged(keys, flags, keys.len() as int)
}

/// An id is flagged exactly when one of the first `n` keys is that id with
/// its flag set.
proof fn lemma_flagged(keys: Seq<i32>, flags: Seq<bool>, n: int, k: i32)
    requires
        0 <= n,
    ensures
        flagged(keys, flags, n).contains(k) <==> exists|j: int| 0 <= j < n && keys[j] == k && flags[j],
    decreases n,
{
    if n > 0 {
        lemma_flagged(keys, flags, n - 1, k);
        if flags[n - 1] && keys[n - 1] == k {
            assert(0 <= n - 1 < n && keys[n - 1] == k && flags[n - 1]);
        }
        if exists|j: int| 0 <= j < n && keys[j] == k && flags[j] {
            let j = choose|j: int| 0 <= j < n && keys[j] == k && flags[j];
            if j < n - 1 {
                assert(0 <= j < n - 1 && keys[j] == k && flags[j]);
            }
        }
    }
}

/// A position of a sequence, as an integer.
pub open spec fn position(j: usize) -> int {
    j as int
}

/// Removes the keys whose flags are set.
fn remove_flagged(articles: &mut BTreeMap<i32, Row>, keys: &Vec<i32>, flags: &Vec<bool>)
    requires
        flags@.len() == keys@.len(),
    ensures
        final(articles)@ == old(articles)@.remove_keys(all_flagged(keys@, flags@)),
{
    broadcast use vstd::std_specs::btree::axiom_deref_key_removed;
    let ghost start = *articles;
    let mut j: usize = 0;
    while j < keys.len()
        invariant
            j <= keys.len(),
            flags@.len() == keys@.len(),
            articles@ == start@.remove_keys(flagged(keys@, flags@, position(j))),
        decreases keys.len() - j,
    {
        if flags[j] {
            let ghost before = articles@;
            let k = keys[j];
            articles.remove(&k);
            proof {
                assert(vstd::laws_cmp::obeys_cmp::<i32>());
                assert(articles@ == before.remove(k));
                assert(articles@ =~= start@.remove_keys(flagged(keys@, flags@, position(j) + 1)));
            }
        } else {
            proof {
                assert(flagged(keys@, flags@, position(j) + 1) == flagged(keys@, flags@, position(j)));
            }
        }
        j += 1;
    }
}

/// Deletes the articles that the `where` argument's predicate holds of
/// (evaluated with no relationships or variables), and answers them with
/// the fields asked for, evaluated against the data before the deletion.
/// Nothing changes when it fails.  `parse` reads a predicate from JSON.
#[verifier::rlimit(60)]
pub fn execute_delete_articles<P, L, F, A>(
    state: &mut AppState,
    arguments: &Row,
    fields: &Option<NestedField>,
    collection_relationships: &Dict<Relationship>,
    parse: &P,
    less: &L,
    floats: &F,
    average: &A,
) -> (r: Result<MutationOperationResults, ServerError>) where
    P: Fn(&JsonValue) -> Option<Expression>,
    L: Fn(&JsonNumber, &JsonNumber) -> bool,
    F: Fn(FloatAggregate, &Vec<JsonNumber>) -> JsonValue,
    A: Fn(i64, usize) -> JsonValue,

    requires
        deterministic_parse(*parse),
        orderly_less(*less),
        deterministic_float(*floats),
        deterministic_average(*average),
    ensures
        result_outcome(r) == delete_value(
            context_of(Map::<Seq<char>, Relationship>::empty(), Map::<Seq<char>, Json>::empty(), *old(state), *less, *floats, *average),
            context_of(collection_relationships.map(), Map::<Seq<char>, Json>::empty(), *old(state), *less, *floats, *average),
            *fields,
            *parse,
            *arguments,
        ),
        deleted(
            *old(state),
            *final(state),
            context_of(Map::<Seq<char>, Relationship>::empty(), Map::<Seq<char>, Json>::empty(), *old(state), *less, *floats, *average),
            *parse,
            *arguments,
            r is Ok,
        ),
{
    proof {
        reveal_strlit("where");
        reveal_strlit("Expected argument 'where'");
        reveal_strlit("Bad predicate");
        reveal(context_of);
    }
    let key = "where".to_string();
    let predicate_value = match arguments.get(&key) {
        None => {
            return Err(server_error(400, "Expected argument 'where'"));
        },
        Some(v) => v,
    };
    let parsed_predicate = parse(predicate_value);
    let predicate = match parsed_predicate {
        None => {
            return Err(server_error(400, "Bad predicate"));
        },
        Some(e) => e,
    };
    proof {
        assert(parse.ensures((predicate_value,), parsed_predicate));
        assert(parsed(*parse, *predicate_value) == Some(predicate));
    }
    let ghost start = *state;
    let no_relationships: Dict<Relationship> = Dict::new();
    let no_variables = empty_row();
    let finder = Evaluator {
        relationships: &no_relationships,
        variables: &no_variables,
        state: &*state,
        less,
        floats,
        average,
    };
    let ghost ctx = finder.ctx();
    proof {
        assert(no_relationships.map() =~= Map::<Seq<char>, Relationship>::empty());
    }
    let articles = table_rows(&state.articles);
    let keys = crate::state::table_keys(&state.articles);
    let ghost s = row_views(articles@);
    proof {
        assert(s.len() == keys@.len());
        assert forall|j: int| 0 <= j < s.len() implies #[trigger] s[j] == row_value(start.articles@[keys@[j]]) by {
            assert(table_view(start.articles@)[j] == row_value(start.articles@[keys@[j]]));
        }
    }
    let no_scopes: Vec<Row> = Vec::new();
    proof {
        assert(row_views(no_scopes@) =~= Seq::<RowView>::empty());
    }
    let mut removed: Vec<JsonValue> = Vec::new();
    let mut flags: Vec<bool> = Vec::new();
    let mut i: usize = 0;
    proof {
        assert(s.take(0) =~= Seq::<RowView>::empty());
        assert(crate::json::views(removed@) =~= row_objects(Seq::<RowView>::empty()));
    }
    while i < articles.len()
        invariant
            finder.well_formed(),
            ctx == finder.ctx(),
            s == row_views(articles@),
            s.len() == keys@.len(),
            row_views(no_scopes@) == Seq::<RowView>::empty(),
            s == table_view(start.articles@),
            *finder.state == start,
            start == *old(state),
            arguments.map().contains_key("where"@),
            parsed(*parse, arguments.map()["where"@]) == Some(predicate),
            ctx == context_of(Map::<Seq<char>, Relationship>::empty(), Map::<Seq<char>, Json>::empty(), start, *less, *floats, *average),
            i <= articles.len(),
            flags.len() == i,
            forall|j: int| 0 <= j < i ==> (#[trigger] flags@[j] <==> expr_holds(ctx, predicate, Seq::empty(), s[j]) == Ok::<bool, Failure>(true)),
            matching_rows(ctx, predicate, s.take(i as int)) matches Ok(kept) && crate::json::views(removed@) == row_objects(kept),
        decreases articles.len() - i,
    {
        proof {
            assert(s.take(i + 1).drop_last() =~= s.take(i as int));
            assert(s.take(i + 1).last() == row_value(articles@[i as int]));
        }
        match finder.expr_holds(&predicate, &no_scopes, &articles[i]) {
            Err(e) => {
                proof {
                    reveal(context_of);
                    lemma_matching_prefix(ctx, predicate, s, i + 1);
                }
                return Err(e);
            },
            Ok(true) => {
                let ghost before = removed@;
                removed.push(row_object(&articles[i]));
                flags.push(true);
                proof {
                    assert(flags@[i as int] <==> expr_holds(ctx, predicate, Seq::empty(), s[i as int]) == Ok::<bool, Failure>(true));
                    let kept = matching_rows(ctx, predicate, s.take(i as int))->Ok_0;
                    assert(row_objects(kept.push(row_value(articles@[i as int]))) =~= row_objects(kept).push(Json::Object(row_value(articles@[i as int]))));
                    assert(crate::json::views(removed@) =~= crate::json::views(before).push(Json::Object(row_value(articles@[i as int]))));
                }
            },
            Ok(false) => {
                flags.push(false);
                proof {
                    assert(flags@[i as int] <==> expr_holds(ctx, predicate, Seq::empty(), s[i as int]) == Ok::<bool, Failure>(true));
                }
            },
        }
        i += 1;
    }
    proof {
        assert(s.take(i as int) =~= s);
    }
    let ghost rv = crate::json::views(removed@);
    let removed_value = JsonValue::Array(removed);
    proof {
        crate::json::lemma_array_view(removed);
    }
    let shaper = Evaluator {
        relationships: collection_relationships,
        variables: &no_variables,
        state: &*state,
        less,
        floats,
        average,
    };
    let result = match fields {
        None => removed_value,
        Some(nf) => shaper.nested_value(nf, &removed_value)?,
    };
    let ghost kept_tables = *state;
    remove_flagged(&mut state.articles, &keys, &flags);
    proof {
        assert(state.authors@ == kept_tables.authors@);
    }
    proof {
        let m = start.articles@;
        assert(keys@.to_set() == m.dom());
        assert forall|k: i32| #[trigger] flagged(keys@, flags@, keys@.len() as int).contains(k) <==> matched_ids(ctx, predicate, m).contains(k) by {
            lemma_flagged(keys@, flags@, keys@.len() as int, k);
            if m.dom().contains(k) {
                assert(keys@.to_set().contains(k));
                assert(keys@.contains(k));
                let jj = choose|jj: int| 0 <= jj < keys@.len() && keys@[jj] == k;
                assert(s[jj] == row_value(m[keys@[jj]]));
                assert(flags@[jj] <==> expr_holds(ctx, predicate, Seq::empty(), s[jj]) == Ok::<bool, Failure>(true));
            }
            if exists|jj: int| 0 <= jj < keys@.len() && keys@[jj] == k && flags@[jj] {
                let jj = choose|jj: int| 0 <= jj < keys@.len() && keys@[jj] == k && flags@[jj];
                assert(keys@.contains(k));
                assert(keys@.to_set().contains(k));
                assert(s[jj] == row_value(m[keys@[jj]]));
                assert(flags@[jj] <==> expr_holds(ctx, predicate, Seq::empty(), s[jj]) == Ok::<bool, Failure>(true));
            }
        }
        assert(flagged(keys@, flags@, keys@.len() as int) =~= matched_ids(ctx, predicate, m));
    }
    Ok(MutationOperationResults::Procedure { result })
}

/// A failure in the first rows is a failure of all of them.
proof fn lemma_matching_prefix(ctx: Ctx, e: Expression, s: Seq<RowView>, k: int)
    requires
        0 <= k <= s.len(),
        matching_rows(ctx, e, s.take(k)) is Err,
    ensures
        matching_rows(ctx, e, s) == matching_rows(ctx, e, s.take(k)),
    decreases s.len(),
{
    if k < s.len() {
        assert(s.drop_last().take(k) =~= s.take(k));
        lemma_matching_prefix(ctx, e, s.drop_last(), k);
    } else {
        assert(s.take(k) =~= s);
    }
}


/// What a procedure does: an upsert, a deletion, or a failure for any
/// other name, which changes nothing.
pub open spec fn procedure_holds<P, L, F, A>(
    before: AppState,
    after: AppState,
    name: Seq<char>,
    arguments: Row,
    fields: Option<NestedField>,
    relationships: Map<Seq<char>, Relationship>,
    parse: P,
    less: L,
    floats: F,
    average: A,
    outcome: Result<Json, Failure>,
) -> bool where
    P: Fn(&JsonValue) -> Option<Expression>,
    L: Fn(&JsonNumber, &JsonNumber) -> bool,
    F: Fn(FloatAggregate, &Vec<JsonNumber>) -> JsonValue,
    A: Fn(i64, usize) -> JsonValue,
 {
    if name == "upsert_article"@ {
        upsert_holds(before, after, arguments, fields, relationships, less, floats, average, outcome)
    } else if name == "delete_articles"@ {
        &&& deleted(
            before,
            after,
            context_of(Map::<Seq<char>, Relationship>::empty(), Map::<Seq<char>, Json>::empty(), before, less, floats, average),
            parse,
            arguments,
            outcome is Ok,
        )
        &&& outcome == delete_value(
            context_of(Map::<Seq<char>, Relationship>::empty(), Map::<Seq<char>, Json>::empty(), before, less, floats, average),
            context_of(relationships, Map::<Seq<char>, Json>::empty(), before, less, floats, average),
            fields,
            parse,
            arguments,
        )
    } else {
        after == before && outcome == Err::<Json, Failure>((400, "unknown procedure"@))
    }
}

/// Runs a procedure by its name: `upsert_article` or `delete_articles`.
pub fn execute_procedure<P, L, F, A>(
    state: &mut AppState,
    name: &String,
    arguments: &Row,
    fields: &Option<NestedField>,
    collection_relationships: &Dict<Relationship>,
    parse: &P,
    less: &L,
    floats: &F,
    average: &A,
) -> (r: Result<MutationOperationResults, ServerError>) where
    P: Fn(&JsonValue) -> Option<Expression>,
    L: Fn(&JsonNumber, &JsonNumber) -> bool,
    F: Fn(FloatAggregate, &Vec<JsonNumber>) -> JsonValue,
    A: Fn(i64, usize) -> JsonValue,

    requires
        deterministic_parse(*parse),
        orderly_less(*less),
        deterministic_float(*floats),
        deterministic_average(*average),
    ensures
        procedure_holds(*old(state), *final(state), name@, *arguments, *fields, collection_relationships.map(), *parse, *less, *floats, *average, result_outcome(r)),
{
    proof {
        reveal_strlit("upsert_article");
        reveal_strlit("delete_articles");
        reveal_strlit("unknown procedure");
    }
    if crate::engine::is_name(name, "upsert_article") {
        execute_upsert_article(state, arguments, fields, collection_relationships, less, floats, average)
    } else if crate::engine::is_name(name, "delete_articles") {
        execute_delete_articles(state, arguments, fields, collection_relationships, parse, less, floats, average)
    } else {
        Err(server_error(400, "unknown procedure"))
    }
}

/// The results of mutation operations taken by their meaning.
pub open spec fn results_view(rs: Seq<MutationOperationResults>) -> Seq<Json> {
    rs.map_values(|r: MutationOperationResults| match r {
        MutationOperationResults::Procedure { result } => result@,
    })
}

/// Answers a mutation request: at most one operation is run, and a request
/// with more fails as not implemented, changing nothing.
pub fn execute_mutation_request<P, L, F, A>(
    state: &mut AppState,
    request: &MutationRequest,
    parse: &P,
    less: &L,
    floats: &F,
    average: &A,
) -> (r: Result<MutationResponse, ServerError>) where
    P: Fn(&JsonValue) -> Option<Expression>,
    L: Fn(&JsonNumber, &JsonNumber) -> bool,
    F: Fn(FloatAggregate, &Vec<JsonNumber>) -> JsonValue,
    A: Fn(i64, usize) -> JsonValue,

    requires
        deterministic_parse(*parse),
        orderly_less(*less),
        deterministic_float(*floats),
        deterministic_average(*average),
    ensures
        request.operations.len() > 1 ==> *final(state) == *old(state) && (r matches Err(e) && e.status == 501 && e.message@ == "transactional mutations are not supported"@),
        request.operations.len() == 0 ==> *final(state) == *old(state) && (r matches Ok(response) && response.operation_results.len() == 0),
        request.operations.len() == 1 ==> (r matches Ok(response) ==> response.operation_results.len() == 1),
        request.operations.len() == 1 ==> match request.operations[0] {
            MutationOperation::Procedure { name, arguments, fields } => {
                let outcome = match r {
                    Ok(response) => Ok(results_view(response.operation_results@)[0]),
                    Err(e) => Err((e.status, e.message@)),
                };
                procedure_holds(*old(state), *final(state), name@, arguments, fields, request.collection_relationships.map(), *parse, *less, *floats, *average, outcome)
            },
        },
{
    proof {
        reveal_strlit("transactional mutations are not supported");
    }
    if request.operations.len() > 1 {
        return Err(server_error(501, "transactional mutations are not supported"));
    }
    let mut operation_results: Vec<MutationOperationResults> = Vec::new();
    if request.operations.len() == 1 {
        match &request.operations[0] {
            MutationOperation::Procedure { name, arguments, fields } => {
                let result = execute_procedure(state, name, arguments, fields, &request.collection_relationships, parse, less, floats, average)?;
                operation_results.push(result);
            },
        }
    }
    Ok(MutationResponse { operation_results })
}


/// A key of a table finds its row among the table's rows.
proof fn lemma_table_has(m: Map<i32, Row>, k: i32)
    requires
        m.dom().finite(),
        m.contains_key(k),
    ensures
        table_view(m).contains(row_value(m[k])),
{
    broadcast use vstd::seq_lib::group_seq_properties;
    crate::state::lemma_ascending_exists(m.dom());
    let ks = crate::state::ascending_keys(m.dom());
    assert(ks.to_set().contains(k));
    assert(ks.contains(k));
    let j = choose|j: int| 0 <= j < ks.len() && ks[j] == k;
    assert(table_view(m)[j] == row_value(m[k]));
}

/// After an upsert, reading the articles gives back the article written,
/// and every other article that was there before.
pub proof fn lemma_upsert_read_back(before: AppState, after: AppState, id: i32, article: RowView, arguments: Map<Seq<char>, Json>)
    requires
        upserted(before, after, id, article),
    ensures
        crate::state::collection_rows(after, "articles"@, arguments) == Ok::<Seq<RowView>, Failure>(table_view(after.articles@)),
        table_view(after.articles@).contains(article),
        forall|k: i32| k != id && #[trigger] before.articles@.contains_key(k) ==> table_view(after.articles@).contains(row_value(before.articles@[k])),
{
    reveal_strlit("articles");
    assert(after.articles@.contains_key(id));
    lemma_table_has(after.articles@, id);
    assert forall|k: i32| k != id && #[trigger] before.articles@.contains_key(k) implies table_view(after.articles@).contains(row_value(before.articles@[k])) by {
        assert(after.articles@.contains_key(k));
        lemma_table_has(after.articles@, k);
    }
}

} // verus!
