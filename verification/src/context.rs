use vstd::prelude::*;
use crate::dict::Dict;
use crate::error::Error;
use crate::json::{views, Json, JsonValue};
use crate::query::RowFieldValue;
use crate::schema::{ObjectField, ObjectType};
use crate::strings::{lemma_lex_equal, lemma_lex_flip, lemma_lex_transitive, lex_order, string_order};

verus! {

/// What a sample of rows of a collection holds: for each column with a
/// non-null value, those values in the order of the rows, columns in
/// ascending order of their names.
pub struct Context<'a> {
    pub collection_type: &'a ObjectType,
    pub values: Vec<(String, Vec<JsonValue>)>,
}

/// The columns of a context with their values, by their views.
pub open spec fn entries_view(values: Seq<(String, Vec<JsonValue>)>) -> Seq<(Seq<char>, Seq<Json>)> {
    values.map_values(|e: (String, Vec<JsonValue>)| (e.0@, views(e.1@)))
}

/// The columns and values of a row, in its order.
pub open spec fn row_pairs(row: Dict<RowFieldValue>) -> Seq<(Seq<char>, Json)> {
    row.items().map_values(|e: (Seq<char>, RowFieldValue)| (e.0, e.1.0@))
}

/// The columns and values of rows, row after row.
pub open spec fn all_pairs(rows: Seq<Dict<RowFieldValue>>) -> Seq<(Seq<char>, Json)>
    decreases rows.len(),
{
    if rows.len() == 0 {
        Seq::empty()
    } else {
        all_pairs(rows.drop_last()) + row_pairs(rows.last())
    }
}

/// The non-null values of a column, in order.
pub open spec fn present_values(pairs: Seq<(Seq<char>, Json)>, column: Seq<char>) -> Seq<Json>
    decreases pairs.len(),
{
    if pairs.len() == 0 {
        Seq::empty()
    } else if pairs.last().0 == column && !(pairs.last().1 is Null) {
        present_values(pairs.drop_last(), column).push(pairs.last().1)
    } else {
        present_values(pairs.drop_last(), column)
    }
}

/// The first field, in the order of the type, that a row lacks.
pub open spec fn missing_in(fields: Seq<(Seq<char>, ObjectField)>, row: Map<Seq<char>, RowFieldValue>) -> Option<Seq<char>>
    decreases fields.len(),
{
    if fields.len() == 0 {
        None
    } else {
        match missing_in(fields.drop_last(), row) {
            Some(m) => Some(m),
            None => if row.contains_key(fields.last().0) {
                None
            } else {
                Some(fields.last().0)
            },
        }
    }
}

/// The first field missing from the first row that lacks one.
pub open spec fn first_missing(fields: Seq<(Seq<char>, ObjectField)>, rows: Seq<Dict<RowFieldValue>>) -> Option<Seq<char>>
    decreases rows.len(),
{
    if rows.len() == 0 {
        None
    } else {
        match first_missing(fields, rows.drop_last()) {
            Some(m) => Some(m),
            None => missing_in(fields, rows.last().map()),
        }
    }
}

/// Whether entries list, in strictly ascending order of their names, each
/// column with a non-null value among the pairs, with all its non-null
/// values.
pub open spec fn columns_of(entries: Seq<(Seq<char>, Seq<Json>)>, pairs: Seq<(Seq<char>, Json)>) -> bool {
    &&& forall|i: int, j: int| 0 <= i < j < entries.len() ==> lex_order(#[trigger] entries[i].0, #[trigger] entries[j].0) < 0
    &&& forall|i: int| 0 <= i < entries.len() ==> #[trigger] entries[i].1 == present_values(pairs, entries[i].0) && entries[i].1.len() > 0
    &&& forall|c: Seq<char>| #[trigger] present_values(pairs, c).len() > 0 ==> exists|i: int| 0 <= i < entries.len() && entries[i].0 == c
}

/// Adding a pair adds its value to its column, when it is not null.
proof fn lemma_present_push(pairs: Seq<(Seq<char>, Json)>, p: (Seq<char>, Json), c: Seq<char>)
    ensures
        present_values(pairs.push(p), c) == if p.0 == c && !(p.1 is Null) {
            present_values(pairs, c).push(p.1)
        } else {
            present_values(pairs, c)
        },
{
    assert(pairs.push(p).drop_last() =~= pairs);
}

/// The pairs of the first rows and of a prefix of the next.
proof fn lemma_pairs_step(rows: Seq<Dict<RowFieldValue>>, r: int)
    requires
        0 <= r < rows.len(),
    ensures
        all_pairs(rows.take(r + 1)) == all_pairs(rows.take(r)) + row_pairs(rows[r]),
{
    assert(rows.take(r + 1).drop_last() =~= rows.take(r));
}

/// Adds a non-null value of a column to entries kept in ascending order of
/// their names.
fn add_value(values: &mut Vec<(String, Vec<JsonValue>)>, column: &String, value: JsonValue, Ghost(pairs): Ghost<Seq<(Seq<char>, Json)>>)
    requires
        columns_of(entries_view(old(values)@), pairs),
        !(value@ is Null),
    ensures
        columns_of(entries_view(final(values)@), pairs.push((column@, value@))),
{
    let ghost old_entries = entries_view(values@);
    let ghost new_pairs = pairs.push((column@, value@));
    let n = values.len();
    let mut p: usize = 0;
    while p < n
        invariant
            n == values.len(),
            p <= n,
            entries_view(values@) == old_entries,
            forall|i: int| 0 <= i < p ==> lex_order(#[trigger] old_entries[i].0, column@) < 0,
        ensures
            p == n || lex_order(old_entries[p as int].0, column@) >= 0,
        decreases n - p,
    {
        let o = string_order(&values[p].0, column);
        if o >= 0 {
            break;
        }
        p = p + 1;
    }
    assert forall|c: Seq<char>| #![auto] present_values(new_pairs, c) == if c == column@ {
        present_values(pairs, c).push(value@)
    } else {
        present_values(pairs, c)
    } by {
        lemma_present_push(pairs, (column@, value@), c);
    }
    if p < n && string_order(&values[p].0, column) == 0 {
        proof {
            lemma_lex_equal(old_entries[p as int].0, column@);
        }
        let ghost old_values = values@;
        let (key, mut list) = values.remove(p);
        let ghost old_list = list@;
        list.push(value);
        proof {
            assert(views(list@) =~= views(old_list).push(value@));
            assert(key@ == column@);
            assert(old_entries[p as int].1 == views(old_list));
            assert(old_entries[p as int].1 == present_values(pairs, old_entries[p as int].0));
        }
        values.insert(p, (key, list));
        proof {
            let e = entries_view(values@);
            assert(values@ =~= old_values.update(p as int, values@[p as int]));
            assert(e =~= old_entries.update(p as int, (column@, present_values(pairs, column@).push(value@))));
            assert forall|i: int| 0 <= i < e.len() implies #[trigger] e[i].1 == present_values(new_pairs, e[i].0) && e[i].1.len() > 0 by {
                if i != p {
                    assert(old_entries[i].0 != column@) by {
                        if i < p {
                            lemma_lex_equal(old_entries[i].0, column@);
                        } else {
                            lemma_lex_equal(old_entries[p as int].0, old_entries[i].0);
                        }
                    }
                }
            }
            assert forall|c: Seq<char>| #[trigger] present_values(new_pairs, c).len() > 0 implies exists|i: int| 0 <= i < e.len() && e[i].0 == c by {
                if c == column@ {
                    assert(e[p as int].0 == c);
                } else {
                    assert(present_values(pairs, c).len() > 0);
                    let i = choose|i: int| 0 <= i < old_entries.len() && old_entries[i].0 == c;
                    assert(e[i].0 == c);
                }
            }
        }
    } else {
        proof {
            if p < n {
                let o = lex_order(old_entries[p as int].0, column@);
                assert(o > 0);
                lemma_lex_flip(old_entries[p as int].0, column@);
            }
            assert(present_values(pairs, column@).len() == 0) by {
                if present_values(pairs, column@).len() > 0 {
                    let i = choose|i: int| 0 <= i < old_entries.len() && old_entries[i].0 == column@;
                    if i < p {
                        lemma_lex_equal(old_entries[i].0, column@);
                    } else {
                        lemma_lex_flip(old_entries[p as int].0, column@);
                        if i > p {
                            lemma_lex_transitive(column@, old_entries[p as int].0, old_entries[i].0);
                        }
                        lemma_lex_equal(column@, old_entries[i].0);
                    }
                }
            }
        }
        let mut list: Vec<JsonValue> = Vec::new();
        list.push(value);
        let ghost item = (column@, views(list@));
        values.insert(p, (column.clone(), list));
        proof {
            let e = entries_view(values@);
            assert(views(list@) =~= seq![value@]);
            assert(present_values(new_pairs, column@) =~= seq![value@]);
            assert(e =~= old_entries.insert(p as int, (column@, seq![value@])));
            assert forall|i: int, j: int| 0 <= i < j < e.len() implies lex_order(#[trigger] e[i].0, #[trigger] e[j].0) < 0 by {
                if i < p && j == p {
                } else if i < p && j > p {
                    assert(e[j] == old_entries[j - 1]);
                    if j - 1 == p {
                        lemma_lex_flip(old_entries[p as int].0, column@);
                        lemma_lex_transitive(old_entries[i].0, column@, old_entries[p as int].0);
                    } else {
                        assert(lex_order(old_entries[i].0, old_entries[j - 1].0) < 0);
                    }
                } else if i == p {
                    assert(e[j] == old_entries[j - 1]);
                    lemma_lex_flip(old_entries[p as int].0, column@);
                    if j - 1 > p {
                        lemma_lex_transitive(column@, old_entries[p as int].0, old_entries[j - 1].0);
                    }
                } else if i > p {
                    assert(e[i] == old_entries[i - 1]);
                    assert(e[j] == old_entries[j - 1]);
                }
            }
            assert forall|i: int| 0 <= i < e.len() implies #[trigger] e[i].1 == present_values(new_pairs, e[i].0) && e[i].1.len() > 0 by {
                if i < p {
                    assert(e[i] == old_entries[i]);
                    assert(old_entries[i].0 != column@) by {
                        lemma_lex_equal(old_entries[i].0, column@);
                    }
                } else if i > p {
                    assert(e[i] == old_entries[i - 1]);
                    assert(old_entries[i - 1].0 != column@) by {
                        lemma_lex_flip(old_entries[p as int].0, column@);
                        if i - 1 > p {
                            lemma_lex_transitive(column@, old_entries[p as int].0, old_entries[i - 1].0);
                        }
                        lemma_lex_equal(column@, old_entries[i - 1].0);
                    }
                }
            }
            assert forall|c: Seq<char>| #[trigger] present_values(new_pairs, c).len() > 0 implies exists|i: int| 0 <= i < e.len() && e[i].0 == c by {
                if c == column@ {
                    assert(e[p as int].0 == c);
                } else {
                    assert(present_values(pairs, c).len() > 0);
                    let i = choose|i: int| 0 <= i < old_entries.len() && old_entries[i].0 == c;
                    if i < p {
                        assert(e[i].0 == c);
                    } else {
                        assert(e[i + 1].0 == c);
                    }
                }
            }
        }
    }
}

/// Gathers the non-null values of each column from a sample of rows,
/// after checking that every row has each field of the collection's type;
/// none when no column has a non-null value.
pub fn make_context<'a>(collection_type: &'a ObjectType, rows: &Vec<Dict<RowFieldValue>>) -> (r: Result<Option<Context<'a>>, Error>)
    ensures
        match first_missing(collection_type.fields.items(), rows@) {
            Some(m) => r matches Err(Error::MissingField(f)) && f@ == m,
            None => match r {
                Ok(None) => forall|c: Seq<char>| #[trigger] present_values(all_pairs(rows@), c).len() == 0,
                Ok(Some(context)) => context.collection_type == collection_type && entries_view(context.values@).len() > 0
                    && columns_of(entries_view(context.values@), all_pairs(rows@)),
                Err(_) => false,
            },
        },
{
    let ghost fields = collection_type.fields.items();
    let mut values: Vec<(String, Vec<JsonValue>)> = Vec::new();
    let mut r: usize = 0;
    while r < rows.len()
        invariant
            fields == collection_type.fields.items(),
            r <= rows.len(),
            first_missing(fields, rows@.take(r as int)) is None,
            columns_of(entries_view(values@), all_pairs(rows@.take(r as int))),
        decreases rows.len() - r,
    {
        let row = &rows[r];
        proof {
            lemma_pairs_step(rows@, r as int);
            assert(rows@.take(r + 1).drop_last() =~= rows@.take(r as int));
        }
        let nf = collection_type.fields.len();
        let mut k: usize = 0;
        while k < nf
            invariant
                fields == collection_type.fields.items(),
                nf == fields.len(),
                *row == rows@[r as int],
                r < rows.len(),
                first_missing(fields, rows@.take(r as int)) is None,
                k <= nf,
                missing_in(fields.take(k as int), row.map()) is None,
            decreases nf - k,
        {
            let (field_name, _) = collection_type.fields.get_index(k);
            proof {
                assert(fields.take(k + 1).drop_last() =~= fields.take(k as int));
            }
            if !row.contains_key(field_name) {
                proof {
                    assert(missing_in(fields.take(k + 1), row.map()) == Some(field_name@));
                    lemma_missing_prefix(fields, k + 1, row.map());
                    assert(rows@.take(r + 1).drop_last() =~= rows@.take(r as int));
                    assert(first_missing(fields, rows@.take(r + 1)) == Some(field_name@));
                    lemma_first_missing_prefix(fields, rows@, r + 1);
                }
                return Err(Error::MissingField(field_name.clone()));
            }
            k = k + 1;
        }
        proof {
            assert(fields.take(nf as int) =~= fields);
        }
        let ghost before = all_pairs(rows@.take(r as int));
        let n = row.len();
        let mut j: usize = 0;
        while j < n
            invariant
                *row == rows@[r as int],
                r < rows.len(),
                n == row.items().len(),
                j <= n,
                columns_of(entries_view(values@), before + row_pairs(*row).take(j as int)),
            decreases n - j,
        {
            let (column, field_value) = row.get_index(j);
            let ghost done = before + row_pairs(*row).take(j as int);
            proof {
                assert(before + row_pairs(*row).take(j + 1) =~= done.push((column@, field_value.0@)));
            }
            if !field_value.0.is_null() {
                add_value(&mut values, column, field_value.0.clone_value(), Ghost(done));
                proof {
                    assert(columns_of(entries_view(values@), done.push((column@, field_value.0@))));
                }
            } else {
                proof {
                    let grown = done.push((column@, field_value.0@));
                    let e = entries_view(values@);
                    assert forall|i: int| 0 <= i < e.len() implies #[trigger] e[i].1 == present_values(grown, e[i].0) && e[i].1.len() > 0 by {
                        lemma_present_push(done, (column@, field_value.0@), e[i].0);
                    }
                    assert forall|c: Seq<char>| #[trigger] present_values(grown, c).len() > 0 implies exists|i: int| 0 <= i < e.len() && e[i].0 == c by {
                        lemma_present_push(done, (column@, field_value.0@), c);
                    }
                    assert(columns_of(e, grown));
                }
            }
            j = j + 1;
        }
        proof {
            assert(row_pairs(*row).take(n as int) =~= row_pairs(*row));
        }
        r = r + 1;
    }
    proof {
        assert(rows@.take(rows.len() as int) =~= rows@);
    }
    if values.len() == 0 {
        proof {
            assert forall|c: Seq<char>| #[trigger] present_values(all_pairs(rows@), c).len() == 0 by {
                if present_values(all_pairs(rows@), c).len() > 0 {
                    let i = choose|i: int| 0 <= i < entries_view(values@).len() && entries_view(values@)[i].0 == c;
                }
            }
        }
        Ok(None)
    } else {
        Ok(Some(Context { collection_type, values }))
    }
}

/// The first missing field of a prefix of the fields is the first missing
/// field of all of them.
proof fn lemma_missing_prefix(fields: Seq<(Seq<char>, ObjectField)>, k: int, row: Map<Seq<char>, RowFieldValue>)
    requires
        0 <= k <= fields.len(),
        missing_in(fields.take(k), row) is Some,
    ensures
        missing_in(fields, row) == missing_in(fields.take(k), row),
    decreases fields.len(),
{
    if k < fields.len() {
        assert(fields.drop_last().take(k) =~= fields.take(k));
        lemma_missing_prefix(fields.drop_last(), k, row);
    } else {
        assert(fields.take(k) =~= fields);
    }
}

/// The first row that lacks a field decides for all rows.
proof fn lemma_first_missing_prefix(fields: Seq<(Seq<char>, ObjectField)>, rows: Seq<Dict<RowFieldValue>>, k: int)
    requires
        0 <= k <= rows.len(),
        first_missing(fields, rows.take(k)) is Some,
    ensures
        first_missing(fields, rows) == first_missing(fields, rows.take(k)),
    decreases rows.len(),
{
    if k < rows.len() {
        assert(rows.drop_last().take(k) =~= rows.take(k));
        lemma_first_missing_prefix(fields, rows.drop_last(), k);
    } else {
        assert(rows.take(k) =~= rows);
    }
}

impl<'a> Context<'a> {
    /// A column of the context picked at random, with its values; fails
    /// when the context has no columns.
    pub fn choose_field(&self, rng: &mut rand::rngs::SmallRng) -> (r: Result<(String, Vec<JsonValue>), Error>)
        ensures
            match r {
                Err(e) => e is ExpectedNonEmptyRows && self.values.len() == 0,
                Ok((name, values)) => exists|i: int|
                    0 <= i < self.values.len() && #[trigger] entries_view(self.values@)[i] == (name@, views(values@)),
            },
    {
        match crate::random::choose_position(rng, self.values.len()) {
            None => Err(Error::ExpectedNonEmptyRows),
            Some(i) => Ok(self.field_at(i)),
        }
    }

    /// The column of the context at a position, with its values.
    pub fn field_at(&self, i: usize) -> (r: (String, Vec<JsonValue>))
        requires
            i < self.values.len(),
        ensures
            entries_view(self.values@)[i as int] == (r.0@, views(r.1@)),
    {
        let (name, values) = &self.values[i];
        let copied = crate::evaluate::copy_values(values);
        (name.clone(), copied)
    }
}

} // verus!
