use vstd::prelude::*;
use std::collections::BTreeMap;
use crate::dict::Dict;
use crate::engine::{copy_row, is_name, row_value, server_error, Row, ServerError};
use crate::json::{json_as_i64, object_entries, Json, JsonNumber, JsonValue};
use vstd::std_specs::cmp::OrdSpec;

verus! {

/// The data the service answers from: four tables of rows, each keyed by
/// the row's id.
pub struct AppState {
    pub articles: BTreeMap<i32, Row>,
    pub authors: BTreeMap<i32, Row>,
    pub institutions: BTreeMap<i32, Row>,
    pub countries: BTreeMap<i32, Row>,
}

/// The meanings of rows.
pub open spec fn row_views(rows: Seq<Row>) -> Seq<Map<Seq<char>, Json>> {
    rows.map_values(|r: Row| row_value(r))
}

/// The outcome of a computation of rows, rows taken by their meaning.
pub open spec fn rows_outcome(r: Result<Vec<Row>, ServerError>) -> Result<Seq<Map<Seq<char>, Json>>, (u16, Seq<char>)> {
    match r {
        Ok(rows) => Ok(row_views(rows@)),
        Err(e) => Err((e.status, e.message@)),
    }
}

/// Keys in increasing order are strictly increasing integers.
proof fn lemma_increasing_keys(ks: Seq<i32>)
    requires
        vstd::std_specs::btree::increasing_seq(ks),
    ensures
        forall|i: int, j: int| 0 <= i < j < ks.len() ==> ks[i] < ks[j],
{
    broadcast use vstd::laws_cmp::group_laws_cmp;
    broadcast use vstd::std_specs::btree::axiom_increasing_seq_meaning;
    assert forall|i: int, j: int| 0 <= i < j < ks.len() implies ks[i] < ks[j] by {
        assert(ks[i].cmp_spec(&ks[j]) is Less);
    }
}

/// Whether integers are in strictly increasing order.
pub open spec fn ascending(ks: Seq<i32>) -> bool {
    forall|i: int, j: int| 0 <= i < j < ks.len() ==> ks[i] < ks[j]
}

/// The keys of a set in increasing order.
pub open spec fn ascending_keys(s: Set<i32>) -> Seq<i32> {
    choose|ks: Seq<i32>| ascending(ks) && ks.to_set() == s
}

/// The rows of a table, in the order of their keys.
pub open spec fn table_view(m: Map<i32, Row>) -> Seq<Map<Seq<char>, Json>> {
    ascending_keys(m.dom()).map_values(|k: i32| row_value(m[k]))
}

/// Two increasing sequences with the same elements are the same.
pub proof fn lemma_ascending_unique(a: Seq<i32>, b: Seq<i32>)
    requires
        ascending(a),
        ascending(b),
        a.to_set() == b.to_set(),
    ensures
        a == b,
    decreases a.len(),
{
    broadcast use vstd::seq_lib::group_seq_properties;
    if a.len() == 0 {
        if b.len() > 0 {
            assert(b.to_set().contains(b[0]));
        }
    } else if b.len() == 0 {
        assert(a.to_set().contains(a[0]));
    } else {
        let x = a.last();
        let y = b.last();
        assert(a.to_set().contains(x));
        assert(b.to_set().contains(y));
        assert(b.contains(x));
        assert(a.contains(y));
        let ix = choose|i: int| 0 <= i < b.len() && b[i] == x;
        let iy = choose|i: int| 0 <= i < a.len() && a[i] == y;
        assert(x == y);
        let a2 = a.drop_last();
        let b2 = b.drop_last();
        assert forall|k: i32| a2.to_set().contains(k) <==> b2.to_set().contains(k) by {
            if a2.to_set().contains(k) {
                let i = choose|i: int| 0 <= i < a2.len() && a2[i] == k;
                assert(a.contains(k));
                assert(a[i] == k);
                assert(a.to_set().contains(k));
                assert(b.to_set().contains(k));
                assert(b.contains(k));
                let j = choose|j: int| 0 <= j < b.len() && b[j] == k;
                assert(j != b.len() - 1);
                assert(b2[j] == k);
            }
            if b2.to_set().contains(k) {
                let i = choose|i: int| 0 <= i < b2.len() && b2[i] == k;
                assert(b[i] == k);
                assert(b.contains(k));
                assert(b.to_set().contains(k));
                assert(a.to_set().contains(k));
                assert(a.contains(k));
                let j = choose|j: int| 0 <= j < a.len() && a[j] == k;
                assert(j != a.len() - 1);
                assert(a2[j] == k);
            }
        }
        assert(a2.to_set() =~= b2.to_set());
        lemma_ascending_unique(a2, b2);
        assert(a =~= a2.push(x));
        assert(b =~= b2.push(y));
    }
}

/// A finite set of integers that is not empty has a greatest element.
proof fn lemma_greatest_exists(s: Set<i32>)
    requires
        s.finite(),
        s.len() > 0,
    ensures
        exists|m: i32| s.contains(m) && forall|x: i32| #[trigger] s.contains(x) ==> x <= m,
    decreases s.len(),
{
    let a = s.choose();
    assert(s.contains(a));
    let rest = s.remove(a);
    if rest.len() == 0 {
        assert forall|x: i32| #[trigger] s.contains(x) implies x <= a by {
            if x != a {
                assert(rest.contains(x));
            }
        }
    } else {
        lemma_greatest_exists(rest);
        let m = choose|m: i32| rest.contains(m) && forall|x: i32| #[trigger] rest.contains(x) ==> x <= m;
        let g = if a > m { a } else { m };
        assert forall|x: i32| #[trigger] s.contains(x) implies x <= g by {
            if x != a {
                assert(rest.contains(x));
            }
        }
        assert(s.contains(g));
    }
}

/// A finite set of integers can be listed in increasing order.
pub proof fn lemma_ascending_exists(s: Set<i32>)
    requires
        s.finite(),
    ensures
        ascending(ascending_keys(s)),
        ascending_keys(s).to_set() == s,
    decreases s.len(),
{
    broadcast use vstd::seq_lib::group_seq_properties;
    if s.len() == 0 {
        let e = Seq::<i32>::empty();
        assert(e.to_set() =~= s);
        assert(ascending(e));
    } else {
        lemma_greatest_exists(s);
        let m = choose|m: i32| s.contains(m) && forall|x: i32| #[trigger] s.contains(x) ==> x <= m;
        let rest = s.remove(m);
        lemma_ascending_exists(rest);
        let ks = ascending_keys(rest).push(m);
        assert forall|i: int, j: int| 0 <= i < j < ks.len() implies ks[i] < ks[j] by {
            if j == ks.len() - 1 {
                let x = ks[i];
                assert(ascending_keys(rest).to_set().contains(x));
                assert(rest.contains(x));
            }
        }
        ascending_keys(rest).lemma_push_to_set_commute(m);
        assert(ks.to_set() =~= s);
        assert(ascending(ks) && ks.to_set() == s);
    }
}

/// The rows of a table, copied, in the order of their keys.
/// Key references in increasing order are strictly increasing integers.
proof fn lemma_increasing_key_refs(ks: Seq<&i32>)
    requires
        vstd::std_specs::btree::increasing_seq(ks),
    ensures
        ascending(ks.unref()),
        ks.unref().to_set() == ks.unref().to_set(),
{
    broadcast use vstd::laws_cmp::group_laws_cmp;
    broadcast use vstd::std_specs::btree::axiom_increasing_seq_meaning;
    assert(vstd::laws_cmp::obeys_cmp::<&i32>());
    assert forall|i: int, j: int| 0 <= i < j < ks.unref().len() implies ks.unref()[i] < ks.unref()[j] by {
        let a: &i32 = ks[i];
        let b: &i32 = ks[j];
        assert(OrdSpec::cmp_spec(&a, &b) is Less);
        assert(OrdSpec::cmp_spec(a, b) is Less);
    }
}

pub fn table_rows(m: &BTreeMap<i32, Row>) -> (r: Vec<Row>)
    ensures
        row_views(r@) == table_view(m@),
{
    broadcast use vstd::laws_cmp::group_laws_cmp;
    broadcast use vstd::std_specs::btree::axiom_key_obeys_cmp_spec_meaning;
    broadcast use vstd::std_specs::btree::axiom_increasing_seq_meaning;
    let values = m.values();
    proof {
        assert(vstd::laws_cmp::obeys_cmp::<i32>());
        assert(vstd::std_specs::btree::key_obeys_cmp_spec::<i32>());
    }
    let ghost snap = values;
    let ghost ks = choose|ks: Seq<i32>|
        {
            &&& vstd::std_specs::btree::increasing_seq(ks)
            &&& ks.to_set() == m@.dom()
            &&& ks.no_duplicates()
            &&& vstd::std_specs::iter::IteratorSpec::remaining(&snap) == ks.map(|i: int, k: i32| &m@[k])
        };
    let mut out: Vec<Row> = Vec::new();
    for v in it: values
        invariant
            out.len() == it.index(),
            it.seq() == vstd::std_specs::iter::IteratorSpec::remaining(&snap),
            forall|j: int| 0 <= j < it.index() ==> row_value(#[trigger] out@[j]) == row_value(*it.seq()[j]),
    {
        out.push(copy_row(v));
    }
    proof {
        assert(row_views(out@) =~= ks.map_values(|k: i32| row_value(m@[k])));
        lemma_increasing_keys(ks);
        let cs = ascending_keys(m@.dom());
        assert(ascending(ks) && ks.to_set() == m@.dom());
        lemma_ascending_unique(cs, ks);
        assert(row_views(out@) =~= table_view(m@));
    }
    out
}

/// The keys of a table, in increasing order.
pub fn table_keys(m: &BTreeMap<i32, Row>) -> (r: Vec<i32>)
    ensures
        r@ == ascending_keys(m@.dom()),
        ascending(r@),
        r@.to_set() == m@.dom(),
{
    broadcast use vstd::laws_cmp::group_laws_cmp;
    broadcast use vstd::std_specs::btree::axiom_key_obeys_cmp_spec_meaning;
    broadcast use vstd::std_specs::btree::axiom_spec_keys_iter;
    let keys = m.keys();
    proof {
        assert(vstd::laws_cmp::obeys_cmp::<i32>());
        assert(vstd::std_specs::btree::key_obeys_cmp_spec::<i32>());
    }
    let ghost snap = keys;
    let ghost ks = vstd::std_specs::iter::IteratorSpec::remaining(&snap).unref();
    let mut out: Vec<i32> = Vec::new();
    for k in it: keys
        invariant
            out.len() == it.index(),
            it.seq() == vstd::std_specs::iter::IteratorSpec::remaining(&snap),
            forall|j: int| 0 <= j < it.index() ==> #[trigger] out@[j] == *it.seq()[j],
    {
        out.push(*k);
    }
    proof {
        let rs = vstd::std_specs::iter::IteratorSpec::remaining(&snap);
        assert(out@ =~= rs.unref());
        assert(vstd::std_specs::btree::increasing_seq(rs));
        lemma_increasing_key_refs(rs);
        lemma_ascending_unique(ascending_keys(m@.dom()), out@);
    }
    out
}

/// A row with a single column.
pub fn single_row(column: &str, value: JsonValue) -> (r: Row)
    ensures
        row_value(r) == map![column@ => value@],
{
    let ghost v = value@;
    let mut d: Row = Dict::new();
    d.insert(column.to_string(), value);
    proof {
        let es = crate::rowset::value_entries(d.items());
        assert(es =~= seq![(column@, v)]);
        assert(es.drop_last() =~= Seq::<(Seq<char>, Json)>::empty());
        assert(crate::json::entries_map(es.drop_last()) =~= Map::<Seq<char>, Json>::empty());
        assert(row_value(d) =~= map![column@ => v]);
    }
    d
}

/// A row as a JSON object.
pub fn row_object(row: &Row) -> (r: JsonValue)
    ensures
        r@ == Json::Object(row_value(*row)),
{
    let mut out: Vec<(String, JsonValue)> = Vec::new();
    let mut i: usize = 0;
    while i < row.len()
        invariant
            i <= row.items().len(),
            out.len() == i,
            forall|j: int| 0 <= j < i ==> #[trigger] out@[j].0@ == row.items()[j].0 && out@[j].1@ == row.items()[j].1@,
        decreases row.items().len() - i,
    {
        let (k, v) = row.get_index(i);
        out.push((k.clone(), v.clone_value()));
        i += 1;
    }
    proof {
        crate::json::lemma_object_view(out);
        assert(object_entries(out@) =~= crate::rowset::value_entries(row.items()));
    }
    JsonValue::Object(out)
}

/// Whether an article was written by an author: its `author_id` column
/// must hold an integer that fits in 32 bits.
pub open spec fn written_by(article: Map<Seq<char>, Json>, author: int) -> Result<bool, (u16, Seq<char>)> {
    if !article.contains_key("author_id"@) {
        Err((500, "author_id not found"@))
    } else {
        match json_as_i64(article["author_id"@]) {
            None => Err((500, "author_id must be an integer"@)),
            Some(a) => if i32::MIN <= a <= i32::MAX {
                Ok(a == author)
            } else {
                Err((400, "author_id out of range"@))
            },
        }
    }
}

/// The articles written by an author, in their order; the first article
/// that cannot be read fails the search.
pub open spec fn articles_written_by(articles: Seq<Map<Seq<char>, Json>>, author: int) -> Result<Seq<Map<Seq<char>, Json>>, (u16, Seq<char>)>
    decreases articles.len(),
{
    if articles.len() == 0 {
        Ok(Seq::empty())
    } else {
        match articles_written_by(articles.drop_last(), author) {
            Err(e) => Err(e),
            Ok(found) => match written_by(articles.last(), author) {
                Err(e) => Err(e),
                Ok(true) => Ok(found.push(articles.last())),
                Ok(false) => Ok(found),
            },
        }
    }
}

/// Whether an article has an `author_id` that is an integer of 32 bits.
pub open spec fn has_author_id(article: Map<Seq<char>, Json>) -> bool {
    article.contains_key("author_id"@) && (article["author_id"@] matches Json::Int(a) && i32::MIN <= a <= i32::MAX)
}

/// The articles of an author are exactly those whose `author_id` is that
/// author: each article found has it, each article that has it is found,
/// and nothing else is; when every article has a 32-bit `author_id`, the
/// search succeeds.
pub proof fn lemma_articles_written_by(articles: Seq<Map<Seq<char>, Json>>, author: int)
    requires
        i32::MIN <= author <= i32::MAX,
    ensures
        articles_written_by(articles, author) matches Ok(found) ==> {
            &&& forall|k: int| 0 <= k < found.len() ==> (#[trigger] found[k]).contains_key("author_id"@)
                && found[k]["author_id"@] == Json::Int(author)
            &&& forall|k: int| 0 <= k < found.len() ==> articles.contains(#[trigger] found[k])
            &&& forall|i: int|
                0 <= i < articles.len() && (#[trigger] articles[i]).contains_key("author_id"@)
                    && articles[i]["author_id"@] == Json::Int(author) ==> found.contains(articles[i])
        },
        (forall|i: int|
            0 <= i < articles.len() ==> has_author_id(#[trigger] articles[i]))
            ==> articles_written_by(articles, author) is Ok,
    decreases articles.len(),
{
    if articles.len() > 0 {
        let front = articles.drop_last();
        lemma_articles_written_by(front, author);
        let last = articles.last();
        assert forall|i: int| 0 <= i < front.len() implies front[i] == articles[i] by {}
        if forall|i: int| 0 <= i < articles.len() ==> has_author_id(#[trigger] articles[i]) {
            assert forall|i: int| 0 <= i < front.len() implies has_author_id(#[trigger] front[i]) by {
                assert(front[i] == articles[i]);
            }
            assert(articles[articles.len() - 1] == last);
        }
        match articles_written_by(front, author) {
            Ok(found) => {
                assert forall|k: int| 0 <= k < found.len() implies articles.contains(#[trigger] found[k]) by {
                    let j = choose|j: int| 0 <= j < front.len() && front[j] == found[k];
                    assert(articles[j] == found[k]);
                }
                assert(articles[articles.len() - 1] == last);
                match written_by(last, author) {
                    Ok(true) => {
                        let f2 = found.push(last);
                        assert forall|k: int| 0 <= k < f2.len() implies articles.contains(#[trigger] f2[k]) by {
                            if k < found.len() {
                                assert(f2[k] == found[k]);
                                assert(articles.contains(found[k]));
                            }
                        }
                        assert forall|i: int|
                            0 <= i < articles.len() && (#[trigger] articles[i]).contains_key("author_id"@)
                                && articles[i]["author_id"@] == Json::Int(author) implies f2.contains(articles[i]) by {
                            if i < front.len() {
                                assert(front[i] == articles[i]);
                                assert(found.contains(front[i]));
                                let k = choose|k: int| 0 <= k < found.len() && found[k] == front[i];
                                assert(f2[k] == found[k]);
                            } else {
                                assert(f2[found.len() as int] == last);
                            }
                        }
                        assert forall|k: int| 0 <= k < f2.len() implies (#[trigger] f2[k]).contains_key("author_id"@)
                            && f2[k]["author_id"@] == Json::Int(author) by {
                            if k < found.len() {
                                assert(f2[k] == found[k]);
                            }
                        }
                    },
                    Ok(false) => {
                        assert forall|i: int|
                            0 <= i < articles.len() && (#[trigger] articles[i]).contains_key("author_id"@)
                                && articles[i]["author_id"@] == Json::Int(author) implies found.contains(articles[i]) by {
                            if i < front.len() {
                                assert(front[i] == articles[i]);
                            }
                        }
                    },
                    Err(_) => {},
                }
            },
            Err(_) => {},
        }
    }
}

/// Whether an article's `author_id` is a given author.
pub open spec fn by_author(author: int) -> spec_fn(Map<Seq<char>, Json>) -> bool {
    |article: Map<Seq<char>, Json>| article.contains_key("author_id"@) && article["author_id"@] == Json::Int(author)
}

/// The articles of an author come in the order of the articles, each as
/// often as it stands there: they are the articles filtered by their
/// `author_id`.
pub proof fn lemma_articles_written_by_filter(articles: Seq<Map<Seq<char>, Json>>, author: int)
    requires
        i32::MIN <= author <= i32::MAX,
    ensures
        articles_written_by(articles, author) matches Ok(found) ==> found == articles.filter(by_author(author)),
    decreases articles.len(),
{
    reveal(Seq::filter);
    if articles.len() > 0 {
        let front = articles.drop_last();
        lemma_articles_written_by_filter(front, author);
    }
}

/// The collection `articles_by_author` gives exactly the articles whose
/// `author_id` is the author asked for, in the order of their ids; it
/// succeeds when every article has a 32-bit `author_id`.
pub proof fn lemma_articles_by_author(state: AppState, arguments: Map<Seq<char>, Json>, author: int)
    requires
        arguments.contains_key("author_id"@),
        arguments["author_id"@] == Json::Int(author),
        i32::MIN <= author <= i32::MAX,
    ensures
        collection_rows(state, "articles_by_author"@, arguments) matches Ok(rows) ==> {
            &&& forall|k: int| 0 <= k < rows.len() ==> (#[trigger] rows[k]).contains_key("author_id"@)
                && rows[k]["author_id"@] == Json::Int(author)
            &&& forall|k: int| 0 <= k < rows.len() ==> table_view(state.articles@).contains(#[trigger] rows[k])
            &&& rows == table_view(state.articles@).filter(by_author(author))
            &&& forall|i: int|
                0 <= i < table_view(state.articles@).len() && (#[trigger] table_view(state.articles@)[i]).contains_key(
                    "author_id"@,
                ) && table_view(state.articles@)[i]["author_id"@] == Json::Int(author) ==> rows.contains(
                    table_view(state.articles@)[i],
                )
        },
        (forall|i: int|
            0 <= i < table_view(state.articles@).len() ==> has_author_id(#[trigger] table_view(state.articles@)[i]))
            ==> collection_rows(state, "articles_by_author"@, arguments) is Ok,
{
    reveal_strlit("articles");
    reveal_strlit("authors");
    reveal_strlit("institutions");
    reveal_strlit("countries");
    reveal_strlit("articles_by_author");
    assert("articles_by_author"@ != "articles"@) by {
        assert("articles_by_author"@.len() != "articles"@.len());
    }
    assert("articles_by_author"@ != "authors"@) by {
        assert("articles_by_author"@.len() != "authors"@.len());
    }
    assert("articles_by_author"@ != "institutions"@) by {
        assert("articles_by_author"@.len() != "institutions"@.len());
    }
    assert("articles_by_author"@ != "countries"@) by {
        assert("articles_by_author"@.len() != "countries"@.len());
    }
    lemma_articles_written_by(table_view(state.articles@), author);
    lemma_articles_written_by_filter(table_view(state.articles@), author);
}

/// The greatest key of a table, null when it is empty.
pub open spec fn latest_key(m: Map<i32, Row>) -> Json {
    let ks = ascending_keys(m.dom());
    if ks.len() == 0 {
        Json::Null
    } else {
        Json::Int(ks.last() as int)
    }
}

/// The row with the greatest key of a table as an object, null when the
/// table is empty.
pub open spec fn latest_row(m: Map<i32, Row>) -> Json {
    let ks = ascending_keys(m.dom());
    if ks.len() == 0 {
        Json::Null
    } else {
        Json::Object(row_value(m[ks.last()]))
    }
}

/// The rows of a collection: a table's rows in the order of their keys;
/// the articles of an author, whose id is the `author_id` argument; or a
/// single row whose `__value` column holds the latest article or its id.
pub open spec fn collection_rows(state: AppState, name: Seq<char>, arguments: Map<Seq<char>, Json>) -> Result<Seq<Map<Seq<char>, Json>>, (u16, Seq<char>)> {
    if name == "articles"@ {
        Ok(table_view(state.articles@))
    } else if name == "authors"@ {
        Ok(table_view(state.authors@))
    } else if name == "institutions"@ {
        Ok(table_view(state.institutions@))
    } else if name == "countries"@ {
        Ok(table_view(state.countries@))
    } else if name == "articles_by_author"@ {
        if !arguments.contains_key("author_id"@) {
            Err((400, "missing argument author_id"@))
        } else {
            match json_as_i64(arguments["author_id"@]) {
                None => Err((400, "author_id must be an integer"@)),
                Some(a) => if i32::MIN <= a <= i32::MAX {
                    articles_written_by(table_view(state.articles@), a)
                } else {
                    Err((400, "author_id out of range"@))
                },
            }
        }
    } else if name == "latest_article_id"@ {
        Ok(seq![map!["__value"@ => latest_key(state.articles@)]])
    } else if name == "latest_article"@ {
        Ok(seq![map!["__value"@ => latest_row(state.articles@)]])
    } else {
        Err((400, "invalid collection name"@))
    }
}

/// The collection `latest_article_id` is one row whose `__value` is the
/// greatest article id, or null when there are no articles; the collection
/// `latest_article` is one row whose `__value` is the article with that id.
pub proof fn lemma_latest_article(state: AppState, arguments: Map<Seq<char>, Json>)
    ensures
        state.articles@.dom() == Set::<i32>::empty() ==> collection_rows(state, "latest_article_id"@, arguments)
            == Ok::<Seq<Map<Seq<char>, Json>>, (u16, Seq<char>)>(seq![map!["__value"@ => Json::Null]]),
        state.articles@.dom() == Set::<i32>::empty() ==> collection_rows(state, "latest_article"@, arguments)
            == Ok::<Seq<Map<Seq<char>, Json>>, (u16, Seq<char>)>(seq![map!["__value"@ => Json::Null]]),
        state.articles@.dom() != Set::<i32>::empty() ==> exists|k: i32|
            #![trigger state.articles@.dom().contains(k)]
            {
                &&& state.articles@.dom().contains(k)
                &&& forall|other: i32| #[trigger] state.articles@.dom().contains(other) ==> other <= k
                &&& collection_rows(state, "latest_article_id"@, arguments) == Ok::<
                    Seq<Map<Seq<char>, Json>>,
                    (u16, Seq<char>),
                >(seq![map!["__value"@ => Json::Int(k as int)]])
                &&& collection_rows(state, "latest_article"@, arguments) == Ok::<
                    Seq<Map<Seq<char>, Json>>,
                    (u16, Seq<char>),
                >(seq![map!["__value"@ => Json::Object(row_value(state.articles@[k]))]])
            },
{
    broadcast use vstd::std_specs::btree::axiom_btree_map_view_finite_dom;
    reveal_strlit("articles");
    reveal_strlit("authors");
    reveal_strlit("institutions");
    reveal_strlit("countries");
    reveal_strlit("articles_by_author");
    reveal_strlit("latest_article_id");
    reveal_strlit("latest_article");
    assert("latest_article_id"@ != "articles"@) by {
        assert("latest_article_id"@.len() != "articles"@.len());
    }
    assert("latest_article_id"@ != "authors"@) by {
        assert("latest_article_id"@.len() != "authors"@.len());
    }
    assert("latest_article_id"@ != "institutions"@) by {
        assert("latest_article_id"@.len() != "institutions"@.len());
    }
    assert("latest_article_id"@ != "countries"@) by {
        assert("latest_article_id"@.len() != "countries"@.len());
    }
    assert("latest_article_id"@ != "articles_by_author"@) by {
        assert("latest_article_id"@.len() != "articles_by_author"@.len());
    }
    assert("latest_article"@ != "articles"@) by {
        assert("latest_article"@.len() != "articles"@.len());
    }
    assert("latest_article"@ != "authors"@) by {
        assert("latest_article"@.len() != "authors"@.len());
    }
    assert("latest_article"@ != "institutions"@) by {
        assert("latest_article"@.len() != "institutions"@.len());
    }
    assert("latest_article"@ != "countries"@) by {
        assert("latest_article"@.len() != "countries"@.len());
    }
    assert("latest_article"@ != "articles_by_author"@) by {
        assert("latest_article"@.len() != "articles_by_author"@.len());
    }
    assert("latest_article"@ != "latest_article_id"@) by {
        assert("latest_article"@.len() != "latest_article_id"@.len());
    }
    let dom = state.articles@.dom();
    assert(dom.finite());
    lemma_ascending_exists(dom);
    let ks = ascending_keys(dom);
    if dom == Set::<i32>::empty() {
        if ks.len() > 0 {
            assert(ks.to_set().contains(ks[0]));
        }
    } else {
        if ks.len() == 0 {
            assert(ks.to_set() =~= Set::<i32>::empty());
        }
        let k = ks.last();
        assert(ks.to_set().contains(k));
        assert forall|other: i32| #[trigger] dom.contains(other) implies other <= k by {
            assert(ks.to_set().contains(other));
            let i = choose|i: int| 0 <= i < ks.len() && ks[i] == other;
            if i < ks.len() - 1 {
                assert(ks[i] < ks[ks.len() - 1]);
            }
        }
        assert(dom.contains(k));
    }
}

/// The value of a column as a 64-bit integer: none when the row lacks the
/// column, and none inside when it is not such an integer.
pub fn column_i64(row: &Row, column: &str) -> (r: Option<Option<i64>>)
    ensures
        match r {
            None => !row_value(*row).contains_key(column@),
            Some(None) => row_value(*row).contains_key(column@) && json_as_i64(row_value(*row)[column@]) is None,
            Some(Some(i)) => row_value(*row).contains_key(column@) && json_as_i64(row_value(*row)[column@]) == Some(i as int),
        },
{
    let key = column.to_string();
    proof {
        crate::engine::lemma_row_get(*row, key@);
    }
    match row.get(&key) {
        None => None,
        Some(v) => Some(v.as_i64()),
    }
}

/// A failure in the first articles is a failure of all of them.
proof fn lemma_written_by_prefix(s: Seq<Map<Seq<char>, Json>>, k: int, author: int)
    requires
        0 <= k <= s.len(),
        articles_written_by(s.take(k), author) is Err,
    ensures
        articles_written_by(s, author) == articles_written_by(s.take(k), author),
    decreases s.len(),
{
    if k < s.len() {
        assert(s.drop_last().take(k) =~= s.take(k));
        lemma_written_by_prefix(s.drop_last(), k, author);
    } else {
        assert(s.take(k) =~= s);
    }
}

/// An integer that fits in 32 bits, as a 32-bit integer.
pub fn narrow_i32(i: i64) -> (r: i32)
    requires
        i32::MIN <= i <= i32::MAX,
    ensures
        r == i,
{
    i as i32
}

/// Whether an integer fits in 32 bits.
pub fn fits_i32(i: i64) -> (b: bool)
    ensures
        b == (i32::MIN <= i <= i32::MAX),
{
    -2147483648i64 <= i && i <= 2147483647i64
}

/// The articles of an author, in the order of their ids.
fn articles_of_author(articles: &BTreeMap<i32, Row>, author: i64) -> (r: Result<Vec<Row>, ServerError>)
    requires
        i32::MIN <= author <= i32::MAX,
    ensures
        rows_outcome(r) == articles_written_by(table_view(articles@), author as int),
{
    proof {
        reveal_strlit("author_id");
        reveal_strlit("author_id not found");
        reveal_strlit("author_id must be an integer");
        reveal_strlit("author_id out of range");
    }
    let all = table_rows(articles);
    let ghost s = row_views(all@);
    let mut found: Vec<Row> = Vec::new();
    let mut i: usize = 0;
    proof {
        assert(s.take(0) =~= Seq::<Map<Seq<char>, Json>>::empty());
        assert(row_views(found@) =~= Seq::<Map<Seq<char>, Json>>::empty());
    }
    while i < all.len()
        invariant
            s == row_views(all@),
            s == table_view(articles@),
            i <= all.len(),
            articles_written_by(s.take(i as int), author as int) == Ok::<Seq<Map<Seq<char>, Json>>, (u16, Seq<char>)>(row_views(found@)),
        decreases all.len() - i,
    {
        proof {
            assert(s.take(i + 1).drop_last() =~= s.take(i as int));
            assert(s.take(i + 1).last() == row_value(all@[i as int]));
        }
        match column_i64(&all[i], "author_id") {
            None => {
                proof {
                    lemma_written_by_prefix(s, i + 1, author as int);
                }
                return Err(server_error(500, "author_id not found"));
            },
            Some(None) => {
                proof {
                    lemma_written_by_prefix(s, i + 1, author as int);
                }
                return Err(server_error(500, "author_id must be an integer"));
            },
            Some(Some(a)) => {
                if !fits_i32(a) {
                    proof {
                        lemma_written_by_prefix(s, i + 1, author as int);
                    }
                    return Err(server_error(400, "author_id out of range"));
                }
                if a == author {
                    let ghost before = found@;
                    found.push(copy_row(&all[i]));
                    proof {
                        assert(row_views(found@) =~= row_views(before).push(row_value(all@[i as int])));
                    }
                }
            },
        }
        i += 1;
    }
    proof {
        assert(s.take(i as int) =~= s);
    }
    Ok(found)
}

/// The rows of a collection: a table's rows in the order of their keys;
/// the articles of an author, whose id is the `author_id` argument; or a
/// single row whose `__value` column holds the latest article or its id.
pub fn get_collection_by_name(collection_name: &String, arguments: &Row, state: &AppState) -> (r: Result<Vec<Row>, ServerError>)
    ensures
        rows_outcome(r) == collection_rows(*state, collection_name@, row_value(*arguments)),
{
    proof {
        reveal_strlit("articles");
        reveal_strlit("authors");
        reveal_strlit("institutions");
        reveal_strlit("countries");
        reveal_strlit("articles_by_author");
        reveal_strlit("latest_article_id");
        reveal_strlit("latest_article");
        reveal_strlit("author_id");
        reveal_strlit("missing argument author_id");
        reveal_strlit("author_id must be an integer");
        reveal_strlit("author_id out of range");
        reveal_strlit("invalid collection name");
        reveal_strlit("__value");
    }
    if is_name(collection_name, "articles") {
        return Ok(table_rows(&state.articles));
    }
    if is_name(collection_name, "authors") {
        return Ok(table_rows(&state.authors));
    }
    if is_name(collection_name, "institutions") {
        return Ok(table_rows(&state.institutions));
    }
    if is_name(collection_name, "countries") {
        return Ok(table_rows(&state.countries));
    }
    if is_name(collection_name, "articles_by_author") {
        let author_id = match column_i64(arguments, "author_id") {
            None => {
                return Err(server_error(400, "missing argument author_id"));
            },
            Some(None) => {
                return Err(server_error(400, "author_id must be an integer"));
            },
            Some(Some(a)) => a,
        };
        if !fits_i32(author_id) {
            return Err(server_error(400, "author_id out of range"));
        }
        return articles_of_author(&state.articles, author_id);
    }
    if is_name(collection_name, "latest_article_id") || is_name(collection_name, "latest_article") {
        let keys = table_keys(&state.articles);
        let value = if keys.len() == 0 {
            JsonValue::Null
        } else if is_name(collection_name, "latest_article_id") {
            let k: i32 = keys[keys.len() - 1];
            JsonValue::Number(JsonNumber::from_i64(k as i64))
        } else {
            let k: i32 = keys[keys.len() - 1];
            proof {
                assert(keys@.to_set().contains(k));
            }
            match state.articles.get(&k) {
                Some(row) => row_object(row),
                None => JsonValue::Null,
            }
        };
        let row = single_row("__value", value);
        let ghost rv = row_value(row);
        let rows = vec![row];
        proof {
            assert(row_views(rows@) =~= seq![rv]);
        }
        return Ok(rows);
    }
    Err(server_error(400, "invalid collection name"))
}

} // verus!
