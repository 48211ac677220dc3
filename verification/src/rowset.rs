use vstd::prelude::*;
use crate::dict::Dict;
use crate::json::{
    entries_map, entry_keys, find_last_key, json_eq, last_key_index, lemma_entries_map,
    lemma_entries_map_dom, lemma_last_key_index, string_entries, string_keys, Json, JsonValue,
};
use crate::query::{Group, QueryResponse, RowFieldValue, RowSet};

verus! {

/// The entries of a row or of a set of aggregates, read in place: from a
/// row of a row set, from the aggregates of a row set, or from a JSON
/// object.
pub enum EntriesRef<'a> {
    Row(&'a Dict<RowFieldValue>),
    Values(&'a Dict<JsonValue>),
    Object(&'a Vec<(String, JsonValue)>),
}

/// The values of a row's entries.
pub open spec fn row_entries(d: Dict<RowFieldValue>) -> Seq<(Seq<char>, JsonValue)> {
    d.items().map_values(|e: (Seq<char>, RowFieldValue)| (e.0, e.1.0))
}

/// The entry that a key finds: the last one with that key.
pub open spec fn lookup(es: Seq<(Seq<char>, JsonValue)>, k: Seq<char>) -> Option<JsonValue> {
    let i = last_key_index(entry_keys(es), k);
    if 0 <= i < es.len() {
        Some(es[i].1)
    } else {
        None
    }
}

impl<'a> EntriesRef<'a> {
    pub open spec fn entries(&self) -> Seq<(Seq<char>, JsonValue)> {
        match self {
            EntriesRef::Row(d) => row_entries(**d),
            EntriesRef::Values(d) => d.items(),
            EntriesRef::Object(es) => string_entries(es@),
        }
    }

    pub fn len(&self) -> (n: usize)
        ensures
            n == self.entries().len(),
    {
        match self {
            EntriesRef::Row(d) => d.len(),
            EntriesRef::Values(d) => d.len(),
            EntriesRef::Object(es) => es.len(),
        }
    }

    pub fn get_index(&self, i: usize) -> (r: (&'a String, &'a JsonValue))
        requires
            i < self.entries().len(),
        ensures
            r.0@ == self.entries()[i as int].0,
            *r.1 == self.entries()[i as int].1,
    {
        match self {
            EntriesRef::Row(d) => {
                let (k, v) = d.get_index(i);
                (k, &v.0)
            },
            EntriesRef::Values(d) => d.get_index(i),
            EntriesRef::Object(es) => (&es[i].0, &es[i].1),
        }
    }

    /// The value of the last entry with key `k`.
    pub fn find(&self, k: &String) -> (r: Option<&'a JsonValue>)
        ensures
            match r {
                Some(v) => lookup(self.entries(), k@) == Some(*v),
                None => lookup(self.entries(), k@) is None,
            },
    {
        let ghost es = self.entries();
        proof {
            lemma_last_key_index(entry_keys(es), k@);
            assert(entry_keys(es).subrange(0, es.len() as int) =~= entry_keys(es));
        }
        let mut i = self.len();
        while i > 0
            invariant
                i <= es.len(),
                es == self.entries(),
                last_key_index(entry_keys(es), k@) == last_key_index(
                    entry_keys(es).subrange(0, i as int),
                    k@,
                ),
            decreases i,
        {
            proof {
                assert(entry_keys(es).subrange(0, i as int).drop_last() =~= entry_keys(es).subrange(
                    0,
                    i - 1,
                ));
            }
            let (key, v) = self.get_index(i - 1);
            proof {
                assert(entry_keys(es)[i - 1] == key@);
            }
            if *key == *k {
                return Some(v);
            }
            i -= 1;
        }
        None
    }
}

/// A row set as the validator reads it.
pub struct RowSetParts<'a> {
    pub aggregates: Option<EntriesRef<'a>>,
    pub rows: Option<Vec<EntriesRef<'a>>>,
}

/// What the validator reads of a row set: the entries of its aggregates and
/// of each of its rows.
pub struct RowSetSpec {
    pub aggregates: Option<Seq<(Seq<char>, JsonValue)>>,
    pub rows: Option<Seq<Seq<(Seq<char>, JsonValue)>>>,
}

impl<'a> RowSetParts<'a> {
    pub open spec fn spec(&self) -> RowSetSpec {
        RowSetSpec {
            aggregates: match self.aggregates {
                Some(a) => Some(a.entries()),
                None => None,
            },
            rows: match self.rows {
                Some(rs) => Some(rs@.map_values(|r: EntriesRef<'a>| r.entries())),
                None => None,
            },
        }
    }
}

/// What the validator reads of a row set.
pub open spec fn rowset_spec(rs: RowSet) -> RowSetSpec {
    RowSetSpec {
        aggregates: match rs.aggregates {
            Some(a) => Some(a.items()),
            None => None,
        },
        rows: match rs.rows {
            Some(rows) => Some(rows@.map_values(|r: Dict<RowFieldValue>| row_entries(r))),
            None => None,
        },
    }
}

impl RowSet {
    /// The row set as the validator reads it.
    pub fn parts(&self) -> (p: RowSetParts<'_>)
        ensures
            p.spec() == rowset_spec(*self),
    {
        let aggregates = match &self.aggregates {
            Some(a) => Some(EntriesRef::Values(a)),
            None => None,
        };
        let rows = match &self.rows {
            Some(rows) => {
                let mut out: Vec<EntriesRef<'_>> = Vec::new();
                let mut i: usize = 0;
                while i < rows.len()
                    invariant
                        i <= rows.len(),
                        out.len() == i,
                        forall|j: int| 0 <= j < i ==> #[trigger] out@[j].entries() == row_entries(rows@[j]),
                    decreases rows.len() - i,
                {
                    out.push(EntriesRef::Row(&rows[i]));
                    i += 1;
                }
                proof {
                    assert(out@.map_values(|r: EntriesRef<'_>| r.entries()) =~= rows@.map_values(
                        |r: Dict<RowFieldValue>| row_entries(r),
                    ));
                }
                Some(out)
            },
            None => None,
        };
        RowSetParts { aggregates, rows }
    }
}

// Reading a row set from JSON, as its derived deserializer does: from an
// object whose fields `aggregates`, `rows` and `groups` may be missing or
// null, or from an array of exactly those three values in that order.

/// The value of a field of a JSON object, if the object has it.
pub open spec fn field_value(es: Vec<(String, JsonValue)>, k: Seq<char>) -> Option<JsonValue> {
    lookup(string_entries(es@), k)
}

/// Reads optional aggregates: missing or null is none; an object gives its
/// entries; anything else does not read.
pub open spec fn read_aggregates(f: Option<JsonValue>) -> Option<Option<Seq<(Seq<char>, JsonValue)>>> {
    match f {
        None => Some(None),
        Some(JsonValue::Null) => Some(None),
        Some(JsonValue::Object(es)) => Some(Some(string_entries(es@))),
        Some(_) => None,
    }
}

/// Reads optional rows: missing or null is none; an array of objects gives
/// the entries of each; anything else does not read.
pub open spec fn read_rows(f: Option<JsonValue>) -> Option<Option<Seq<Seq<(Seq<char>, JsonValue)>>>> {
    match f {
        None => Some(None),
        Some(JsonValue::Null) => Some(None),
        Some(JsonValue::Array(vs)) => if forall|i: int| 0 <= i < vs.len() ==> #[trigger] vs@[i] is Object {
            Some(Some(vs@.map_values(|v: JsonValue| string_entries(v->Object_0@))))
        } else {
            None
        },
        Some(_) => None,
    }
}

/// Whether a JSON value reads as a group: an object with an array
/// `dimensions` and an object `aggregates`, or an array of exactly those
/// two values.
pub open spec fn reads_as_group(v: JsonValue) -> bool {
    match v {
        JsonValue::Object(es) => (field_value(es, "dimensions"@) matches Some(JsonValue::Array(_)))
            && (field_value(es, "aggregates"@) matches Some(JsonValue::Object(_))),
        JsonValue::Array(vs) => vs.len() == 2 && vs@[0] is Array && vs@[1] is Object,
        _ => false,
    }
}

/// Whether optional groups read: missing or null, or an array of groups.
pub open spec fn reads_groups(f: Option<JsonValue>) -> bool {
    match f {
        None => true,
        Some(JsonValue::Null) => true,
        Some(JsonValue::Array(vs)) => forall|i: int| 0 <= i < vs@.len() ==> #[trigger] reads_as_group(vs@[i]),
        Some(_) => false,
    }
}

/// Reads a row set from its three fields.
pub open spec fn read_rowset_fields(a: Option<JsonValue>, r: Option<JsonValue>, g: Option<JsonValue>) -> Option<RowSetSpec> {
    match (read_aggregates(a), read_rows(r)) {
        (Some(aggregates), Some(rows)) => if reads_groups(g) {
            Some(RowSetSpec { aggregates, rows })
        } else {
            None
        },
        _ => None,
    }
}

/// The row set that a JSON value reads as, if it reads as one.
pub open spec fn rowset_of_json(v: JsonValue) -> Option<RowSetSpec> {
    match v {
        JsonValue::Object(es) => read_rowset_fields(
            field_value(es, "aggregates"@),
            field_value(es, "rows"@),
            field_value(es, "groups"@),
        ),
        JsonValue::Array(vs) => if vs.len() == 3 {
            read_rowset_fields(Some(vs@[0]), Some(vs@[1]), Some(vs@[2]))
        } else {
            None
        },
        _ => None,
    }
}

/// The value of a field of a JSON object.
fn object_field<'a>(es: &'a Vec<(String, JsonValue)>, k: &str) -> (r: Option<&'a JsonValue>)
    ensures
        match r {
            Some(v) => field_value(*es, k@) == Some(*v),
            None => field_value(*es, k@) is None,
        },
{
    let key = k.to_string();
    proof {
        lemma_last_key_index(string_keys(es@), key@);
        assert(entry_keys(string_entries(es@)) =~= string_keys(es@));
    }
    match find_last_key(es, &key) {
        Some(i) => Some(&es[i].1),
        None => None,
    }
}

/// Reads optional aggregates.
fn read_aggregates_ref<'a>(f: Option<&'a JsonValue>) -> (r: Option<Option<EntriesRef<'a>>>)
    ensures
        match r {
            Some(Some(e)) => read_aggregates(opt_value(f)) == Some(Some(e.entries())),
            Some(None) => read_aggregates(opt_value(f)) == Some(None::<Seq<(Seq<char>, JsonValue)>>),
            None => read_aggregates(opt_value(f)) is None,
        },
{
    match f {
        None => Some(None),
        Some(v) => match v {
            JsonValue::Null => Some(None),
            JsonValue::Object(es) => Some(Some(EntriesRef::Object(es))),
            _ => None,
        },
    }
}

/// The value behind an optional reference.
pub open spec fn opt_value(f: Option<&JsonValue>) -> Option<JsonValue> {
    match f {
        Some(v) => Some(*v),
        None => None,
    }
}

/// Reads optional rows.
fn read_rows_ref<'a>(f: Option<&'a JsonValue>) -> (r: Option<Option<Vec<EntriesRef<'a>>>>)
    ensures
        match r {
            Some(Some(rows)) => read_rows(opt_value(f)) == Some(Some(rows@.map_values(|e: EntriesRef<'a>| e.entries()))),
            Some(None) => read_rows(opt_value(f)) == Some(None::<Seq<Seq<(Seq<char>, JsonValue)>>>),
            None => read_rows(opt_value(f)) is None,
        },
{
    match f {
        None => Some(None),
        Some(v) => match v {
            JsonValue::Null => Some(None),
            JsonValue::Array(vs) => {
                let mut out: Vec<EntriesRef<'a>> = Vec::new();
                let mut i: usize = 0;
                while i < vs.len()
                    invariant
                        opt_value(f) == Some(JsonValue::Array(*vs)),
                        i <= vs.len(),
                        out.len() == i,
                        forall|j: int| 0 <= j < i ==> #[trigger] vs@[j] is Object,
                        forall|j: int| 0 <= j < i ==> #[trigger] out@[j].entries() == string_entries(vs@[j]->Object_0@),
                    decreases vs.len() - i,
                {
                    match &vs[i] {
                        JsonValue::Object(es) => {
                            out.push(EntriesRef::Object(es));
                        },
                        _ => {
                            proof {
                                assert(!(vs@[i as int] is Object));
                            }
                            return None;
                        },
                    }
                    i += 1;
                }
                proof {
                    assert(out@.map_values(|e: EntriesRef<'a>| e.entries()) =~= vs@.map_values(
                        |v: JsonValue| string_entries(v->Object_0@),
                    ));
                }
                Some(Some(out))
            },
            _ => None,
        },
    }
}

/// Whether a JSON value reads as a group.
fn is_group(v: &JsonValue) -> (b: bool)
    ensures
        b == reads_as_group(*v),
{
    match v {
        JsonValue::Object(es) => {
            let dims = match object_field(es, "dimensions") {
                Some(d) => match d {
                    JsonValue::Array(_) => true,
                    _ => false,
                },
                None => false,
            };
            let aggs = match object_field(es, "aggregates") {
                Some(a) => match a {
                    JsonValue::Object(_) => true,
                    _ => false,
                },
                None => false,
            };
            dims && aggs
        },
        JsonValue::Array(vs) => {
            if vs.len() != 2 {
                false
            } else {
                let d = match &vs[0] {
                    JsonValue::Array(_) => true,
                    _ => false,
                };
                let a = match &vs[1] {
                    JsonValue::Object(_) => true,
                    _ => false,
                };
                d && a
            }
        },
        _ => false,
    }
}

/// Whether optional groups read.
fn groups_read(f: Option<&JsonValue>) -> (b: bool)
    ensures
        b == reads_groups(opt_value(f)),
{
    match f {
        None => true,
        Some(v) => match v {
            JsonValue::Null => true,
            JsonValue::Array(vs) => {
                let mut i: usize = 0;
                while i < vs.len()
                    invariant
                        opt_value(f) == Some(JsonValue::Array(*vs)),
                        i <= vs.len(),
                        forall|j: int| 0 <= j < i ==> #[trigger] reads_as_group(vs@[j]),
                    decreases vs.len() - i,
                {
                    if !is_group(&vs[i]) {
                        proof {
                            assert(!reads_as_group(vs@[i as int]));
                            let g = Some(JsonValue::Array(*vs));
                            assert(g matches Some(JsonValue::Array(ws)) && ws == *vs);
                            assert(reads_groups(g) == (forall|j: int| 0 <= j < vs@.len() ==> #[trigger] reads_as_group(vs@[j])));
                        }
                        return false;
                    }
                    i += 1;
                }
                true
            },
            _ => false,
        },
    }
}

fn read_fields<'a>(a: Option<&'a JsonValue>, r: Option<&'a JsonValue>, g: Option<&'a JsonValue>) -> (p: Option<RowSetParts<'a>>)
    ensures
        match p {
            Some(p) => read_rowset_fields(opt_value(a), opt_value(r), opt_value(g)) == Some(p.spec()),
            None => read_rowset_fields(opt_value(a), opt_value(r), opt_value(g)) is None,
        },
{
    let aggregates = match read_aggregates_ref(a) {
        Some(x) => x,
        None => {
            return None;
        },
    };
    let rows = match read_rows_ref(r) {
        Some(x) => x,
        None => {
            return None;
        },
    };
    if !groups_read(g) {
        return None;
    }
    Some(RowSetParts { aggregates, rows })
}

/// Reads a row set from JSON, in place, as its derived deserializer reads
/// one.
pub fn rowset_parts_of_json<'a>(v: &'a JsonValue) -> (r: Option<RowSetParts<'a>>)
    ensures
        match r {
            Some(p) => rowset_of_json(*v) == Some(p.spec()),
            None => rowset_of_json(*v) is None,
        },
{
    match v {
        JsonValue::Object(es) => read_fields(
            object_field(es, "aggregates"),
            object_field(es, "rows"),
            object_field(es, "groups"),
        ),
        JsonValue::Array(vs) => {
            if vs.len() == 3 {
                read_fields(Some(&vs[0]), Some(&vs[1]), Some(&vs[2]))
            } else {
                None
            }
        },
        _ => None,
    }
}

/// The entries of a map with each value taken by its meaning.
pub open spec fn value_entries(es: Seq<(Seq<char>, JsonValue)>) -> Seq<(Seq<char>, Json)> {
    es.map_values(|e: (Seq<char>, JsonValue)| (e.0, e.1@))
}

/// The map that entries denote, values taken by their meaning.
pub open spec fn entries_value(es: Seq<(Seq<char>, JsonValue)>) -> Map<Seq<char>, Json> {
    entries_map(value_entries(es))
}

proof fn lemma_entries_value(es: Seq<(Seq<char>, JsonValue)>, k: Seq<char>)
    ensures
        entries_value(es).contains_key(k) <==> lookup(es, k) is Some,
        lookup(es, k) is Some ==> entries_value(es)[k] == lookup(es, k)->Some_0@,
        entries_value(es).dom().finite(),
        forall|kk: Seq<char>| #[trigger] entries_value(es).contains_key(kk) <==> entry_keys(es).contains(kk),
{
    assert(entry_keys(value_entries(es)) =~= entry_keys(es));
    lemma_entries_map(value_entries(es), k);
    lemma_last_key_index(entry_keys(es), k);
    lemma_entries_map_dom(value_entries(es));
}

/// The map that entries denote holds a key exactly when the entries do,
/// with the value of the entry that the key finds.
pub proof fn lemma_entries_value_public(es: Seq<(Seq<char>, JsonValue)>, k: Seq<char>)
    ensures
        entries_value(es).contains_key(k) <==> lookup(es, k) is Some,
        lookup(es, k) is Some ==> entries_value(es)[k] == lookup(es, k)->Some_0@,
        entries_value(es).dom().finite(),
{
    lemma_entries_value(es, k);
}

/// Whether two sets of entries denote the same map, values compared by
/// their meaning, whatever the order of the entries.
pub fn entries_equal(a: &EntriesRef, b: &EntriesRef) -> (r: bool)
    ensures
        r == (entries_value(a.entries()) == entries_value(b.entries())),
{
    let ghost ea = a.entries();
    let ghost eb = b.entries();
    let ghost ma = entries_value(ea);
    let ghost mb = entries_value(eb);
    let mut i: usize = 0;
    while i < a.len()
        invariant
            ea == a.entries(),
            eb == b.entries(),
            ma == entries_value(ea),
            mb == entries_value(eb),
            i <= ea.len(),
            forall|k: Seq<char>|
                0 <= #[trigger] last_key_index(entry_keys(ea), k) < i ==> mb.contains_key(k)
                    && ma[k] == mb[k],
        decreases ea.len() - i,
    {
        let (k, v) = a.get_index(i);
        proof {
            lemma_entries_value(ea, k@);
            lemma_entries_value(eb, k@);
            lemma_last_key_index(entry_keys(ea), k@);
            assert(entry_keys(ea)[i as int] == k@);
        }
        match a.find(k) {
            Some(x) => {
                match b.find(k) {
                    Some(y) => {
                        if !json_eq(x, y) {
                            proof {
                                assert(ma[k@] != mb[k@]);
                            }
                            return false;
                        }
                    },
                    None => {
                        proof {
                            assert(ma.contains_key(k@) && !mb.contains_key(k@));
                        }
                        return false;
                    },
                }
            },
            None => {},
        }
        proof {
            assert forall|kk: Seq<char>|
                0 <= #[trigger] last_key_index(entry_keys(ea), kk) < i + 1 implies mb.contains_key(kk)
                && ma[kk] == mb[kk] by {
                if last_key_index(entry_keys(ea), kk) == i {
                    lemma_last_key_index(entry_keys(ea), kk);
                    assert(kk == k@);
                }
            }
        }
        i += 1;
    }
    proof {
        assert forall|k: Seq<char>| #[trigger] ma.contains_key(k) implies mb.contains_key(k) && ma[k]
            == mb[k] by {
            lemma_entries_value(ea, k);
            lemma_last_key_index(entry_keys(ea), k);
        }
    }
    let mut j: usize = 0;
    while j < b.len()
        invariant
            ea == a.entries(),
            eb == b.entries(),
            ma == entries_value(ea),
            mb == entries_value(eb),
            j <= eb.len(),
            forall|k: Seq<char>| #[trigger] ma.contains_key(k) ==> mb.contains_key(k) && ma[k] == mb[k],
            forall|jj: int| 0 <= jj < j ==> ma.contains_key(#[trigger] entry_keys(eb)[jj]),
        decreases eb.len() - j,
    {
        let (k, _) = b.get_index(j);
        proof {
            lemma_entries_value(ea, k@);
            assert(entry_keys(eb)[j as int] == k@);
        }
        match a.find(k) {
            Some(_) => {},
            None => {
                proof {
                    lemma_entries_value(eb, k@);
                    assert(entry_keys(eb).contains(k@));
                    assert(mb.contains_key(k@) && !ma.contains_key(k@));
                }
                return false;
            },
        }
        j += 1;
    }
    proof {
        assert forall|k: Seq<char>| mb.contains_key(k) implies ma.contains_key(k) by {
            lemma_entries_value(eb, k);
            let jj = choose|jj: int| 0 <= jj < entry_keys(eb).len() && #[trigger] entry_keys(eb)[jj] == k;
        }
        assert(ma =~= mb);
    }
    true
}

/// The meaning of a row set: its maps compared by their entries, whatever
/// their order, and its values by their meaning.
pub struct RowSetValue {
    pub aggregates: Option<Map<Seq<char>, Json>>,
    pub rows: Option<Seq<Map<Seq<char>, Json>>>,
    pub groups: Option<Seq<(Seq<Json>, Map<Seq<char>, Json>)>>,
}

pub open spec fn group_value(g: Group) -> (Seq<Json>, Map<Seq<char>, Json>) {
    (g.dimensions@.map_values(|x: JsonValue| x@), entries_value(g.aggregates.items()))
}

pub open spec fn rowset_value(rs: RowSet) -> RowSetValue {
    RowSetValue {
        aggregates: match rs.aggregates {
            Some(a) => Some(entries_value(a.items())),
            None => None,
        },
        rows: match rs.rows {
            Some(rows) => Some(rows@.map_values(|d: Dict<RowFieldValue>| entries_value(row_entries(d)))),
            None => None,
        },
        groups: match rs.groups {
            Some(gs) => Some(gs@.map_values(|g: Group| group_value(g))),
            None => None,
        },
    }
}

/// The meaning of a query response: that of each of its row sets.
pub open spec fn response_value(r: QueryResponse) -> Seq<RowSetValue> {
    r.0@.map_values(|rs: RowSet| rowset_value(rs))
}

/// A copy of a row of a response.
fn copy_row_fields(d: &Dict<RowFieldValue>) -> (r: Dict<RowFieldValue>)
    ensures
        value_entries(row_entries(r)) == value_entries(row_entries(*d)),
{
    let mut out: Vec<(String, RowFieldValue)> = Vec::new();
    let mut i: usize = 0;
    while i < d.len()
        invariant
            i <= d.items().len(),
            out.len() == i,
            forall|j: int| 0 <= j < i ==> #[trigger] out@[j].0@ == d.items()[j].0 && out@[j].1.0@ == d.items()[j].1.0@,
        decreases d.items().len() - i,
    {
        let (k, v) = d.get_index(i);
        out.push((k.clone(), RowFieldValue(v.0.clone_value())));
        i += 1;
    }
    let r = Dict::from_entries(out);
    proof {
        assert(value_entries(row_entries(r)) =~= value_entries(row_entries(*d)));
    }
    r
}

/// A copy of a group of a response.
fn copy_group(g: &Group) -> (r: Group)
    ensures
        group_value(r) == group_value(*g),
{
    let dimensions = crate::evaluate::copy_values(&g.dimensions);
    let aggregates = crate::engine::copy_row(&g.aggregates);
    let r = Group { dimensions, aggregates };
    proof {
        assert(r.dimensions@.map_values(|x: JsonValue| x@) =~= g.dimensions@.map_values(|x: JsonValue| x@));
    }
    r
}

/// A copy of a row set of a response.
fn copy_rowset(rs: &RowSet) -> (r: RowSet)
    ensures
        rowset_value(r) == rowset_value(*rs),
{
    let aggregates = match &rs.aggregates {
        Some(a) => Some(crate::engine::copy_row(a)),
        None => None,
    };
    let rows = match &rs.rows {
        Some(rows) => {
            let mut out: Vec<Dict<RowFieldValue>> = Vec::new();
            let mut i: usize = 0;
            while i < rows.len()
                invariant
                    i <= rows.len(),
                    out.len() == i,
                    forall|j: int| 0 <= j < i ==> entries_value(row_entries(#[trigger] out@[j])) == entries_value(row_entries(rows@[j])),
                decreases rows.len() - i,
            {
                out.push(copy_row_fields(&rows[i]));
                i += 1;
            }
            proof {
                assert(out@.map_values(|d: Dict<RowFieldValue>| entries_value(row_entries(d))) =~= rows@.map_values(
                    |d: Dict<RowFieldValue>| entries_value(row_entries(d)),
                ));
            }
            Some(out)
        },
        None => None,
    };
    let groups = match &rs.groups {
        Some(gs) => {
            let mut out: Vec<Group> = Vec::new();
            let mut i: usize = 0;
            while i < gs.len()
                invariant
                    i <= gs.len(),
                    out.len() == i,
                    forall|j: int| 0 <= j < i ==> group_value(#[trigger] out@[j]) == group_value(gs@[j]),
                decreases gs.len() - i,
            {
                out.push(copy_group(&gs[i]));
                i += 1;
            }
            proof {
                assert(out@.map_values(|g: Group| group_value(g)) =~= gs@.map_values(|g: Group| group_value(g)));
            }
            Some(out)
        },
        None => None,
    };
    RowSet { aggregates, rows, groups }
}

/// A copy of a query response, with the same meaning.
pub fn copy_response(r: &QueryResponse) -> (c: QueryResponse)
    ensures
        response_value(c) == response_value(*r),
{
    let mut out: Vec<RowSet> = Vec::new();
    let mut i: usize = 0;
    while i < r.0.len()
        invariant
            i <= r.0.len(),
            out.len() == i,
            forall|j: int| 0 <= j < i ==> rowset_value(#[trigger] out@[j]) == rowset_value(r.0@[j]),
        decreases r.0.len() - i,
    {
        out.push(copy_rowset(&r.0[i]));
        i += 1;
    }
    let c = QueryResponse(out);
    proof {
        assert(response_value(c) =~= response_value(*r));
    }
    c
}

/// Whether two lists of values have the same meaning.
pub fn json_values_equal(a: &Vec<JsonValue>, b: &Vec<JsonValue>) -> (r: bool)
    ensures
        r == (a@.map_values(|x: JsonValue| x@) == b@.map_values(|x: JsonValue| x@)),
{
    if a.len() != b.len() {
        proof {
            assert(a@.map_values(|x: JsonValue| x@).len() != b@.map_values(|x: JsonValue| x@).len());
        }
        return false;
    }
    let mut i: usize = 0;
    while i < a.len()
        invariant
            a.len() == b.len(),
            i <= a.len(),
            forall|j: int| 0 <= j < i ==> a@[j]@ == b@[j]@,
        decreases a.len() - i,
    {
        if !json_eq(&a[i], &b[i]) {
            proof {
                assert(a@.map_values(|x: JsonValue| x@)[i as int] != b@.map_values(|x: JsonValue| x@)[i as int]);
            }
            return false;
        }
        i += 1;
    }
    proof {
        assert(a@.map_values(|x: JsonValue| x@) =~= b@.map_values(|x: JsonValue| x@));
    }
    true
}

fn groups_equal(a: &Vec<Group>, b: &Vec<Group>) -> (r: bool)
    ensures
        r == (a@.map_values(|g: Group| group_value(g)) == b@.map_values(|g: Group| group_value(g))),
{
    if a.len() != b.len() {
        proof {
            assert(a@.map_values(|g: Group| group_value(g)).len() != b@.map_values(|g: Group| group_value(g)).len());
        }
        return false;
    }
    let mut i: usize = 0;
    while i < a.len()
        invariant
            a.len() == b.len(),
            i <= a.len(),
            forall|j: int| 0 <= j < i ==> group_value(a@[j]) == group_value(b@[j]),
        decreases a.len() - i,
    {
        let same = json_values_equal(&a[i].dimensions, &b[i].dimensions) && entries_equal(
            &EntriesRef::Values(&a[i].aggregates),
            &EntriesRef::Values(&b[i].aggregates),
        );
        if !same {
            proof {
                assert(a@.map_values(|g: Group| group_value(g))[i as int] != b@.map_values(|g: Group| group_value(g))[i as int]);
            }
            return false;
        }
        i += 1;
    }
    proof {
        assert(a@.map_values(|g: Group| group_value(g)) =~= b@.map_values(|g: Group| group_value(g)));
    }
    true
}

fn rows_equal(a: &Vec<Dict<RowFieldValue>>, b: &Vec<Dict<RowFieldValue>>) -> (r: bool)
    ensures
        r == (a@.map_values(|d: Dict<RowFieldValue>| entries_value(row_entries(d))) == b@.map_values(
            |d: Dict<RowFieldValue>| entries_value(row_entries(d)),
        )),
{
    if a.len() != b.len() {
        proof {
            assert(a@.map_values(|d: Dict<RowFieldValue>| entries_value(row_entries(d))).len()
                != b@.map_values(|d: Dict<RowFieldValue>| entries_value(row_entries(d))).len());
        }
        return false;
    }
    let mut i: usize = 0;
    while i < a.len()
        invariant
            a.len() == b.len(),
            i <= a.len(),
            forall|j: int| 0 <= j < i ==> entries_value(row_entries(a@[j])) == entries_value(row_entries(b@[j])),
        decreases a.len() - i,
    {
        if !entries_equal(&EntriesRef::Row(&a[i]), &EntriesRef::Row(&b[i])) {
            proof {
                assert(a@.map_values(|d: Dict<RowFieldValue>| entries_value(row_entries(d)))[i as int]
                    != b@.map_values(|d: Dict<RowFieldValue>| entries_value(row_entries(d)))[i as int]);
            }
            return false;
        }
        i += 1;
    }
    proof {
        assert(a@.map_values(|d: Dict<RowFieldValue>| entries_value(row_entries(d))) =~= b@.map_values(
            |d: Dict<RowFieldValue>| entries_value(row_entries(d)),
        ));
    }
    true
}

/// Whether two row sets have the same meaning.
pub fn rowset_equal(a: &RowSet, b: &RowSet) -> (r: bool)
    ensures
        r == (rowset_value(*a) == rowset_value(*b)),
{
    let aggregates = match (&a.aggregates, &b.aggregates) {
        (Some(x), Some(y)) => entries_equal(&EntriesRef::Values(x), &EntriesRef::Values(y)),
        (None, None) => true,
        _ => false,
    };
    let rows = match (&a.rows, &b.rows) {
        (Some(x), Some(y)) => rows_equal(x, y),
        (None, None) => true,
        _ => false,
    };
    let groups = match (&a.groups, &b.groups) {
        (Some(x), Some(y)) => groups_equal(x, y),
        (None, None) => true,
        _ => false,
    };
    aggregates && rows && groups
}

/// Whether two query responses have the same meaning.
pub fn response_equal(a: &QueryResponse, b: &QueryResponse) -> (r: bool)
    ensures
        r == (response_value(*a) == response_value(*b)),
{
    if a.0.len() != b.0.len() {
        proof {
            assert(response_value(*a).len() != response_value(*b).len());
        }
        return false;
    }
    let mut i: usize = 0;
    while i < a.0.len()
        invariant
            a.0.len() == b.0.len(),
            i <= a.0.len(),
            forall|j: int| 0 <= j < i ==> rowset_value(a.0@[j]) == rowset_value(b.0@[j]),
        decreases a.0.len() - i,
    {
        if !rowset_equal(&a.0[i], &b.0[i]) {
            proof {
                assert(response_value(*a)[i as int] != response_value(*b)[i as int]);
            }
            return false;
        }
        i += 1;
    }
    proof {
        assert(response_value(*a) =~= response_value(*b));
    }
    true
}

} // verus!
