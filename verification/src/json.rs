use vstd::prelude::*;

verus! {

/// A JSON number as the data model distinguishes them: non-negative
/// integers, negative integers, and floating-point numbers.  A float is held
/// by its IEEE-754 bit pattern; two floats are equal when their bits are,
/// and negative zero equals positive zero.
#[derive(Clone, Copy, Debug)]
pub enum JsonNumber {
    PosInt(u64),
    NegInt(i64),
    Float(u64),
}

/// A JSON value.  An object is a list of entries; when a key occurs more
/// than once, the last entry is the one that counts.
#[derive(Debug)]
pub enum JsonValue {
    Null,
    Bool(bool),
    Number(JsonNumber),
    String(String),
    Array(Vec<JsonValue>),
    Object(Vec<(String, JsonValue)>),
}

/// The mathematical meaning of a JSON value: integers by their value,
/// floats by their bits (negative zero taken as positive zero), objects as
/// maps from keys to values.
pub enum Json {
    Null,
    Bool(bool),
    Int(int),
    Float(u64),
    Str(Seq<char>),
    Array(Seq<Json>),
    Object(Map<Seq<char>, Json>),
}

/// The map that a list of entries denotes: a later entry overrides an
/// earlier one with the same key.
pub open spec fn entries_map<V>(s: Seq<(Seq<char>, V)>) -> Map<Seq<char>, V>
    decreases s.len(),
{
    if s.len() == 0 {
        Map::empty()
    } else {
        entries_map(s.drop_last()).insert(s.last().0, s.last().1)
    }
}

/// An entry's key is a key of the map that the entries denote.
pub proof fn lemma_entries_has<V>(s: Seq<(Seq<char>, V)>, j: int)
    requires
        0 <= j < s.len(),
    ensures
        entries_map(s).contains_key(s[j].0),
    decreases s.len(),
{
    if j < s.len() - 1 {
        lemma_entries_has(s.drop_last(), j);
        assert(s.drop_last()[j] == s[j]);
    }
}

/// A key of the map that entries denote is the key of one of them.
pub proof fn lemma_entries_key<V>(s: Seq<(Seq<char>, V)>, k: Seq<char>)
    requires
        entries_map(s).contains_key(k),
    ensures
        exists|j: int| 0 <= j < s.len() && (#[trigger] s[j]).0 == k,
    decreases s.len(),
{
    if s.len() > 0 {
        if s.last().0 == k {
            assert(s[s.len() - 1].0 == k);
        } else {
            lemma_entries_key(s.drop_last(), k);
            let j = choose|j: int| 0 <= j < s.drop_last().len() && (#[trigger] s.drop_last()[j]).0 == k;
            assert(s[j] == s.drop_last()[j]);
        }
    }
}

/// The index of the last key equal to `k`, or -1 when there is none.
pub open spec fn last_key_index(keys: Seq<Seq<char>>, k: Seq<char>) -> int
    decreases keys.len(),
{
    if keys.len() == 0 {
        -1
    } else if keys.last() == k {
        keys.len() - 1
    } else {
        last_key_index(keys.drop_last(), k)
    }
}

/// The keys of a list of entries.
pub open spec fn entry_keys<V>(s: Seq<(Seq<char>, V)>) -> Seq<Seq<char>> {
    s.map_values(|e: (Seq<char>, V)| e.0)
}

/// The keys of a list of entries with `String` keys.
pub open spec fn string_keys<V>(s: Seq<(String, V)>) -> Seq<Seq<char>> {
    s.map_values(|e: (String, V)| e.0@)
}

/// A list of entries with `String` keys, keys taken by their view.
pub open spec fn string_entries<V>(s: Seq<(String, V)>) -> Seq<(Seq<char>, V)> {
    s.map_values(|e: (String, V)| (e.0@, e.1))
}

pub proof fn lemma_last_key_index(keys: Seq<Seq<char>>, k: Seq<char>)
    ensures
        -1 <= last_key_index(keys, k) < keys.len(),
        last_key_index(keys, k) >= 0 ==> keys[last_key_index(keys, k)] == k,
        forall|j: int| last_key_index(keys, k) < j < keys.len() ==> keys[j] != k,
    decreases keys.len(),
{
    if keys.len() > 0 {
        lemma_last_key_index(keys.drop_last(), k);
        assert forall|j: int| last_key_index(keys, k) < j < keys.len() implies keys[j] != k by {
            if j < keys.len() - 1 {
                assert(keys.drop_last()[j] == keys[j]);
            }
        }
    }
}

pub proof fn lemma_entries_map<V>(s: Seq<(Seq<char>, V)>, k: Seq<char>)
    ensures
        entries_map(s).contains_key(k) <==> last_key_index(entry_keys(s), k) >= 0,
        last_key_index(entry_keys(s), k) >= 0 ==> entries_map(s)[k] == s[last_key_index(
            entry_keys(s),
            k,
        )].1,
    decreases s.len(),
{
    if s.len() > 0 {
        let t = s.drop_last();
        lemma_entries_map(t, k);
        assert(entry_keys(t) =~= entry_keys(s).drop_last());
        assert(entry_keys(s).last() == s.last().0);
        let li = last_key_index(entry_keys(t), k);
        if s.last().0 != k && li >= 0 {
            lemma_last_key_index(entry_keys(t), k);
            assert(s[li] == t[li]);
        }
    }
}

/// The keys of a map built from entries are those of the entries.
pub proof fn lemma_entries_map_dom<V>(s: Seq<(Seq<char>, V)>)
    ensures
        entries_map(s).dom().finite(),
        forall|k: Seq<char>| entries_map(s).contains_key(k) <==> entry_keys(s).contains(k),
    decreases s.len(),
{
    if s.len() > 0 {
        let t = s.drop_last();
        lemma_entries_map_dom(t);
        assert(entry_keys(t) =~= entry_keys(s).drop_last());
        assert forall|k: Seq<char>| entries_map(s).contains_key(k) <==> entry_keys(s).contains(
            k,
        ) by {
            if entry_keys(s).contains(k) {
                let j = choose|j: int| 0 <= j < entry_keys(s).len() && entry_keys(s)[j] == k;
                if j < s.len() - 1 {
                    assert(entry_keys(t)[j] == k);
                    assert(entry_keys(t).contains(k));
                } else {
                    assert(s.last().0 == k);
                }
            }
            if entries_map(s).contains_key(k) {
                if k == s.last().0 {
                    assert(entry_keys(s)[s.len() - 1] == k);
                } else {
                    assert(entries_map(t).contains_key(k));
                    assert(entry_keys(t).contains(k));
                    let j = choose|j: int| 0 <= j < entry_keys(t).len() && entry_keys(t)[j] == k;
                    assert(entry_keys(s)[j] == k);
                }
            }
        }
    }
}

/// The entries of an object, keys and values taken by their views.
pub open spec fn object_entries(es: Seq<(String, JsonValue)>) -> Seq<(Seq<char>, Json)> {
    es.map_values(|e: (String, JsonValue)| (e.0@, e.1@))
}

impl JsonValue {
    pub open spec fn json(&self) -> Json
        decreases self, 0nat,
    {
        match self {
            JsonValue::Null => Json::Null,
            JsonValue::Bool(b) => Json::Bool(*b),
            JsonValue::Number(n) => n.json(),
            JsonValue::String(s) => Json::Str(s@),
            JsonValue::Array(v) => Json::Array(
                Seq::new(
                    v.len() as nat,
                    |i: int|
                        if 0 <= i < v.len() {
                            v[i].json()
                        } else {
                            Json::Null
                        },
                ),
            ),
            JsonValue::Object(es) => Json::Object(object_json(es, es.len() as nat)),
        }
    }
}

/// The map that the first `n` entries of an object denote.
pub open spec fn object_json(es: &Vec<(String, JsonValue)>, n: nat) -> Map<Seq<char>, Json>
    decreases es, n,
{
    if n == 0 || n > es.len() {
        Map::empty()
    } else {
        object_json(es, (n - 1) as nat).insert(es[n - 1].0@, es[n - 1].1.json())
    }
}

impl JsonNumber {
    pub open spec fn json(self) -> Json {
        match self {
            JsonNumber::PosInt(u) => Json::Int(u as int),
            JsonNumber::NegInt(i) => Json::Int(i as int),
            JsonNumber::Float(b) => Json::Float(float_meaning(b)),
        }
    }
}

/// The bits that stand for a float's value: those of positive zero for
/// negative zero, its own otherwise.
pub open spec fn float_meaning(bits: u64) -> u64 {
    if bits == 0x8000_0000_0000_0000 {
        0
    } else {
        bits
    }
}

/// The bits that stand for a float's value.
pub fn float_value_bits(bits: u64) -> (r: u64)
    ensures
        r == float_meaning(bits),
{
    if bits == 0x8000_0000_0000_0000 {
        0
    } else {
        bits
    }
}

impl View for JsonValue {
    type V = Json;

    open spec fn view(&self) -> Json {
        self.json()
    }
}

/// The meanings of values.
pub open spec fn views(vs: Seq<JsonValue>) -> Seq<Json> {
    vs.map_values(|x: JsonValue| x@)
}

pub proof fn lemma_array_view(v: Vec<JsonValue>)
    ensures
        JsonValue::Array(v)@ == Json::Array(v@.map_values(|x: JsonValue| x@)),
{
    let a = JsonValue::Array(v)@;
    assert(a->Array_0 =~= v@.map_values(|x: JsonValue| x@));
}

proof fn lemma_object_json(es: Vec<(String, JsonValue)>, n: nat)
    requires
        n <= es.len(),
    ensures
        object_json(&es, n) == entries_map(object_entries(es@).take(n as int)),
    decreases n,
{
    if n > 0 {
        lemma_object_json(es, (n - 1) as nat);
        assert(object_entries(es@).take(n as int).drop_last() =~= object_entries(es@).take(
            n - 1,
        ));
    }
}

pub proof fn lemma_object_view(es: Vec<(String, JsonValue)>)
    ensures
        JsonValue::Object(es)@ == Json::Object(entries_map(object_entries(es@))),
{
    lemma_object_json(es, es.len() as nat);
    assert(object_entries(es@).take(es.len() as int) =~= object_entries(es@));
}

/// A JSON value as an unsigned 64-bit integer, when it is one.
pub open spec fn json_as_u64(j: Json) -> Option<int> {
    match j {
        Json::Int(i) => if 0 <= i <= u64::MAX {
            Some(i)
        } else {
            None
        },
        _ => None,
    }
}

/// The integer that `as_i64` gives for a JSON value.
pub open spec fn json_as_i64(j: Json) -> Option<int> {
    match j {
        Json::Int(v) => if i64::MIN <= v <= i64::MAX {
            Some(v)
        } else {
            None
        },
        _ => None,
    }
}

/// Finds the last entry whose key is `k`.
pub fn find_last_key<V>(es: &Vec<(String, V)>, k: &String) -> (r: Option<usize>)
    ensures
        match r {
            Some(i) => i as int == last_key_index(string_keys(es@), k@),
            None => last_key_index(string_keys(es@), k@) == -1,
        },
{
    let mut i = es.len();
    proof {
        assert(string_keys(es@).subrange(0, i as int) =~= string_keys(es@));
    }
    while i > 0
        invariant
            i <= es.len(),
            last_key_index(string_keys(es@), k@) == last_key_index(
                string_keys(es@).subrange(0, i as int),
                k@,
            ),
        decreases i,
    {
        proof {
            assert(string_keys(es@).subrange(0, i as int).drop_last() =~= string_keys(
                es@,
            ).subrange(0, i - 1));
        }
        if es[i - 1].0 == *k {
            return Some(i - 1);
        }
        i -= 1;
    }
    None
}

impl JsonNumber {
    /// Builds the number of a machine integer.
    pub fn from_i64(i: i64) -> (r: JsonNumber)
        ensures
            r.json() == Json::Int(i as int),
    {
        if i >= 0 {
            JsonNumber::PosInt(i as u64)
        } else {
            JsonNumber::NegInt(i)
        }
    }

    /// Builds the number of an unsigned machine integer.
    pub fn from_u64(u: u64) -> (r: JsonNumber)
        ensures
            r.json() == Json::Int(u as int),
    {
        JsonNumber::PosInt(u)
    }
}

impl JsonValue {
    pub fn is_null(&self) -> (r: bool)
        ensures
            r == (self@ is Null),
    {
        match self {
            JsonValue::Null => true,
            JsonValue::Number(n) => match n {
                JsonNumber::PosInt(_) => false,
                JsonNumber::NegInt(_) => false,
                JsonNumber::Float(_) => false,
            },
            _ => false,
        }
    }

    /// The value as a 64-bit signed integer, when it is an integer in range.
    pub fn as_i64(&self) -> (r: Option<i64>)
        ensures
            match r {
                Some(i) => json_as_i64(self@) == Some(i as int),
                None => json_as_i64(self@) is None,
            },
    {
        match self {
            JsonValue::Number(JsonNumber::PosInt(u)) => {
                if *u <= i64::MAX as u64 {
                    Some(*u as i64)
                } else {
                    None
                }
            },
            JsonValue::Number(JsonNumber::NegInt(i)) => Some(*i),
            _ => None,
        }
    }

    /// The value as a 64-bit unsigned integer, when it is an integer in
    /// range.
    pub fn as_u64(&self) -> (r: Option<u64>)
        ensures
            match r {
                Some(u) => json_as_u64(self@) == Some(u as int),
                None => json_as_u64(self@) is None,
            },
    {
        match self {
            JsonValue::Number(JsonNumber::PosInt(u)) => Some(*u),
            JsonValue::Number(JsonNumber::NegInt(i)) => {
                if *i >= 0 {
                    Some(*i as u64)
                } else {
                    None
                }
            },
            _ => None,
        }
    }

    /// The string, when the value is one.
    pub fn as_str(&self) -> (r: Option<&String>)
        ensures
            match r {
                Some(s) => self@ == Json::Str(s@),
                None => !(self@ is Str),
            },
    {
        match self {
            JsonValue::String(s) => Some(s),
            JsonValue::Number(n) => match n {
                JsonNumber::PosInt(_) => None,
                JsonNumber::NegInt(_) => None,
                JsonNumber::Float(_) => None,
            },
            _ => None,
        }
    }

    /// The elements, when the value is an array.
    pub fn as_array(&self) -> (r: Option<&Vec<JsonValue>>)
        ensures
            match r {
                Some(v) => self@ == Json::Array(v@.map_values(|x: JsonValue| x@)),
                None => !(self@ is Array),
            },
    {
        match self {
            JsonValue::Array(v) => {
                proof {
                    lemma_array_view(*v);
                }
                Some(v)
            },
            JsonValue::Number(n) => match n {
                JsonNumber::PosInt(_) => None,
                JsonNumber::NegInt(_) => None,
                JsonNumber::Float(_) => None,
            },
            _ => None,
        }
    }

    /// The value of a key, when the value is an object that has it.
    pub fn get(&self, k: &String) -> (r: Option<&JsonValue>)
        ensures
            match r {
                Some(v) => self@ is Object && self@->Object_0.contains_key(k@)
                    && self@->Object_0[k@] == v@,
                None => !(self@ is Object && self@->Object_0.contains_key(k@)),
            },
    {
        match self {
            JsonValue::Object(es) => {
                proof {
                    lemma_object_view(*es);
                    lemma_entries_map(object_entries(es@), k@);
                    assert(entry_keys(object_entries(es@)) =~= string_keys(es@));
                    lemma_last_key_index(string_keys(es@), k@);
                }
                match find_last_key(es, k) {
                    Some(i) => Some(&es[i].1),
                    None => None,
                }
            },
            JsonValue::Number(n) => match n {
                JsonNumber::PosInt(_) => None,
                JsonNumber::NegInt(_) => None,
                JsonNumber::Float(_) => None,
            },
            _ => None,
        }
    }
}

impl JsonValue {
    /// A copy of the value.
    pub fn clone_value(&self) -> (r: JsonValue)
        ensures
            r@ == self@,
        decreases self,
    {
        match self {
            JsonValue::Null => JsonValue::Null,
            JsonValue::Bool(b) => JsonValue::Bool(*b),
            JsonValue::Number(n) => JsonValue::Number(*n),
            JsonValue::String(s) => JsonValue::String(s.clone()),
            JsonValue::Array(v) => {
                let mut out: Vec<JsonValue> = Vec::new();
                let mut i: usize = 0;
                while i < v.len()
                    invariant
                        *self == JsonValue::Array(*v),
                        i <= v.len(),
                        out.len() == i,
                        forall|j: int| 0 <= j < i ==> out@[j]@ == v@[j]@,
                    decreases v.len() - i,
                {
                    proof {
                        assert(decreases_to!(*self => (*self)->Array_0));
                        assert(decreases_to!(*v => v[i as int]));
                    }
                    out.push(v[i].clone_value());
                    i += 1;
                }
                proof {
                    lemma_array_view(*v);
                    lemma_array_view(out);
                    assert(out@.map_values(|x: JsonValue| x@) =~= v@.map_values(|x: JsonValue| x@));
                }
                JsonValue::Array(out)
            },
            JsonValue::Object(es) => {
                let mut out: Vec<(String, JsonValue)> = Vec::new();
                let mut i: usize = 0;
                while i < es.len()
                    invariant
                        *self == JsonValue::Object(*es),
                        i <= es.len(),
                        out.len() == i,
                        forall|j: int| 0 <= j < i ==> out@[j].0@ == es@[j].0@ && out@[j].1@ == es@[j].1@,
                    decreases es.len() - i,
                {
                    proof {
                        assert(decreases_to!(*self => (*self)->Object_0));
                        assert(decreases_to!(*es => es[i as int]));
                        assert(decreases_to!(es[i as int] => es[i as int].1));
                    }
                    out.push((es[i].0.clone(), es[i].1.clone_value()));
                    i += 1;
                }
                proof {
                    lemma_object_view(*es);
                    lemma_object_view(out);
                    assert(object_entries(out@) =~= object_entries(es@));
                }
                JsonValue::Object(out)
            },
        }
    }
}

/// Equality of numbers by their meaning.
pub fn number_eq(a: &JsonNumber, b: &JsonNumber) -> (r: bool)
    ensures
        r == (a.json() == b.json()),
{
    match (a, b) {
        (JsonNumber::PosInt(x), JsonNumber::PosInt(y)) => *x == *y,
        (JsonNumber::NegInt(x), JsonNumber::NegInt(y)) => *x == *y,
        (JsonNumber::PosInt(x), JsonNumber::NegInt(y)) => *y >= 0 && *x == *y as u64,
        (JsonNumber::NegInt(x), JsonNumber::PosInt(y)) => *x >= 0 && *y == *x as u64,
        (JsonNumber::Float(x), JsonNumber::Float(y)) => float_value_bits(*x) == float_value_bits(*y),
        (JsonNumber::Float(_), JsonNumber::PosInt(_)) => false,
        (JsonNumber::Float(_), JsonNumber::NegInt(_)) => false,
        (JsonNumber::PosInt(_), JsonNumber::Float(_)) => false,
        (JsonNumber::NegInt(_), JsonNumber::Float(_)) => false,
    }
}

/// Equality of JSON values by their meaning: objects are equal when they map
/// the same keys to equal values, whatever the order of their entries.
pub fn json_eq(a: &JsonValue, b: &JsonValue) -> (r: bool)
    ensures
        r == (a@ == b@),
    decreases a,
{
    match a {
        JsonValue::Null => b.is_null(),
        JsonValue::Bool(x) => match b {
            JsonValue::Bool(y) => *x == *y,
            JsonValue::Number(n) => match n {
                JsonNumber::PosInt(_) => false,
                JsonNumber::NegInt(_) => false,
                JsonNumber::Float(_) => false,
            },
            _ => false,
        },
        JsonValue::Number(x) => match b {
            JsonValue::Number(y) => number_eq(x, y),
            _ => false,
        },
        JsonValue::String(x) => match b {
            JsonValue::String(y) => *x == *y,
            JsonValue::Number(n) => match n {
                JsonNumber::PosInt(_) => false,
                JsonNumber::NegInt(_) => false,
                JsonNumber::Float(_) => false,
            },
            _ => false,
        },
        JsonValue::Array(xs) => match b {
            JsonValue::Array(ys) => {
                proof {
                    lemma_array_view(*xs);
                    lemma_array_view(*ys);
                }
                if xs.len() != ys.len() {
                    proof {
                        assert(xs@.map_values(|x: JsonValue| x@).len() != ys@.map_values(
                            |x: JsonValue| x@,
                        ).len());
                    }
                    return false;
                }
                let mut i: usize = 0;
                while i < xs.len()
                    invariant
                        *a == JsonValue::Array(*xs),
                        a@ == Json::Array(xs@.map_values(|x: JsonValue| x@)),
                        b@ == Json::Array(ys@.map_values(|x: JsonValue| x@)),
                        xs.len() == ys.len(),
                        i <= xs.len(),
                        forall|j: int| 0 <= j < i ==> xs@[j]@ == ys@[j]@,
                    decreases xs.len() - i,
                {
                    proof {
                        assert(decreases_to!(*a => (*a)->Array_0));
                        assert(decreases_to!(*xs => xs[i as int]));
                    }
                    if !json_eq(&xs[i], &ys[i]) {
                        proof {
                            assert(xs@.map_values(|x: JsonValue| x@)[i as int] != ys@.map_values(
                                |x: JsonValue| x@,
                            )[i as int]);
                        }
                        return false;
                    }
                    i += 1;
                }
                proof {
                    assert(xs@.map_values(|x: JsonValue| x@) =~= ys@.map_values(
                        |x: JsonValue| x@,
                    ));
                }
                true
            },
            JsonValue::Number(n) => match n {
                JsonNumber::PosInt(_) => false,
                JsonNumber::NegInt(_) => false,
                JsonNumber::Float(_) => false,
            },
            _ => false,
        },
        JsonValue::Object(xs) => match b {
            JsonValue::Object(ys) => {
                proof {
                    lemma_object_view(*xs);
                    lemma_object_view(*ys);
                    assert(entry_keys(object_entries(xs@)) =~= string_keys(xs@));
                    assert(entry_keys(object_entries(ys@)) =~= string_keys(ys@));
                    lemma_entries_map_dom(object_entries(xs@));
                    lemma_entries_map_dom(object_entries(ys@));
                }
                let ghost mx = entries_map(object_entries(xs@));
                let ghost my = entries_map(object_entries(ys@));
                let mut i: usize = 0;
                while i < xs.len()
                    invariant
                        *a == JsonValue::Object(*xs),
                        a@ == Json::Object(mx),
                        b@ == Json::Object(my),
                        i <= xs.len(),
                        ys.len() == string_keys(ys@).len(),
                        mx == entries_map(object_entries(xs@)),
                        my == entries_map(object_entries(ys@)),
                        entry_keys(object_entries(xs@)) == string_keys(xs@),
                        entry_keys(object_entries(ys@)) == string_keys(ys@),
                        forall|k: Seq<char>|
                            0 <= #[trigger] last_key_index(string_keys(xs@), k) < i
                                ==> my.contains_key(k) && mx[k] == my[k],
                    decreases xs.len() - i,
                {
                    let k = &xs[i].0;
                    proof {
                        lemma_entries_map(object_entries(xs@), k@);
                        lemma_entries_map(object_entries(ys@), k@);
                        lemma_last_key_index(string_keys(xs@), k@);
                        lemma_last_key_index(string_keys(ys@), k@);
                    }
                    match find_last_key(xs, k) {
                        Some(li) => {
                            if li == i {
                                match find_last_key(ys, k) {
                                    Some(j) => {
                                        proof {
                                            assert(decreases_to!(*a => (*a)->Object_0));
                                            assert(decreases_to!(*xs => xs[i as int]));
                                            assert(decreases_to!(xs[i as int] => xs[i as int].1));
                                        }
                                        if !json_eq(&xs[i].1, &ys[j].1) {
                                            proof {
                                                assert(object_entries(xs@)[i as int].1
                                                    == xs@[i as int].1@);
                                                assert(object_entries(ys@)[j as int].1
                                                    == ys@[j as int].1@);
                                                assert(mx[k@] != my[k@]);
                                            }
                                            return false;
                                        }
                                        proof {
                                            assert(object_entries(xs@)[i as int].1
                                                == xs@[i as int].1@);
                                            assert(object_entries(ys@)[j as int].1
                                                == ys@[j as int].1@);
                                            assert(my.contains_key(k@) && mx[k@] == my[k@]);
                                        }
                                    },
                                    None => {
                                        proof {
                                            assert(!my.contains_key(k@));
                                        }
                                        return false;
                                    },
                                }
                            }
                        },
                        None => {
                            proof {
                                assert(string_keys(xs@)[i as int] == k@);
                            }
                        },
                    }
                    proof {
                        assert forall|kk: Seq<char>|
                            0 <= #[trigger] last_key_index(string_keys(xs@), kk) < i + 1 implies my.contains_key(
                            kk,
                        ) && mx[kk] == my[kk] by {
                            if last_key_index(string_keys(xs@), kk) == i {
                                lemma_last_key_index(string_keys(xs@), kk);
                                assert(string_keys(xs@)[i as int] == kk);
                                assert(kk == k@);
                            }
                        }
                    }
                    i += 1;
                }
                proof {
                    assert forall|k: Seq<char>| #[trigger] mx.contains_key(k) implies my.contains_key(k) && mx[k] == my[k] by {
                        lemma_entries_map(object_entries(xs@), k);
                        lemma_last_key_index(string_keys(xs@), k);
                    }
                }
                let mut j: usize = 0;
                while j < ys.len()
                    invariant
                        j <= ys.len(),
                        a@ == Json::Object(mx),
                        b@ == Json::Object(my),
                        mx == entries_map(object_entries(xs@)),
                        my == entries_map(object_entries(ys@)),
                        entry_keys(object_entries(xs@)) == string_keys(xs@),
                        entry_keys(object_entries(ys@)) == string_keys(ys@),
                        forall|k: Seq<char>| #[trigger]
                            mx.contains_key(k) ==> my.contains_key(k) && mx[k] == my[k],
                        forall|jj: int| 0 <= jj < j ==> mx.contains_key(string_keys(ys@)[jj]),
                    decreases ys.len() - j,
                {
                    let k = &ys[j].0;
                    proof {
                        lemma_entries_map(object_entries(xs@), k@);
                    }
                    match find_last_key(xs, k) {
                        Some(_) => {},
                        None => {
                            proof {
                                lemma_entries_map(object_entries(ys@), k@);
                                lemma_last_key_index(string_keys(ys@), k@);
                                assert(string_keys(ys@)[j as int] == k@);
                                assert(string_keys(ys@).contains(k@));
                                assert(my.contains_key(k@) && !mx.contains_key(k@));
                            }
                            return false;
                        },
                    }
                    j += 1;
                }
                proof {
                    assert forall|k: Seq<char>| my.contains_key(k) implies mx.contains_key(k) by {
                        assert(string_keys(ys@).contains(k));
                        let jj = choose|jj: int|
                            0 <= jj < string_keys(ys@).len() && string_keys(ys@)[jj] == k;
                    }
                    assert(mx =~= my);
                }
                true
            },
            JsonValue::Number(n) => match n {
                JsonNumber::PosInt(_) => false,
                JsonNumber::NegInt(_) => false,
                JsonNumber::Float(_) => false,
            },
            _ => false,
        },
    }
}

} // verus!
