use vstd::prelude::*;
use crate::dict::Dict;
use crate::json::{entries_map, json_eq, object_entries, views, Json, JsonNumber, JsonValue};
use crate::query::{Argument, Relationship, RelationshipArgument};
use crate::rowset::{entries_value, lookup};
use crate::strings::{begins_with, finishes_with, lowercase, occurs_in};

verus! {

/// A row of a collection: its columns and their values.
pub type Row = Dict<JsonValue>;

/// An error answered to a request: an HTTP status and a message.
#[derive(Debug)]
pub struct ServerError {
    pub status: u16,
    pub message: String,
}

/// The status and message of an error.
pub open spec fn error_is(e: ServerError, status: u16, message: Seq<char>) -> bool {
    e.status == status && e.message@ == message
}

/// An error with a status and a message.
pub fn server_error(status: u16, message: &str) -> (e: ServerError)
    ensures
        error_is(e, status, message@),
{
    ServerError { status, message: message.to_string() }
}

/// The order of two values.
#[derive(Clone, Copy, Debug, PartialEq, Eq)]
pub enum Order {
    Less,
    Equal,
    Greater,
}

/// The rows of a page: `offset` rows skipped, then at most `limit` rows.
pub open spec fn paginated<T>(s: Seq<T>, limit: Option<u32>, offset: Option<u32>) -> Seq<T> {
    let start = match offset {
        Some(o) => if o < s.len() {
            o as int
        } else {
            s.len() as int
        },
        None => 0,
    };
    let rest = s.subrange(start, s.len() as int);
    match limit {
        Some(n) => if n < rest.len() {
            rest.subrange(0, n as int)
        } else {
            rest
        },
        None => rest,
    }
}

/// A page is a run of consecutive rows: it starts `offset` rows in (at the
/// start when there is no offset), holds as many rows as remain but no more
/// than `limit`, and with neither it is all the rows.
pub proof fn lemma_pagination<T>(s: Seq<T>, limit: Option<u32>, offset: Option<u32>)
    ensures
        ({
            let off: int = match offset {
                Some(o) => o as int,
                None => 0,
            };
            let avail: int = if off < s.len() {
                s.len() - off
            } else {
                0
            };
            &&& paginated(s, limit, offset).len() == (match limit {
                Some(n) => if n < avail {
                    n as int
                } else {
                    avail
                },
                None => avail,
            })
            &&& forall|i: int|
                0 <= i < paginated(s, limit, offset).len() ==> #[trigger] paginated(s, limit, offset)[i] == s[off + i]
        }),
        paginated(s, None, None) == s,
{
    assert(s.subrange(0, s.len() as int) =~= s);
}

/// Skips `offset` items, then keeps at most `limit` of the rest.
pub fn paginate<T>(collection: Vec<T>, limit: Option<u32>, offset: Option<u32>) -> (r: Vec<T>)
    ensures
        r@ == paginated(collection@, limit, offset),
{
    let mut all = collection;
    let start: usize = match offset {
        Some(o) => {
            if (o as usize) < all.len() {
                o as usize
            } else {
                all.len()
            }
        },
        None => 0,
    };
    let mut rest = all.split_off(start);
    match limit {
        Some(n) => {
            rest.truncate(n as usize);
        },
        None => {},
    }
    rest
}

/// An outcome taken by its meaning: the value, or the status and message of
/// the error.
pub open spec fn outcome<T>(r: Result<T, ServerError>) -> Result<T, (u16, Seq<char>)> {
    match r {
        Ok(v) => Ok(v),
        Err(e) => Err((e.status, e.message@)),
    }
}

/// Whether a number is one that numbers are ordered by: an integer, or a
/// float that is not a NaN.
pub open spec fn orderable(j: Json) -> bool {
    j is Int || (j matches Json::Float(b) && !((b & 0x7ff0_0000_0000_0000u64) == 0x7ff0_0000_0000_0000u64 && (b
        & 0x000f_ffff_ffff_ffffu64) != 0u64))
}

/// Whether an order of numbers is a strict weak order on the numbers that
/// order (no number is less than itself, being less is transitive, and so
/// is being neither less nor greater) that orders integers as integers:
/// an integer is less than another only when it is smaller, and always
/// when both lie within 2^53 of zero, where 64-bit floats hold integers
/// exactly.
#[verifier::opaque]
pub open spec fn numeric_less(less: spec_fn(Json, Json) -> bool) -> bool {
    &&& forall|a: Json| orderable(a) ==> !#[trigger] less(a, a)
    &&& forall|a: Json, b: Json, c: Json|
        orderable(a) && orderable(b) && orderable(c) && #[trigger] less(a, b) && #[trigger] less(b, c) ==> less(a, c)
    &&& forall|a: Json, b: Json, c: Json|
        #![trigger less(a, b), less(b, c)]
        #![trigger less(b, a), less(c, b)]
        #![trigger less(a, b), less(c, b)]
        #![trigger less(b, a), less(b, c)]
        orderable(a) && orderable(b) && orderable(c) && !less(a, b) && !less(b, a) && !less(b, c) && !less(c, b)
            ==> !less(a, c) && !less(c, a)
    &&& forall|m: int, n: int| #[trigger] less(Json::Int(m), Json::Int(n)) ==> m < n
    &&& forall|m: int, n: int|
        -0x20_0000_0000_0000 <= m < n <= 0x20_0000_0000_0000 ==> #[trigger] less(Json::Int(m), Json::Int(n))
}

/// Whether a test of two numbers is a sound order of numbers: it accepts
/// any two, gives the same answer for numbers of the same value, and
/// orders numbers as `numeric_less` says.
pub open spec fn orderly_less<L: Fn(&JsonNumber, &JsonNumber) -> bool>(less: L) -> bool {
    &&& numeric_less(less_by(less))
    &&& forall|a: &JsonNumber, b: &JsonNumber| less.requires((a, b))
    &&& forall|a: &JsonNumber, b: &JsonNumber, c: &JsonNumber, d: &JsonNumber, x: bool, y: bool|
        #![trigger less.ensures((a, b), x), less.ensures((c, d), y)]
        a.json() == c.json() && b.json() == d.json() && less.ensures((a, b), x) && less.ensures(
            (c, d),
            y,
        ) ==> x == y
}

/// The order of numbers that a test gives: whether the first is less than
/// the second, numbers taken by their value.
pub open spec fn less_by<L: Fn(&JsonNumber, &JsonNumber) -> bool>(less: L) -> spec_fn(Json, Json) -> bool {
    |x: Json, y: Json|
        exists|a: &JsonNumber, b: &JsonNumber|
            a.json() == x && b.json() == y && #[trigger] less.ensures((a, b), true)
}

fn call_less<L: Fn(&JsonNumber, &JsonNumber) -> bool>(less: &L, a: &JsonNumber, b: &JsonNumber) -> (r: bool)
    requires
        orderly_less(*less),
    ensures
        r == less_by(*less)(a.json(), b.json()),
{
    let r = less(a, b);
    proof {
        if r {
            assert(less.ensures((a, b), true));
        } else {
            if less_by(*less)(a.json(), b.json()) {
                let (c, d) = choose|c: &JsonNumber, d: &JsonNumber|
                    c.json() == a.json() && d.json() == b.json() && #[trigger] less.ensures((c, d), true);
                assert(less.ensures((a, b), false) && less.ensures((c, d), true));
            }
        }
    }
    r
}

/// The order of two booleans, false first.
pub open spec fn bool_order(a: bool, b: bool) -> Order {
    if a == b {
        Order::Equal
    } else if !a {
        Order::Less
    } else {
        Order::Greater
    }
}

/// The order of a comparison of strings.
pub open spec fn order_of(c: int) -> Order {
    if c < 0 {
        Order::Less
    } else if c == 0 {
        Order::Equal
    } else {
        Order::Greater
    }
}

/// How two values are ordered for sorting: null first, booleans false
/// first, numbers by `less` (numbers neither less nor greater than each
/// other are equal, so that a later element of an ordering decides),
/// strings lexicographically; other pairs cannot be compared.
pub open spec fn value_order(v1: Json, v2: Json, less: spec_fn(Json, Json) -> bool) -> Result<Order, (u16, Seq<char>)> {
    match (v1, v2) {
        (Json::Null, Json::Null) => Ok(Order::Equal),
        (Json::Null, _) => Ok(Order::Less),
        (_, Json::Null) => Ok(Order::Greater),
        (Json::Bool(a), Json::Bool(b)) => Ok(bool_order(a, b)),
        (Json::Str(a), Json::Str(b)) => Ok(order_of(crate::strings::lex_order(a, b))),
        _ => if is_number(v1) && is_number(v2) {
            if less(v1, v2) {
                Ok(Order::Less)
            } else if less(v2, v1) {
                Ok(Order::Greater)
            } else {
                Ok(Order::Equal)
            }
        } else {
            Err((500, "cannot compare values"@))
        },
    }
}

/// Whether a value is a number.
pub open spec fn is_number(v: Json) -> bool {
    v is Int || v is Float
}

/// Orders two values for sorting; `less` orders numbers as 64-bit floats.
pub fn compare<L: Fn(&JsonNumber, &JsonNumber) -> bool>(v1: &JsonValue, v2: &JsonValue, less: &L) -> (r: Result<Order, ServerError>)
    requires
        orderly_less(*less),
    ensures
        outcome(r) == value_order(v1@, v2@, less_by(*less)),
{
    proof {
        reveal_strlit("cannot compare values");
    }
    match (v1, v2) {
        (JsonValue::Null, JsonValue::Null) => Ok(Order::Equal),
        (JsonValue::Null, _) => Ok(Order::Less),
        (_, JsonValue::Null) => Ok(Order::Greater),
        (JsonValue::Bool(a), JsonValue::Bool(b)) => {
            if *a == *b {
                Ok(Order::Equal)
            } else if !*a {
                Ok(Order::Less)
            } else {
                Ok(Order::Greater)
            }
        },
        (JsonValue::Number(a), JsonValue::Number(b)) => {
            if call_less(less, a, b) {
                Ok(Order::Less)
            } else if call_less(less, b, a) {
                Ok(Order::Greater)
            } else {
                Ok(Order::Equal)
            }
        },
        (JsonValue::String(a), JsonValue::String(b)) => {
            let c = crate::strings::string_order(a.as_str(), b.as_str());
            if c < 0 {
                Ok(Order::Less)
            } else if c == 0 {
                Ok(Order::Equal)
            } else {
                Ok(Order::Greater)
            }
        },
        _ => Err(server_error(500, "cannot compare values")),
    }
}

/// Whether a string is a given literal.
pub fn is_name(s: &String, name: &str) -> (b: bool)
    ensures
        b == (s@ == name@),
{
    *s == name.to_string()
}

/// Whether an operator orders values.
pub open spec fn is_ordering_operator(op: Seq<char>) -> bool {
    op == "gt"@ || op == "lt"@ || op == "gte"@ || op == "lte"@
}

/// Whether an operator compares strings.
pub open spec fn is_string_operator(op: Seq<char>) -> bool {
    op == "contains"@ || op == "icontains"@ || op == "starts_with"@ || op == "istarts_with"@
        || op == "ends_with"@ || op == "iends_with"@
}

/// The order of two integers: -1, 0 or 1.
pub open spec fn int_order(a: int, b: int) -> int {
    if a < b {
        -1
    } else if a == b {
        0
    } else {
        1
    }
}

/// Whether an ordering operator holds of an order.
pub open spec fn ordering_holds(op: Seq<char>, c: int) -> bool {
    (op == "gt"@ && c > 0) || (op == "lt"@ && c < 0) || (op == "gte"@ && c >= 0) || (op == "lte"@
        && c <= 0)
}

/// Whether an ordering operator holds of two numbers ordered by `less`.
pub open spec fn float_holds(op: Seq<char>, l: Json, r: Json, less: spec_fn(Json, Json) -> bool) -> bool {
    (op == "gt"@ && less(r, l)) || (op == "lt"@ && less(l, r)) || (op == "gte"@ && !less(l, r)) || (
    op == "lte"@ && !less(r, l))
}

/// Whether a string operator holds of two strings.
pub open spec fn string_holds(op: Seq<char>, l: Seq<char>, r: Seq<char>) -> bool {
    (op == "contains"@ && occurs_in(l, r)) || (op == "icontains"@ && occurs_in(lowercase(l), lowercase(r)))
        || (op == "starts_with"@ && begins_with(l, r)) || (op == "istarts_with"@ && begins_with(
        lowercase(l),
        lowercase(r),
    )) || (op == "ends_with"@ && finishes_with(l, r)) || (op == "iends_with"@ && finishes_with(
        lowercase(l),
        lowercase(r),
    ))
}

/// What one value on the right of a comparison gives: a hit, a miss, or an
/// error.
pub open spec fn comparison_step(
    op: Seq<char>,
    left: Json,
    right: Json,
    less: spec_fn(Json, Json) -> bool,
) -> Result<bool, (u16, Seq<char>)> {
    if op == "eq"@ {
        Ok(right == left)
    } else if is_ordering_operator(op) {
        match crate::json::json_as_i64(left) {
            Some(l) => match crate::json::json_as_i64(right) {
                Some(r) => Ok(ordering_holds(op, int_order(l, r))),
                None => Err((400, "value is not an integer"@)),
            },
            None => if is_number(left) {
                if is_number(right) {
                    Ok(float_holds(op, left, right, less))
                } else {
                    Err((400, "value is not a float"@))
                }
            } else {
                match left {
                    Json::Str(ls) => match right {
                        Json::Str(rs) => Ok(ordering_holds(op, crate::strings::lex_order(ls, rs))),
                        _ => Err((400, "value is not a string"@)),
                    },
                    _ => Ok(false),
                }
            },
        }
    } else if is_string_operator(op) {
        match (left, right) {
            (Json::Str(ls), Json::Str(rs)) => Ok(string_holds(op, ls, rs)),
            _ => Err((400, "value is not a string"@)),
        }
    } else if op == "like"@ {
        match left {
            Json::Str(ls) => match right {
                Json::Str(rs) => match crate::strings::regex_match(rs, ls) {
                    Some(b) => Ok(b),
                    None => Err((400, "invalid regular expression"@)),
                },
                _ => Err((400, "regex is invalid"@)),
            },
            _ => Err((400, "regex is not a string"@)),
        }
    } else {
        match right {
            Json::Array(vs) => Ok(exists|j: int| 0 <= j < vs.len() && #[trigger] vs[j] == left),
            _ => Err((400, "expected array"@)),
        }
    }
}

/// The string operators test what their names say: `contains` whether the
/// value on the right occurs within the column's value, `starts_with`
/// whether the column's value begins with it, `ends_with` whether the
/// column's value ends with it.
pub proof fn lemma_string_operators(l: Seq<char>, r: Seq<char>, less: spec_fn(Json, Json) -> bool)
    ensures
        comparison_step("contains"@, Json::Str(l), Json::Str(r), less) == Ok::<bool, (u16, Seq<char>)>(
            exists|i: int| 0 <= i && i + r.len() <= l.len() && #[trigger] l.subrange(i, i + r.len()) == r,
        ),
        comparison_step("starts_with"@, Json::Str(l), Json::Str(r), less) == Ok::<bool, (u16, Seq<char>)>(
            r.len() <= l.len() && l.subrange(0, r.len() as int) == r,
        ),
        comparison_step("ends_with"@, Json::Str(l), Json::Str(r), less) == Ok::<bool, (u16, Seq<char>)>(
            r.len() <= l.len() && l.subrange(l.len() - r.len(), l.len() as int) == r,
        ),
{
    reveal_strlit("eq");
    reveal_strlit("gt");
    reveal_strlit("lt");
    reveal_strlit("gte");
    reveal_strlit("lte");
    reveal_strlit("contains");
    reveal_strlit("icontains");
    reveal_strlit("starts_with");
    reveal_strlit("istarts_with");
    reveal_strlit("ends_with");
    reveal_strlit("iends_with");
    assert("contains"@ != "eq"@) by {
        assert("contains"@.len() != "eq"@.len());
    }
    assert("contains"@ != "gt"@) by {
        assert("contains"@.len() != "gt"@.len());
    }
    assert("contains"@ != "lt"@) by {
        assert("contains"@.len() != "lt"@.len());
    }
    assert("contains"@ != "gte"@) by {
        assert("contains"@.len() != "gte"@.len());
    }
    assert("contains"@ != "lte"@) by {
        assert("contains"@.len() != "lte"@.len());
    }
    assert("contains"@ != "icontains"@) by {
        assert("contains"@.len() != "icontains"@.len());
    }
    assert("contains"@ != "starts_with"@) by {
        assert("contains"@.len() != "starts_with"@.len());
    }
    assert("contains"@ != "istarts_with"@) by {
        assert("contains"@.len() != "istarts_with"@.len());
    }
    assert("contains"@ != "ends_with"@) by {
        assert("contains"@.len() != "ends_with"@.len());
    }
    assert("contains"@ != "iends_with"@) by {
        assert("contains"@.len() != "iends_with"@.len());
    }
    assert("starts_with"@ != "eq"@) by {
        assert("starts_with"@.len() != "eq"@.len());
    }
    assert("starts_with"@ != "gt"@) by {
        assert("starts_with"@.len() != "gt"@.len());
    }
    assert("starts_with"@ != "lt"@) by {
        assert("starts_with"@.len() != "lt"@.len());
    }
    assert("starts_with"@ != "gte"@) by {
        assert("starts_with"@.len() != "gte"@.len());
    }
    assert("starts_with"@ != "lte"@) by {
        assert("starts_with"@.len() != "lte"@.len());
    }
    assert("starts_with"@ != "icontains"@) by {
        assert("starts_with"@.len() != "icontains"@.len());
    }
    assert("starts_with"@ != "istarts_with"@) by {
        assert("starts_with"@.len() != "istarts_with"@.len());
    }
    assert("starts_with"@ != "ends_with"@) by {
        assert("starts_with"@.len() != "ends_with"@.len());
    }
    assert("starts_with"@ != "iends_with"@) by {
        assert("starts_with"@.len() != "iends_with"@.len());
    }
    assert("ends_with"@ != "eq"@) by {
        assert("ends_with"@.len() != "eq"@.len());
    }
    assert("ends_with"@ != "gt"@) by {
        assert("ends_with"@.len() != "gt"@.len());
    }
    assert("ends_with"@ != "lt"@) by {
        assert("ends_with"@.len() != "lt"@.len());
    }
    assert("ends_with"@ != "gte"@) by {
        assert("ends_with"@.len() != "gte"@.len());
    }
    assert("ends_with"@ != "lte"@) by {
        assert("ends_with"@.len() != "lte"@.len());
    }
    assert("ends_with"@ != "icontains"@) by {
        assert("ends_with"@[0] != "icontains"@[0]);
    }
    assert("ends_with"@ != "istarts_with"@) by {
        assert("ends_with"@.len() != "istarts_with"@.len());
    }
    assert("ends_with"@ != "iends_with"@) by {
        assert("ends_with"@.len() != "iends_with"@.len());
    }
    assert(string_holds("contains"@, l, r) == occurs_in(l, r));
    assert(string_holds("starts_with"@, l, r) == begins_with(l, r));
    assert(string_holds("ends_with"@, l, r) == finishes_with(l, r));
}

/// The case-insensitive string operators are their plain forms on the
/// lower-case forms of both strings.
pub proof fn lemma_case_insensitive_operators(l: Seq<char>, r: Seq<char>, less: spec_fn(Json, Json) -> bool)
    ensures
        comparison_step("icontains"@, Json::Str(l), Json::Str(r), less) == comparison_step(
            "contains"@,
            Json::Str(lowercase(l)),
            Json::Str(lowercase(r)),
            less,
        ),
        comparison_step("istarts_with"@, Json::Str(l), Json::Str(r), less) == comparison_step(
            "starts_with"@,
            Json::Str(lowercase(l)),
            Json::Str(lowercase(r)),
            less,
        ),
        comparison_step("iends_with"@, Json::Str(l), Json::Str(r), less) == comparison_step(
            "ends_with"@,
            Json::Str(lowercase(l)),
            Json::Str(lowercase(r)),
            less,
        ),
{
    reveal_strlit("eq");
    reveal_strlit("gt");
    reveal_strlit("lt");
    reveal_strlit("gte");
    reveal_strlit("lte");
    reveal_strlit("contains");
    reveal_strlit("icontains");
    reveal_strlit("starts_with");
    reveal_strlit("istarts_with");
    reveal_strlit("ends_with");
    reveal_strlit("iends_with");
    assert("contains"@ != "eq"@) by {
        assert("contains"@.len() != "eq"@.len());
    }
    assert("contains"@ != "gt"@) by {
        assert("contains"@.len() != "gt"@.len());
    }
    assert("contains"@ != "lt"@) by {
        assert("contains"@.len() != "lt"@.len());
    }
    assert("contains"@ != "gte"@) by {
        assert("contains"@.len() != "gte"@.len());
    }
    assert("contains"@ != "lte"@) by {
        assert("contains"@.len() != "lte"@.len());
    }
    assert("contains"@ != "icontains"@) by {
        assert("contains"@.len() != "icontains"@.len());
    }
    assert("contains"@ != "starts_with"@) by {
        assert("contains"@.len() != "starts_with"@.len());
    }
    assert("contains"@ != "istarts_with"@) by {
        assert("contains"@.len() != "istarts_with"@.len());
    }
    assert("contains"@ != "ends_with"@) by {
        assert("contains"@.len() != "ends_with"@.len());
    }
    assert("contains"@ != "iends_with"@) by {
        assert("contains"@.len() != "iends_with"@.len());
    }
    assert("icontains"@ != "eq"@) by {
        assert("icontains"@.len() != "eq"@.len());
    }
    assert("icontains"@ != "gt"@) by {
        assert("icontains"@.len() != "gt"@.len());
    }
    assert("icontains"@ != "lt"@) by {
        assert("icontains"@.len() != "lt"@.len());
    }
    assert("icontains"@ != "gte"@) by {
        assert("icontains"@.len() != "gte"@.len());
    }
    assert("icontains"@ != "lte"@) by {
        assert("icontains"@.len() != "lte"@.len());
    }
    assert("icontains"@ != "contains"@) by {
        assert("icontains"@.len() != "contains"@.len());
    }
    assert("icontains"@ != "starts_with"@) by {
        assert("icontains"@.len() != "starts_with"@.len());
    }
    assert("icontains"@ != "istarts_with"@) by {
        assert("icontains"@.len() != "istarts_with"@.len());
    }
    assert("icontains"@ != "ends_with"@) by {
        assert("icontains"@[0] != "ends_with"@[0]);
    }
    assert("icontains"@ != "iends_with"@) by {
        assert("icontains"@.len() != "iends_with"@.len());
    }
    assert("starts_with"@ != "eq"@) by {
        assert("starts_with"@.len() != "eq"@.len());
    }
    assert("starts_with"@ != "gt"@) by {
        assert("starts_with"@.len() != "gt"@.len());
    }
    assert("starts_with"@ != "lt"@) by {
        assert("starts_with"@.len() != "lt"@.len());
    }
    assert("starts_with"@ != "gte"@) by {
        assert("starts_with"@.len() != "gte"@.len());
    }
    assert("starts_with"@ != "lte"@) by {
        assert("starts_with"@.len() != "lte"@.len());
    }
    assert("starts_with"@ != "contains"@) by {
        assert("starts_with"@.len() != "contains"@.len());
    }
    assert("starts_with"@ != "icontains"@) by {
        assert("starts_with"@.len() != "icontains"@.len());
    }
    assert("starts_with"@ != "istarts_with"@) by {
        assert("starts_with"@.len() != "istarts_with"@.len());
    }
    assert("starts_with"@ != "ends_with"@) by {
        assert("starts_with"@.len() != "ends_with"@.len());
    }
    assert("starts_with"@ != "iends_with"@) by {
        assert("starts_with"@.len() != "iends_with"@.len());
    }
    assert("istarts_with"@ != "eq"@) by {
        assert("istarts_with"@.len() != "eq"@.len());
    }
    assert("istarts_with"@ != "gt"@) by {
        assert("istarts_with"@.len() != "gt"@.len());
    }
    assert("istarts_with"@ != "lt"@) by {
        assert("istarts_with"@.len() != "lt"@.len());
    }
    assert("istarts_with"@ != "gte"@) by {
        assert("istarts_with"@.len() != "gte"@.len());
    }
    assert("istarts_with"@ != "lte"@) by {
        assert("istarts_with"@.len() != "lte"@.len());
    }
    assert("istarts_with"@ != "contains"@) by {
        assert("istarts_with"@.len() != "contains"@.len());
    }
    assert("istarts_with"@ != "icontains"@) by {
        assert("istarts_with"@.len() != "icontains"@.len());
    }
    assert("istarts_with"@ != "starts_with"@) by {
        assert("istarts_with"@.len() != "starts_with"@.len());
    }
    assert("istarts_with"@ != "ends_with"@) by {
        assert("istarts_with"@.len() != "ends_with"@.len());
    }
    assert("istarts_with"@ != "iends_with"@) by {
        assert("istarts_with"@.len() != "iends_with"@.len());
    }
    assert("ends_with"@ != "eq"@) by {
        assert("ends_with"@.len() != "eq"@.len());
    }
    assert("ends_with"@ != "gt"@) by {
        assert("ends_with"@.len() != "gt"@.len());
    }
    assert("ends_with"@ != "lt"@) by {
        assert("ends_with"@.len() != "lt"@.len());
    }
    assert("ends_with"@ != "gte"@) by {
        assert("ends_with"@.len() != "gte"@.len());
    }
    assert("ends_with"@ != "lte"@) by {
        assert("ends_with"@.len() != "lte"@.len());
    }
    assert("ends_with"@ != "contains"@) by {
        assert("ends_with"@.len() != "contains"@.len());
    }
    assert("ends_with"@ != "icontains"@) by {
        assert("ends_with"@[0] != "icontains"@[0]);
    }
    assert("ends_with"@ != "starts_with"@) by {
        assert("ends_with"@.len() != "starts_with"@.len());
    }
    assert("ends_with"@ != "istarts_with"@) by {
        assert("ends_with"@.len() != "istarts_with"@.len());
    }
    assert("ends_with"@ != "iends_with"@) by {
        assert("ends_with"@.len() != "iends_with"@.len());
    }
    assert("iends_with"@ != "eq"@) by {
        assert("iends_with"@.len() != "eq"@.len());
    }
    assert("iends_with"@ != "gt"@) by {
        assert("iends_with"@.len() != "gt"@.len());
    }
    assert("iends_with"@ != "lt"@) by {
        assert("iends_with"@.len() != "lt"@.len());
    }
    assert("iends_with"@ != "gte"@) by {
        assert("iends_with"@.len() != "gte"@.len());
    }
    assert("iends_with"@ != "lte"@) by {
        assert("iends_with"@.len() != "lte"@.len());
    }
    assert("iends_with"@ != "contains"@) by {
        assert("iends_with"@.len() != "contains"@.len());
    }
    assert("iends_with"@ != "icontains"@) by {
        assert("iends_with"@.len() != "icontains"@.len());
    }
    assert("iends_with"@ != "starts_with"@) by {
        assert("iends_with"@.len() != "starts_with"@.len());
    }
    assert("iends_with"@ != "istarts_with"@) by {
        assert("iends_with"@.len() != "istarts_with"@.len());
    }
    assert("iends_with"@ != "ends_with"@) by {
        assert("iends_with"@.len() != "ends_with"@.len());
    }
}

/// Comparisons of integers mean what their names say: `eq` equality, and
/// `gt`, `lt`, `gte` and `lte` the orders of the integers.
pub proof fn lemma_comparison_operators(a: int, b: int, less: spec_fn(Json, Json) -> bool)
    requires
        i64::MIN <= a <= i64::MAX,
        i64::MIN <= b <= i64::MAX,
    ensures
        comparison_step("eq"@, Json::Int(a), Json::Int(b), less) == Ok::<bool, (u16, Seq<char>)>(a == b),
        comparison_step("gt"@, Json::Int(a), Json::Int(b), less) == Ok::<bool, (u16, Seq<char>)>(a > b),
        comparison_step("lt"@, Json::Int(a), Json::Int(b), less) == Ok::<bool, (u16, Seq<char>)>(a < b),
        comparison_step("gte"@, Json::Int(a), Json::Int(b), less) == Ok::<bool, (u16, Seq<char>)>(a >= b),
        comparison_step("lte"@, Json::Int(a), Json::Int(b), less) == Ok::<bool, (u16, Seq<char>)>(a <= b),
{
    reveal_strlit("eq");
    reveal_strlit("gt");
    reveal_strlit("lt");
    reveal_strlit("gte");
    reveal_strlit("lte");
    assert("eq"@ != "gt"@) by {
        assert("eq"@[0] != "gt"@[0]);
    }
    assert("eq"@ != "lt"@) by {
        assert("eq"@[0] != "lt"@[0]);
    }
    assert("eq"@ != "gte"@) by {
        assert("eq"@.len() != "gte"@.len());
    }
    assert("eq"@ != "lte"@) by {
        assert("eq"@.len() != "lte"@.len());
    }
    assert("gt"@ != "lt"@) by {
        assert("gt"@[0] != "lt"@[0]);
    }
    assert("gt"@ != "gte"@) by {
        assert("gt"@.len() != "gte"@.len());
    }
    assert("gt"@ != "lte"@) by {
        assert("gt"@.len() != "lte"@.len());
    }
    assert("lt"@ != "gte"@) by {
        assert("lt"@.len() != "gte"@.len());
    }
    assert("lt"@ != "lte"@) by {
        assert("lt"@.len() != "lte"@.len());
    }
    assert("gte"@ != "lte"@) by {
        assert("gte"@[0] != "lte"@[0]);
    }
}

/// `in` holds exactly when the value is one of the values listed on the
/// right.
pub proof fn lemma_in_operator(v: Json, vs: Seq<Json>, less: spec_fn(Json, Json) -> bool)
    ensures
        comparison_step("in"@, v, Json::Array(vs), less) == Ok::<bool, (u16, Seq<char>)>(vs.contains(v)),
{
    reveal_strlit("eq");
    reveal_strlit("gt");
    reveal_strlit("lt");
    reveal_strlit("gte");
    reveal_strlit("lte");
    reveal_strlit("contains");
    reveal_strlit("icontains");
    reveal_strlit("starts_with");
    reveal_strlit("istarts_with");
    reveal_strlit("ends_with");
    reveal_strlit("iends_with");
    reveal_strlit("like");
    reveal_strlit("in");
    let op = "in"@;
    assert(op.len() == 2);
    assert(op != "eq"@) by {
        assert(op[0] != "eq"@[0]);
    }
    assert(!is_ordering_operator(op)) by {
        assert(op[0] != "gt"@[0]);
        assert(op[0] != "lt"@[0]);
        assert(op.len() != "gte"@.len());
        assert(op.len() != "lte"@.len());
    }
    assert(!is_string_operator(op)) by {
        assert(op.len() != "contains"@.len());
        assert(op.len() != "icontains"@.len());
        assert(op.len() != "starts_with"@.len());
        assert(op.len() != "istarts_with"@.len());
        assert(op.len() != "ends_with"@.len());
        assert(op.len() != "iends_with"@.len());
    }
    assert(op != "like"@) by {
        assert(op.len() != "like"@.len());
    }
    let right = Json::Array(vs);
    let rv = right->Array_0;
    assert(rv == vs);
    if vs.contains(v) {
        let j = choose|j: int| 0 <= j < vs.len() && vs[j] == v;
        assert(rv[j] == v);
        assert(exists|k: int| 0 <= k < rv.len() && #[trigger] rv[k] == v);
        assert(comparison_step(op, v, right, less) == Ok::<bool, (u16, Seq<char>)>(true));
    } else {
        assert(comparison_step(op, v, right, less) == Ok::<bool, (u16, Seq<char>)>(false));
    }
}

/// The values on the right, in order, until one hits or fails.
pub open spec fn comparison_scan(
    op: Seq<char>,
    left: Json,
    rights: Seq<Json>,
    less: spec_fn(Json, Json) -> bool,
) -> Result<bool, (u16, Seq<char>)>
    decreases rights.len(),
{
    if rights.len() == 0 {
        Ok(false)
    } else {
        match comparison_step(op, left, rights[0], less) {
            Err(e) => Err(e),
            Ok(true) => Ok(true),
            Ok(false) => comparison_scan(op, left, rights.drop_first(), less),
        }
    }
}

/// The outcome of a binary comparison operator between a column's value and
/// the values it is compared with: whether any of them satisfies it.
pub open spec fn comparison_outcome(
    op: Seq<char>,
    left: Json,
    rights: Seq<Json>,
    less: spec_fn(Json, Json) -> bool,
) -> Result<bool, (u16, Seq<char>)> {
    if op == "eq"@ || op == "like"@ || op == "in"@ {
        comparison_scan(op, left, rights, less)
    } else if is_ordering_operator(op) {
        if is_number(left) || left is Str {
            comparison_scan(op, left, rights, less)
        } else {
            Err((400, "column is does not support comparison operator "@ + op))
        }
    } else if is_string_operator(op) {
        if left is Str {
            comparison_scan(op, left, rights, less)
        } else {
            Err((400, "comparison operator "@ + op + " is only supported on strings"@))
        }
    } else {
        Err((400, "unknown binary comparison operator"@))
    }
}

fn comparison_step_exec<L: Fn(&JsonNumber, &JsonNumber) -> bool>(
    operator: &String,
    left: &JsonValue,
    right: &JsonValue,
    less: &L,
) -> (r: Result<bool, ServerError>)
    requires
        orderly_less(*less),
        operator@ == "eq"@ || operator@ == "like"@ || operator@ == "in"@ || (is_ordering_operator(
            operator@,
        ) && (is_number(left@) || left@ is Str)) || (is_string_operator(operator@) && left@ is Str),
    ensures
        outcome(r) == comparison_step(operator@, left@, right@, less_by(*less)),
{
    proof {
        reveal_strlit("eq");
        reveal_strlit("gt");
        reveal_strlit("lt");
        reveal_strlit("gte");
        reveal_strlit("lte");
        reveal_strlit("like");
        reveal_strlit("in");
        reveal_strlit("contains");
        reveal_strlit("icontains");
        reveal_strlit("starts_with");
        reveal_strlit("istarts_with");
        reveal_strlit("ends_with");
        reveal_strlit("iends_with");
        reveal_strlit("value is not an integer");
        reveal_strlit("value is not a float");
        reveal_strlit("value is not a string");
        reveal_strlit("invalid regular expression");
        reveal_strlit("regex is invalid");
        reveal_strlit("regex is not a string");
        reveal_strlit("expected array");
    }
    if is_name(operator, "eq") {
        return Ok(json_eq(right, left));
    }
    let gt = is_name(operator, "gt");
    let lt = is_name(operator, "lt");
    let gte = is_name(operator, "gte");
    let lte = is_name(operator, "lte");
    if gt || lt || gte || lte {
        match left.as_i64() {
            Some(l) => {
                match right.as_i64() {
                    Some(r) => {
                        return Ok((gt && l > r) || (lt && l < r) || (gte && l >= r) || (lte && l <= r));
                    },
                    None => {
                        return Err(server_error(400, "value is not an integer"));
                    },
                }
            },
            None => {},
        }
        return match left {
            JsonValue::Number(ln) => match right {
                JsonValue::Number(rn) => {
                    let r_less = call_less(less, rn, ln);
                    let l_less = call_less(less, ln, rn);
                    Ok((gt && r_less) || (lt && l_less) || (gte && !l_less) || (lte && !r_less))
                },
                _ => Err(server_error(400, "value is not a float")),
            },
            JsonValue::String(ls) => match right {
                JsonValue::String(rs) => {
                    let c = crate::strings::string_order(ls.as_str(), rs.as_str());
                    Ok((gt && c > 0) || (lt && c < 0) || (gte && c >= 0) || (lte && c <= 0))
                },
                _ => Err(server_error(400, "value is not a string")),
            },
            _ => Ok(false),
        };
    }
    if is_name(operator, "like") {
        proof {
            assert(operator@.len() == 4);
            assert(!is_string_operator(operator@));
        }
        return match left {
            JsonValue::String(ls) => match right {
                JsonValue::String(rs) => match crate::strings::regex_is_match(rs.as_str(), ls.as_str()) {
                    Some(b) => Ok(b),
                    None => Err(server_error(400, "invalid regular expression")),
                },
                _ => Err(server_error(400, "regex is invalid")),
            },
            _ => Err(server_error(400, "regex is not a string")),
        };
    }
    if is_name(operator, "in") {
        proof {
            assert(operator@.len() == 2);
            assert(!is_string_operator(operator@));
            assert(operator@ != "like"@);
        }
        return match right {
            JsonValue::Array(vs) => {
                proof {
                    crate::json::lemma_array_view(*vs);
                }
                let mut j: usize = 0;
                while j < vs.len()
                    invariant
                        *right == JsonValue::Array(*vs),
                        operator@ == "in"@,
                        operator@ != "eq"@,
                        operator@ != "like"@,
                        !is_ordering_operator(operator@),
                        !is_string_operator(operator@),
                        j <= vs.len(),
                        forall|k: int| 0 <= k < j ==> vs@[k]@ != left@,
                    decreases vs.len() - j,
                {
                    if json_eq(left, &vs[j]) {
                        proof {
                            crate::json::lemma_array_view(*vs);
                            assert(views(vs@)[j as int] == left@);
                            assert(right@ == Json::Array(views(vs@)));
                            assert(right@ is Array);
                            assert(operator@ == "in"@);
                            assert(exists|k: int| 0 <= k < views(vs@).len() && #[trigger] views(vs@)[k] == left@);
                            assert(!is_string_operator(operator@));
                            assert(operator@ != "like"@);
                            assert(!is_ordering_operator(operator@));
                            assert(operator@ != "eq"@);
                            let rv = right@->Array_0;
                            assert(rv == views(vs@));
                            assert(exists|k: int| 0 <= k < rv.len() && #[trigger] rv[k] == left@);
                            assert(comparison_step(operator@, left@, right@, less_by(*less)) == Ok::<bool, (u16, Seq<char>)>(true));
                        }
                        return Ok(true);
                    }
                    j += 1;
                }
                Ok(false)
            },
            _ => Err(server_error(400, "expected array")),
        };
    }
    match (left, right) {
        (JsonValue::String(ls), JsonValue::String(rs)) => {
            let l = ls.as_str();
            let r = rs.as_str();
            let ll = crate::strings::str_to_lowercase(l);
            let rl = crate::strings::str_to_lowercase(r);
            let hit = (is_name(operator, "contains") && crate::strings::str_contains(l, r))
                || (is_name(operator, "icontains") && crate::strings::str_contains(ll.as_str(), rl.as_str()))
                || (is_name(operator, "starts_with") && crate::strings::str_starts_with(l, r))
                || (is_name(operator, "istarts_with") && crate::strings::str_starts_with(ll.as_str(), rl.as_str()))
                || (is_name(operator, "ends_with") && crate::strings::str_ends_with(l, r))
                || (is_name(operator, "iends_with") && crate::strings::str_ends_with(ll.as_str(), rl.as_str()));
            Ok(hit)
        },
        _ => Err(server_error(400, "value is not a string")),
    }
}

/// Evaluates a binary comparison operator between a column's value and the
/// values it is compared with: true when any of them satisfies it, the
/// values tried in order until one does or fails.  `less` orders numbers as
/// 64-bit floats.
pub fn eval_comparison_operator<L: Fn(&JsonNumber, &JsonNumber) -> bool>(
    operator: &String,
    left_val: &JsonValue,
    right_vals: &Vec<JsonValue>,
    less: &L,
) -> (r: Result<bool, ServerError>)
    requires
        orderly_less(*less),
    ensures
        outcome(r) == comparison_outcome(operator@, left_val@, views(right_vals@), less_by(*less)),
{
    proof {
        reveal_strlit("eq");
        reveal_strlit("gt");
        reveal_strlit("lt");
        reveal_strlit("gte");
        reveal_strlit("lte");
        reveal_strlit("like");
        reveal_strlit("in");
        reveal_strlit("contains");
        reveal_strlit("icontains");
        reveal_strlit("starts_with");
        reveal_strlit("istarts_with");
        reveal_strlit("ends_with");
        reveal_strlit("iends_with");
        reveal_strlit("unknown binary comparison operator");
        reveal_strlit("column is does not support comparison operator ");
        reveal_strlit("comparison operator ");
        reveal_strlit(" is only supported on strings");
        reveal_strlit("");
        assert(""@ =~= Seq::<char>::empty());
    }
    let scanned = is_name(operator, "eq") || is_name(operator, "like") || is_name(operator, "in");
    let ordering = is_name(operator, "gt") || is_name(operator, "lt") || is_name(operator, "gte")
        || is_name(operator, "lte");
    let stringly = is_name(operator, "contains") || is_name(operator, "icontains") || is_name(
        operator,
        "starts_with",
    ) || is_name(operator, "istarts_with") || is_name(operator, "ends_with") || is_name(
        operator,
        "iends_with",
    );
    let left_number = match left_val {
        JsonValue::Number(_) => true,
        _ => false,
    };
    let left_string = match left_val {
        JsonValue::String(_) => true,
        _ => false,
    };
    if !scanned {
        if ordering {
            if !left_number && !left_string {
                return Err(ServerError {
                    status: 400,
                    message: crate::strings::concat3(
                        "column is does not support comparison operator ",
                        operator.as_str(),
                        "",
                    ),
                });
            }
        } else if stringly {
            if !left_string {
                return Err(ServerError {
                    status: 400,
                    message: crate::strings::concat3(
                        "comparison operator ",
                        operator.as_str(),
                        " is only supported on strings",
                    ),
                });
            }
        } else {
            return Err(server_error(400, "unknown binary comparison operator"));
        }
    }
    let ghost rights = views(right_vals@);
    let ghost lt = less_by(*less);
    proof {
        assert(rights.skip(0) =~= rights);
    }
    let mut i: usize = 0;
    while i < right_vals.len()
        invariant
            orderly_less(*less),
            lt == less_by(*less),
            rights == views(right_vals@),
            i <= rights.len(),
            operator@ == "eq"@ || operator@ == "like"@ || operator@ == "in"@ || (is_ordering_operator(
                operator@,
            ) && (is_number(left_val@) || left_val@ is Str)) || (is_string_operator(operator@)
                && left_val@ is Str),
            comparison_outcome(operator@, left_val@, rights, lt) == comparison_scan(
                operator@,
                left_val@,
                rights.skip(i as int),
                lt,
            ),
        decreases rights.len() - i,
    {
        proof {
            assert(rights.skip(i as int)[0] == rights[i as int]);
            assert(rights.skip(i as int).drop_first() =~= rights.skip(i + 1));
        }
        match comparison_step_exec(operator, left_val, &right_vals[i], less) {
            Err(e) => {
                return Err(e);
            },
            Ok(true) => {
                return Ok(true);
            },
            Ok(false) => {},
        }
        i += 1;
    }
    proof {
        assert(rights.skip(i as int).len() == 0);
    }
    Ok(false)
}

/// An outcome whose value is taken by its meaning.
pub open spec fn json_outcome(r: Result<JsonValue, ServerError>) -> Result<Json, (u16, Seq<char>)> {
    match r {
        Ok(v) => Ok(v@),
        Err(e) => Err((e.status, e.message@)),
    }
}

/// The meaning of a row: its columns and their values.
pub open spec fn row_value(row: Row) -> Map<Seq<char>, Json> {
    entries_value(row.items())
}

/// The value of an argument: a variable's value, or a literal.
pub open spec fn argument_value(variables: Map<Seq<char>, Json>, argument: Argument) -> Result<Json, (u16, Seq<char>)> {
    match argument {
        Argument::Variable { name } => if variables.contains_key(name@) {
            Ok(variables[name@])
        } else {
            Err((400, "invalid variable name"@))
        },
        Argument::Literal { value } => Ok(value@),
    }
}

/// A row's map and its meaning hold the same columns, with values of the
/// same meaning.
pub proof fn lemma_row_get(row: Row, k: Seq<char>)
    ensures
        row.map().contains_key(k) <==> row_value(row).contains_key(k),
        row.map().contains_key(k) ==> row_value(row)[k] == row.map()[k]@,
{
    row.lemma_items(k);
    crate::rowset::lemma_entries_value_public(row.items(), k);
}

/// Evaluates an argument.
pub fn eval_argument(variables: &Row, argument: &Argument) -> (r: Result<JsonValue, ServerError>)
    ensures
        json_outcome(r) == argument_value(row_value(*variables), *argument),
{
    proof {
        reveal_strlit("invalid variable name");
    }
    match argument {
        Argument::Variable { name } => {
            proof {
                lemma_row_get(*variables, name@);
            }
            match variables.get(name) {
                Some(v) => Ok(v.clone_value()),
                None => Err(server_error(400, "invalid variable name")),
            }
        },
        Argument::Literal { value } => Ok(value.clone_value()),
    }
}

/// The limit that a value gives an array column: none for null, else a
/// non-negative integer that fits in `usize`.
pub open spec fn limit_of(j: Json) -> Option<Option<nat>> {
    match j {
        Json::Null => Some(None),
        Json::Int(i) => if 0 <= i <= usize::MAX {
            Some(Some(i as nat))
        } else {
            None
        },
        _ => None,
    }
}

/// The value of a column of a row: an array column is cut to the limit
/// that its `limit` argument gives.
pub open spec fn column_value(
    variables: Map<Seq<char>, Json>,
    row: Map<Seq<char>, Json>,
    name: Seq<char>,
    arguments: Map<Seq<char>, Argument>,
) -> Result<Json, (u16, Seq<char>)> {
    if !row.contains_key(name) {
        Err((400, "invalid column name"@))
    } else {
        match row[name] {
            Json::Array(vs) => if !arguments.contains_key("limit"@) {
                Err((400, "Expected argument 'limit' in column "@ + name))
            } else {
                match argument_value(variables, arguments["limit"@]) {
                    Err(e) => Err(e),
                    Ok(lv) => match limit_of(lv) {
                        None => Err((400, "limit must be null or an integer"@)),
                        Some(l) => {
                            let n = match l {
                                Some(l) => if l > vs.len() {
                                    vs.len()
                                } else {
                                    l
                                },
                                None => vs.len(),
                            };
                            Ok(Json::Array(vs.take(n as int)))
                        },
                    },
                }
            },
            c => Ok(c),
        }
    }
}

/// Evaluates a column of a row.
pub fn eval_column(
    variables: &Row,
    row: &Row,
    column_name: &String,
    arguments: &crate::dict::Dict<Argument>,
) -> (r: Result<JsonValue, ServerError>)
    ensures
        json_outcome(r) == column_value(row_value(*variables), row_value(*row), column_name@, arguments.map()),
{
    proof {
        reveal_strlit("invalid column name");
        reveal_strlit("Expected argument 'limit' in column ");
        reveal_strlit("limit must be null or an integer");
        reveal_strlit("limit");
        reveal_strlit("");
        assert(""@ =~= Seq::<char>::empty());
        lemma_row_get(*row, column_name@);
    }
    let column = match row.get(column_name) {
        Some(c) => c,
        None => {
            return Err(server_error(400, "invalid column name"));
        },
    };
    match column {
        JsonValue::Array(vs) => {
            proof {
                crate::json::lemma_array_view(*vs);
            }
            let limit_name = "limit".to_string();
            let limit_argument = match arguments.get(&limit_name) {
                Some(a) => a,
                None => {
                    return Err(ServerError {
                        status: 400,
                        message: crate::strings::concat3(
                            "Expected argument 'limit' in column ",
                            column_name.as_str(),
                            "",
                        ),
                    });
                },
            };
            let limit_value = eval_argument(variables, limit_argument)?;
            let limit: Option<usize> = match &limit_value {
                JsonValue::Null => None,
                JsonValue::Number(n) => match n {
                    JsonNumber::PosInt(u) => {
                        if *u <= usize::MAX as u64 {
                            Some(*u as usize)
                        } else {
                            return Err(server_error(400, "limit must be null or an integer"));
                        }
                    },
                    JsonNumber::NegInt(i) => {
                        if *i >= 0 && (*i as u64) <= usize::MAX as u64 {
                            Some(*i as usize)
                        } else {
                            return Err(server_error(400, "limit must be null or an integer"));
                        }
                    },
                    JsonNumber::Float(_) => {
                        return Err(server_error(400, "limit must be null or an integer"));
                    },
                },
                _ => {
                    return Err(server_error(400, "limit must be null or an integer"));
                },
            };
            let n = match limit {
                Some(l) => if l > vs.len() {
                    vs.len()
                } else {
                    l
                },
                None => vs.len(),
            };
            let mut out: Vec<JsonValue> = Vec::new();
            let mut i: usize = 0;
            while i < n
                invariant
                    n <= vs.len(),
                    i <= n,
                    out.len() == i,
                    forall|j: int| 0 <= j < i ==> #[trigger] out@[j]@ == vs@[j]@,
                decreases n - i,
            {
                out.push(vs[i].clone_value());
                i += 1;
            }
            proof {
                crate::json::lemma_array_view(out);
                assert(out@.map_values(|x: JsonValue| x@) =~= vs@.map_values(|x: JsonValue| x@).take(
                    n as int,
                ));
            }
            Ok(JsonValue::Array(out))
        },
        _ => Ok(column.clone_value()),
    }
}

/// The value at a path of field names within a value, if there is one.
pub open spec fn field_path_value(path: Seq<Seq<char>>, j: Json) -> Option<Json>
    decreases path.len(),
{
    if path.len() == 0 {
        Some(j)
    } else {
        match j {
            Json::Object(m) => if m.contains_key(path[0]) {
                field_path_value(path.drop_first(), m[path[0]])
            } else {
                None
            },
            _ => None,
        }
    }
}

/// Follows a path of field names within a value.
pub fn eval_field_path(path: &Vec<String>, value: &JsonValue) -> (r: Result<JsonValue, ServerError>)
    ensures
        json_outcome(r) == match field_path_value(crate::error::path_view(path@), value@) {
            Some(j) => Ok::<Json, (u16, Seq<char>)>(j),
            None => Err((400, "invalid field path"@)),
        },
{
    proof {
        reveal_strlit("invalid field path");
    }
    let ghost p = crate::error::path_view(path@);
    proof {
        assert(p.skip(0) =~= p);
    }
    let mut current: &JsonValue = value;
    let mut i: usize = 0;
    while i < path.len()
        invariant
            p == crate::error::path_view(path@),
            i <= path.len(),
            field_path_value(p, value@) == field_path_value(p.skip(i as int), current@),
        decreases path.len() - i,
    {
        proof {
            assert(p.skip(i as int)[0] == path@[i as int]@);
            assert(p.skip(i as int).drop_first() =~= p.skip(i + 1));
        }
        match current.get(&path[i]) {
            Some(next) => {
                current = next;
            },
            None => {
                return Err(server_error(400, "invalid field path"));
            },
        }
        i += 1;
    }
    proof {
        assert(p.skip(i as int).len() == 0);
    }
    Ok(current.clone_value())
}

/// A row made of the entries of a JSON object.
pub fn row_of_object(es: &Vec<(String, JsonValue)>) -> (r: Row)
    ensures
        row_value(r) == entries_map(object_entries(es@)),
{
    let mut out: Vec<(String, JsonValue)> = Vec::new();
    let mut i: usize = 0;
    while i < es.len()
        invariant
            i <= es.len(),
            out.len() == i,
            forall|j: int| 0 <= j < i ==> #[trigger] out@[j].0@ == es@[j].0@ && out@[j].1@ == es@[j].1@,
        decreases es.len() - i,
    {
        out.push((es[i].0.clone(), es[i].1.clone_value()));
        i += 1;
    }
    let r = Dict::from_entries(out);
    proof {
        assert(crate::rowset::value_entries(r.items()) =~= object_entries(es@));
    }
    r
}

/// A copy of a row.
pub fn copy_row(row: &Row) -> (r: Row)
    ensures
        row_value(r) == row_value(*row),
{
    let mut out: Vec<(String, JsonValue)> = Vec::new();
    let mut i: usize = 0;
    while i < row.len()
        invariant
            i <= row.items().len(),
            out.len() == i,
            forall|j: int| 0 <= j < i ==> #[trigger] out@[j].0@ == row.items()[j].0 && out@[j].1@ == row.items()[j].1@,
        decreases row.items().len() - i,
    {
        let (k, v) = row.get_index(i);
        out.push((k.clone(), v.clone_value()));
        i += 1;
    }
    let r = Dict::from_entries(out);
    proof {
        assert(crate::rowset::value_entries(r.items()) =~= crate::rowset::value_entries(row.items()));
    }
    r
}

/// The row reached by following a path of fields, each of which must hold
/// an object.
pub open spec fn row_path_value(path: Seq<Seq<char>>, m: Map<Seq<char>, Json>) -> Result<Map<Seq<char>, Json>, (u16, Seq<char>)>
    decreases path.len(),
{
    if path.len() == 0 {
        Ok(m)
    } else if !m.contains_key(path[0]) {
        Err((400, "invalid row field path"@))
    } else {
        match m[path[0]] {
            Json::Object(m2) => row_path_value(path.drop_first(), m2),
            _ => Err((400, "Expected object when navigating row field path"@)),
        }
    }
}

/// The outcome of a row evaluation, rows taken by their meaning.
pub open spec fn row_outcome(r: Result<Row, ServerError>) -> Result<Map<Seq<char>, Json>, (u16, Seq<char>)> {
    match r {
        Ok(row) => Ok(row_value(row)),
        Err(e) => Err((e.status, e.message@)),
    }
}

/// Follows a path of fields from a row to the object rows they hold.
pub fn eval_row_field_path(field_path: Option<&Vec<String>>, row: &Row) -> (r: Result<Row, ServerError>)
    ensures
        row_outcome(r) == match field_path {
            None => Ok::<Map<Seq<char>, Json>, (u16, Seq<char>)>(row_value(*row)),
            Some(p) => row_path_value(crate::error::path_view(p@), row_value(*row)),
        },
{
    proof {
        reveal_strlit("invalid row field path");
        reveal_strlit("Expected object when navigating row field path");
    }
    match field_path {
        None => Ok(copy_row(row)),
        Some(path) => {
            let ghost p = crate::error::path_view(path@);
            proof {
                assert(p.skip(0) =~= p);
            }
            let mut current = copy_row(row);
            let mut i: usize = 0;
            while i < path.len()
                invariant
                    field_path == Some(path),
                    p == crate::error::path_view(path@),
                    i <= path.len(),
                    row_path_value(p, row_value(*row)) == row_path_value(p.skip(i as int), row_value(current)),
                decreases path.len() - i,
            {
                proof {
                    assert(p.skip(i as int)[0] == path@[i as int]@);
                    assert(p.skip(i as int).drop_first() =~= p.skip(i + 1));
                    lemma_row_get(current, path@[i as int]@);
                }
                let next = match current.get(&path[i]) {
                    Some(v) => match v {
                        JsonValue::Object(es) => {
                            proof {
                                crate::json::lemma_object_view(*es);
                            }
                            row_of_object(es)
                        },
                        _ => {
                            return Err(server_error(400, "Expected object when navigating row field path"));
                        },
                    },
                    None => {
                        return Err(server_error(400, "invalid row field path"));
                    },
                };
                current = next;
                i += 1;
            }
            proof {
                assert(p.skip(i as int).len() == 0);
            }
            Ok(current)
        },
    }
}

/// The value of a relationship argument: a variable's value, a literal, or
/// a column of the source row.
pub open spec fn relationship_argument_value(
    variables: Map<Seq<char>, Json>,
    row: Map<Seq<char>, Json>,
    argument: RelationshipArgument,
) -> Result<Json, (u16, Seq<char>)> {
    match argument {
        RelationshipArgument::Variable { name } => if variables.contains_key(name@) {
            Ok(variables[name@])
        } else {
            Err((400, "invalid variable name"@))
        },
        RelationshipArgument::Literal { value } => Ok(value@),
        RelationshipArgument::Column { name } => column_value(Map::empty(), row, name@, Map::empty()),
    }
}

/// Evaluates a relationship argument against a source row.
pub fn eval_relationship_argument(variables: &Row, row: &Row, argument: &RelationshipArgument) -> (r: Result<JsonValue, ServerError>)
    ensures
        json_outcome(r) == relationship_argument_value(row_value(*variables), row_value(*row), *argument),
{
    proof {
        reveal_strlit("invalid variable name");
    }
    match argument {
        RelationshipArgument::Variable { name } => {
            proof {
                lemma_row_get(*variables, name@);
            }
            match variables.get(name) {
                Some(v) => Ok(v.clone_value()),
                None => Err(server_error(400, "invalid variable name")),
            }
        },
        RelationshipArgument::Literal { value } => Ok(value.clone_value()),
        RelationshipArgument::Column { name } => {
            let no_variables: Row = Dict::new();
            let no_arguments: Dict<Argument> = Dict::new();
            proof {
                assert(row_value(no_variables) =~= Map::<Seq<char>, Json>::empty());
            }
            eval_column(&no_variables, row, name, &no_arguments)
        },
    }
}

/// Whether the source and target rows of a relationship agree on one
/// mapped column (`Ok(true)`), disagree (`Ok(false)`), or cannot be
/// compared.
pub open spec fn mapping_step(
    src: Map<Seq<char>, Json>,
    tgt: Map<Seq<char>, Json>,
    src_column: Seq<char>,
    tgt_path: Seq<Seq<char>>,
) -> Result<bool, (u16, Seq<char>)> {
    match column_value(Map::empty(), src, src_column, Map::empty()) {
        Err(e) => Err(e),
        Ok(sv) => if tgt_path.len() == 0 {
            Err((400, "relationship column mapping target column path were empty for column "@ + src_column))
        } else {
            let target = if tgt_path.len() == 1 {
                Ok(tgt)
            } else {
                row_path_value(tgt_path.take(tgt_path.len() - 1), tgt)
            };
            match target {
                Err(e) => Err(e),
                Ok(t) => match column_value(Map::empty(), t, tgt_path.last(), Map::empty()) {
                    Err(e) => Err(e),
                    Ok(tv) => Ok(sv == tv),
                },
            }
        },
    }
}

/// Whether two rows agree on every mapped column, the columns tried in
/// order until one disagrees or fails.
pub open spec fn mapping_scan(
    mapping: Seq<(Seq<char>, Vec<String>)>,
    src: Map<Seq<char>, Json>,
    tgt: Map<Seq<char>, Json>,
) -> Result<bool, (u16, Seq<char>)>
    decreases mapping.len(),
{
    if mapping.len() == 0 {
        Ok(true)
    } else {
        match mapping_step(src, tgt, mapping[0].0, crate::error::path_view(mapping[0].1@)) {
            Err(e) => Err(e),
            Ok(false) => Ok(false),
            Ok(true) => mapping_scan(mapping.drop_first(), src, tgt),
        }
    }
}

/// Whether a target row is related to a source row: they agree on every
/// column the relationship maps.
pub fn eval_column_mapping(relationship: &Relationship, src_row: &Row, tgt_row: &Row) -> (r: Result<bool, ServerError>)
    ensures
        outcome(r) == mapping_scan(relationship.column_mapping.items(), row_value(*src_row), row_value(*tgt_row)),
{
    proof {
        reveal_strlit("relationship column mapping target column path were empty for column ");
        reveal_strlit("");
        assert(""@ =~= Seq::<char>::empty());
    }
    let ghost items = relationship.column_mapping.items();
    let no_variables: Row = Dict::new();
    let no_arguments: Dict<Argument> = Dict::new();
    proof {
        assert(row_value(no_variables) =~= Map::<Seq<char>, Json>::empty());
        assert(no_arguments.map() =~= Map::<Seq<char>, Argument>::empty());
        assert(items.skip(0) =~= items);
    }
    let mut i: usize = 0;
    while i < relationship.column_mapping.len()
        invariant
            items == relationship.column_mapping.items(),
            ""@ == Seq::<char>::empty(),
            row_value(no_variables) == Map::<Seq<char>, Json>::empty(),
            no_arguments.map() == Map::<Seq<char>, Argument>::empty(),
            i <= items.len(),
            mapping_scan(items, row_value(*src_row), row_value(*tgt_row)) == mapping_scan(
                items.skip(i as int),
                row_value(*src_row),
                row_value(*tgt_row),
            ),
        decreases items.len() - i,
    {
        proof {
            assert(items.skip(i as int)[0] == items[i as int]);
            assert(items.skip(i as int).drop_first() =~= items.skip(i + 1));
        }
        let (src_column, tgt_path) = relationship.column_mapping.get_index(i);
        let src_value = eval_column(&no_variables, src_row, src_column, &no_arguments)?;
        let n = tgt_path.len();
        if n == 0 {
            return Err(ServerError {
                status: 400,
                message: crate::strings::concat3(
                    "relationship column mapping target column path were empty for column ",
                    src_column.as_str(),
                    "",
                ),
            });
        }
        let tgt_value = if n == 1 {
            eval_column(&no_variables, tgt_row, &tgt_path[0], &no_arguments)?
        } else {
            let mut prefix: Vec<String> = Vec::new();
            let mut j: usize = 0;
            while j < n - 1
                invariant
                    n == tgt_path.len(),
                    j <= n - 1,
                    crate::error::path_view(prefix@) == crate::error::path_view(tgt_path@).take(j as int),
                decreases n - 1 - j,
            {
                let ghost before = prefix@;
                prefix.push(tgt_path[j].clone());
                proof {
                    assert(crate::error::path_view(prefix@) =~= crate::error::path_view(before).push(tgt_path@[j as int]@));
                    assert(crate::error::path_view(tgt_path@).take(j + 1) =~= crate::error::path_view(tgt_path@).take(j as int).push(tgt_path@[j as int]@));
                }
                j += 1;
            }
            let nested = eval_row_field_path(Some(&prefix), tgt_row)?;
            eval_column(&no_variables, &nested, &tgt_path[n - 1], &no_arguments)?
        };
        proof {
            assert(crate::error::path_view(tgt_path@).last() == tgt_path@[n - 1]@);
            if n == 1 {
                assert(crate::error::path_view(tgt_path@).last() == tgt_path@[0]@);
            }
        }
        if !json_eq(&src_value, &tgt_value) {
            return Ok(false);
        }
        i += 1;
    }
    proof {
        assert(items.skip(i as int).len() == 0);
    }
    Ok(true)
}

/// The calendar date that `iso8601::date` reads from a text: none when the
/// text does not parse, the year, month and day when it is a calendar date,
/// and none inside when it is a week or an ordinal date.
pub uninterp spec fn iso_date(text: Seq<char>) -> Option<Option<(i32, u32, u32)>>;

/// `iso8601::date`, its calendar form taken apart.
#[verifier::external_body]
fn parse_date(text: &str) -> (r: Option<Option<(i32, u32, u32)>>)
    ensures
        r == iso_date(text@),
{
    match iso8601::date(text) {
        Ok(iso8601::Date::YMD { year, month, day }) => Some(Some((year, month, day))),
        Ok(_) => Some(None),
        Err(_) => None,
    }
}

/// The value of a dimension after its extraction function, if any: the
/// year, month or day of an ISO 8601 calendar date.
pub open spec fn extraction_value(extraction: Option<Seq<char>>, v: Json) -> Result<Json, (u16, Seq<char>)> {
    match extraction {
        None => Ok(v),
        Some(f) => match v {
            Json::Str(s) => match iso_date(s) {
                None => Err((500, "Unable to parse date"@)),
                Some(None) => Err((500, "Invalid date format"@)),
                Some(Some((y, m, d))) => if f == "year"@ {
                    Ok(Json::Int(y as int))
                } else if f == "month"@ {
                    Ok(Json::Int(m as int))
                } else if f == "day"@ {
                    Ok(Json::Int(d as int))
                } else {
                    Err((400, "Unknown extraction function"@))
                },
            },
            _ => Err((500, "Expected date"@)),
        },
    }
}

/// Extracting a part of a calendar date gives that part: the year, month
/// or day of the date that the text reads as.
pub proof fn lemma_extraction_date_parts(text: Seq<char>, y: i32, m: u32, d: u32)
    requires
        iso_date(text) == Some(Some((y, m, d))),
    ensures
        extraction_value(Some("year"@), Json::Str(text)) == Ok::<Json, (u16, Seq<char>)>(Json::Int(y as int)),
        extraction_value(Some("month"@), Json::Str(text)) == Ok::<Json, (u16, Seq<char>)>(Json::Int(m as int)),
        extraction_value(Some("day"@), Json::Str(text)) == Ok::<Json, (u16, Seq<char>)>(Json::Int(d as int)),
{
    reveal_strlit("year");
    reveal_strlit("month");
    reveal_strlit("day");
    assert("month"@ != "year"@) by {
        assert("month"@.len() != "year"@.len());
    }
    assert("day"@ != "year"@) by {
        assert("day"@[0] != "year"@[0]);
    }
    assert("day"@ != "month"@) by {
        assert("day"@.len() != "month"@.len());
    }
}

/// Without an extraction function a dimension's value stands as it is.
pub proof fn lemma_extraction_none(v: Json)
    ensures
        extraction_value(None, v) == Ok::<Json, (u16, Seq<char>)>(v),
{
}

/// Applies an extraction function to the value of a dimension.
pub fn eval_extraction(extraction: &Option<String>, value: &JsonValue) -> (r: Result<JsonValue, ServerError>)
    ensures
        json_outcome(r) == extraction_value(
            match extraction {
                Some(f) => Some(f@),
                None => None,
            },
            value@,
        ),
{
    proof {
        reveal_strlit("Unable to parse date");
        reveal_strlit("Invalid date format");
        reveal_strlit("Unknown extraction function");
        reveal_strlit("Expected date");
        reveal_strlit("year");
        reveal_strlit("month");
        reveal_strlit("day");
    }
    match extraction {
        None => Ok(value.clone_value()),
        Some(f) => {
            let text = match value.as_str() {
                Some(t) => t,
                None => {
                    return Err(server_error(500, "Expected date"));
                },
            };
            match parse_date(text.as_str()) {
                None => Err(server_error(500, "Unable to parse date")),
                Some(None) => Err(server_error(500, "Invalid date format")),
                Some(Some((year, month, day))) => {
                    if is_name(f, "year") {
                        Ok(JsonValue::Number(JsonNumber::from_i64(year as i64)))
                    } else if is_name(f, "month") {
                        Ok(JsonValue::Number(JsonNumber::from_u64(month as u64)))
                    } else if is_name(f, "day") {
                        Ok(JsonValue::Number(JsonNumber::from_u64(day as u64)))
                    } else {
                        Err(server_error(400, "Unknown extraction function"))
                    }
                },
            }
        },
    }
}

/// The integers of values that are all 64-bit integers.
pub open spec fn int_values(values: Seq<Json>) -> Seq<int> {
    values.map_values(|v: Json| crate::json::json_as_i64(v)->Some_0)
}

/// The sum of integers.
pub open spec fn int_sum(s: Seq<int>) -> int
    decreases s.len(),
{
    if s.len() == 0 {
        0
    } else {
        int_sum(s.drop_last()) + s.last()
    }
}

/// The least of integers.
pub open spec fn int_min(s: Seq<int>) -> int
    decreases s.len(),
{
    if s.len() <= 1 {
        s[0]
    } else if s.last() < int_min(s.drop_last()) {
        s.last()
    } else {
        int_min(s.drop_last())
    }
}

/// The greatest of integers.
pub open spec fn int_max(s: Seq<int>) -> int
    decreases s.len(),
{
    if s.len() <= 1 {
        s[0]
    } else if s.last() > int_max(s.drop_last()) {
        s.last()
    } else {
        int_max(s.drop_last())
    }
}

/// The least of strings.
pub open spec fn str_min(s: Seq<Seq<char>>) -> Seq<char>
    decreases s.len(),
{
    if s.len() <= 1 {
        s[0]
    } else if crate::strings::lex_order(s.last(), str_min(s.drop_last())) < 0 {
        s.last()
    } else {
        str_min(s.drop_last())
    }
}

/// The greatest of strings.
pub open spec fn str_max(s: Seq<Seq<char>>) -> Seq<char>
    decreases s.len(),
{
    if s.len() <= 1 {
        s[0]
    } else if crate::strings::lex_order(s.last(), str_max(s.drop_last())) >= 0 {
        s.last()
    } else {
        str_max(s.drop_last())
    }
}

/// Whether each running sum of integers fits in 64 bits.
pub open spec fn sums_fit(s: Seq<int>) -> bool {
    forall|k: int| 0 <= k <= s.len() ==> i64::MIN <= #[trigger] int_sum(s.take(k)) <= i64::MAX
}

/// Whether every value is an integer that fits in 64 bits.
pub open spec fn all_i64(values: Seq<Json>) -> bool {
    forall|i: int| 0 <= i < values.len() ==> crate::json::json_as_i64(#[trigger] values[i]) is Some
}

/// Whether every value is a number.
pub open spec fn all_numbers(values: Seq<Json>) -> bool {
    forall|i: int| 0 <= i < values.len() ==> is_number(#[trigger] values[i])
}

/// Whether every value is a string.
pub open spec fn all_strings(values: Seq<Json>) -> bool {
    forall|i: int| 0 <= i < values.len() ==> #[trigger] values[i] is Str
}

/// The strings of values that are all strings.
pub open spec fn strings_of(values: Seq<Json>) -> Seq<Seq<char>> {
    values.map_values(|v: Json| v->Str_0)
}

/// The values of numbers.
pub open spec fn number_values(numbers: Seq<JsonNumber>) -> Seq<Json> {
    numbers.map_values(|n: JsonNumber| n.json())
}

/// An aggregate function on floats, which the caller computes.
#[derive(Clone, Copy, Debug)]
pub enum FloatAggregate {
    Min,
    Max,
    Sum,
    Average,
}

/// Whether a closure is a function of its arguments, numbers taken by their
/// value.
pub open spec fn deterministic_float<F: Fn(FloatAggregate, &Vec<JsonNumber>) -> JsonValue>(f: F) -> bool {
    &&& forall|a: FloatAggregate, b: &Vec<JsonNumber>| f.requires((a, b))
    &&& forall|a: FloatAggregate, b: &Vec<JsonNumber>, d: &Vec<JsonNumber>, x: JsonValue, y: JsonValue|
        #![trigger f.ensures((a, b), x), f.ensures((a, d), y)]
        number_values(b@) == number_values(d@) && f.ensures((a, b), x) && f.ensures((a, d), y) ==> x@ == y@
}

/// Whether a closure is a function of its arguments.
pub open spec fn deterministic_average<A: Fn(i64, usize) -> JsonValue>(f: A) -> bool {
    &&& forall|a: i64, b: usize| f.requires((a, b))
    &&& forall|a: i64, b: usize, x: JsonValue, y: JsonValue|
        #![trigger f.ensures((a, b), x), f.ensures((a, b), y)]
        f.ensures((a, b), x) && f.ensures((a, b), y) ==> x@ == y@
}

/// The value of an aggregate function on floats that a closure gives.
pub open spec fn float_outcome<F: Fn(FloatAggregate, &Vec<JsonNumber>) -> JsonValue>(
    f: F,
    function: FloatAggregate,
    numbers: Seq<Json>,
) -> Json {
    let (b, r) = choose|b: &Vec<JsonNumber>, r: JsonValue|
        number_values(b@) == numbers && #[trigger] f.ensures((function, b), r);
    r@
}

/// The average that a closure gives of an integer sum and a count.
pub open spec fn average_value<A: Fn(i64, usize) -> JsonValue>(f: A, sum: int, count: nat) -> Json {
    (choose|v: JsonValue| #[trigger] f.ensures((sum as i64, count as usize), v))@
}

/// The value of an aggregate function on floats that a closure gives, as a
/// function of the aggregate function and the numbers.
pub open spec fn float_fn<F: Fn(FloatAggregate, &Vec<JsonNumber>) -> JsonValue>(f: F) -> spec_fn(FloatAggregate, Seq<Json>) -> Json {
    |function: FloatAggregate, numbers: Seq<Json>| float_outcome(f, function, numbers)
}

/// The average that a closure gives, as a function of a sum and a count.
pub open spec fn average_fn<A: Fn(i64, usize) -> JsonValue>(f: A) -> spec_fn(int, nat) -> Json {
    |sum: int, count: nat| average_value(f, sum, count)
}

/// The outcome of an aggregate function over column values: on integers,
/// the least, greatest, sum or average; on values starting with a float,
/// the least, greatest, sum or average that `floats` gives for them; on
/// strings, the least or greatest; null when there are no values.
pub open spec fn aggregate_result(
    function: Seq<char>,
    values: Seq<Json>,
    floats: spec_fn(FloatAggregate, Seq<Json>) -> Json,
    average: spec_fn(int, nat) -> Json,
) -> Result<Json, (u16, Seq<char>)> {
    if values.len() == 0 {
        Ok(Json::Null)
    } else if crate::json::json_as_i64(values[0]) is Some {
        if !all_i64(values) {
            Err((400, "column is not an integer"@))
        } else {
            let ints = int_values(values);
            if function == "min"@ {
                Ok(Json::Int(int_min(ints)))
            } else if function == "max"@ {
                Ok(Json::Int(int_max(ints)))
            } else if function == "sum"@ {
                Ok(Json::Int(int_sum(ints)))
            } else if function == "avg"@ {
                Ok(average(int_sum(ints), ints.len()))
            } else {
                Err((400, "invalid integer aggregation function"@))
            }
        }
    } else if values[0] is Float {
        if !all_numbers(values) {
            Err((400, "column is not a float"@))
        } else if function == "min"@ {
            Ok(floats(FloatAggregate::Min, values))
        } else if function == "max"@ {
            Ok(floats(FloatAggregate::Max, values))
        } else if function == "sum"@ {
            Ok(floats(FloatAggregate::Sum, values))
        } else if function == "avg"@ {
            Ok(floats(FloatAggregate::Average, values))
        } else {
            Err((400, "invalid float aggregation function"@))
        }
    } else if values[0] is Str {
        if !all_strings(values) {
            Err((400, "column is not a string"@))
        } else if function == "min"@ {
            Ok(Json::Str(str_min(strings_of(values))))
        } else if function == "max"@ {
            Ok(Json::Str(str_max(strings_of(values))))
        } else {
            Err((400, "invalid string aggregation function"@))
        }
    } else {
        Err((400, "column does not contain an aggregatable type"@))
    }
}

/// The greatest of integers is one of them and no smaller than any; the
/// least is one of them and no greater than any.
proof fn lemma_int_bounds(s: Seq<int>)
    requires
        s.len() > 0,
    ensures
        exists|i: int| 0 <= i < s.len() && s[i] == int_max(s),
        forall|i: int| 0 <= i < s.len() ==> s[i] <= int_max(s),
        exists|i: int| 0 <= i < s.len() && s[i] == int_min(s),
        forall|i: int| 0 <= i < s.len() ==> s[i] >= int_min(s),
    decreases s.len(),
{
    if s.len() > 1 {
        let t = s.drop_last();
        lemma_int_bounds(t);
        assert forall|i: int| 0 <= i < t.len() implies t[i] == s[i] by {}
        if s.last() > int_max(t) {
            assert(s[s.len() - 1] == int_max(s));
        } else {
            let i = choose|i: int| 0 <= i < t.len() && t[i] == int_max(t);
            assert(s[i] == int_max(s));
        }
        if s.last() < int_min(t) {
            assert(s[s.len() - 1] == int_min(s));
        } else {
            let i = choose|i: int| 0 <= i < t.len() && t[i] == int_min(t);
            assert(s[i] == int_min(s));
        }
    } else {
        assert(s[0] == int_max(s));
        assert(s[0] == int_min(s));
    }
}

/// On integers, `max` gives one of them that is no smaller than any, and
/// `min` one that is no greater than any.
pub proof fn lemma_integer_max_min(
    values: Seq<Json>,
    floats: spec_fn(FloatAggregate, Seq<Json>) -> Json,
    average: spec_fn(int, nat) -> Json,
)
    requires
        values.len() > 0,
        forall|i: int| 0 <= i < values.len() ==> crate::json::json_as_i64(#[trigger] values[i]) is Some,
    ensures
        aggregate_result("max"@, values, floats, average) matches Ok(Json::Int(x)) && (exists|i: int|
            0 <= i < values.len() && values[i] == Json::Int(x)) && forall|i: int|
            0 <= i < values.len() ==> (#[trigger] values[i] matches Json::Int(v) && v <= x),
        aggregate_result("min"@, values, floats, average) matches Ok(Json::Int(x)) && (exists|i: int|
            0 <= i < values.len() && values[i] == Json::Int(x)) && forall|i: int|
            0 <= i < values.len() ==> (#[trigger] values[i] matches Json::Int(v) && v >= x),
{
    reveal_strlit("min");
    reveal_strlit("max");
    assert("max"@ != "min"@) by {
        assert("max"@[1] != "min"@[1]);
    }
    let ints = int_values(values);
    assert forall|i: int| 0 <= i < values.len() implies values[i] == Json::Int(#[trigger] ints[i]) by {
        assert(crate::json::json_as_i64(values[i]) is Some);
    }
    assert(all_i64(values));
    lemma_int_bounds(ints);
    let i = choose|i: int| 0 <= i < ints.len() && ints[i] == int_max(ints);
    assert(values[i] == Json::Int(ints[i]));
    let j = choose|j: int| 0 <= j < ints.len() && ints[j] == int_min(ints);
    assert(values[j] == Json::Int(ints[j]));
    assert forall|k: int| 0 <= k < values.len() implies (#[trigger] values[k] matches Json::Int(v) && v <= int_max(ints)) by {
        assert(values[k] == Json::Int(ints[k]));
    }
    assert forall|k: int| 0 <= k < values.len() implies (#[trigger] values[k] matches Json::Int(v) && v >= int_min(ints)) by {
        assert(values[k] == Json::Int(ints[k]));
    }
}

/// The order of strings chains: no later than a string that is no later
/// than a third is no later than the third.
proof fn lemma_lex_no_later(a: Seq<char>, b: Seq<char>, c: Seq<char>)
    requires
        crate::strings::lex_order(a, b) <= 0,
        crate::strings::lex_order(b, c) <= 0,
    ensures
        crate::strings::lex_order(a, c) <= 0,
{
    crate::strings::lemma_lex_equal(a, b);
    crate::strings::lemma_lex_equal(b, c);
    if crate::strings::lex_order(a, b) < 0 && crate::strings::lex_order(b, c) < 0 {
        crate::strings::lemma_lex_transitive(a, b, c);
    }
}

/// The greatest of strings is one of them and no string comes after it;
/// the least is one of them and no string comes before it.
proof fn lemma_str_bounds(s: Seq<Seq<char>>)
    requires
        s.len() > 0,
    ensures
        exists|i: int| 0 <= i < s.len() && s[i] == str_max(s),
        forall|i: int| 0 <= i < s.len() ==> crate::strings::lex_order(#[trigger] s[i], str_max(s)) <= 0,
        exists|i: int| 0 <= i < s.len() && s[i] == str_min(s),
        forall|i: int| 0 <= i < s.len() ==> crate::strings::lex_order(str_min(s), #[trigger] s[i]) <= 0,
    decreases s.len(),
{
    if s.len() > 1 {
        let t = s.drop_last();
        let x = s.last();
        lemma_str_bounds(t);
        assert forall|i: int| 0 <= i < t.len() implies t[i] == s[i] by {}
        let mx = str_max(t);
        let mn = str_min(t);
        crate::strings::lemma_lex_flip(x, mx);
        crate::strings::lemma_lex_flip(x, mn);
        crate::strings::lemma_lex_equal(x, x);
        if crate::strings::lex_order(x, mx) >= 0 {
            assert(s[s.len() - 1] == str_max(s));
            assert forall|i: int| 0 <= i < s.len() implies crate::strings::lex_order(#[trigger] s[i], str_max(s)) <= 0 by {
                if i < t.len() {
                    assert(crate::strings::lex_order(t[i], mx) <= 0);
                    lemma_lex_no_later(s[i], mx, x);
                }
            }
        } else {
            let i = choose|i: int| 0 <= i < t.len() && t[i] == mx;
            assert(s[i] == str_max(s));
            assert forall|k: int| 0 <= k < s.len() implies crate::strings::lex_order(#[trigger] s[k], str_max(s)) <= 0 by {
                if k < t.len() {
                    assert(crate::strings::lex_order(t[k], mx) <= 0);
                }
            }
        }
        if crate::strings::lex_order(x, mn) < 0 {
            assert(s[s.len() - 1] == str_min(s));
            assert forall|i: int| 0 <= i < s.len() implies crate::strings::lex_order(str_min(s), #[trigger] s[i]) <= 0 by {
                if i < t.len() {
                    assert(crate::strings::lex_order(mn, t[i]) <= 0);
                    lemma_lex_no_later(x, mn, s[i]);
                }
            }
        } else {
            let i = choose|i: int| 0 <= i < t.len() && t[i] == mn;
            assert(s[i] == str_min(s));
            assert forall|k: int| 0 <= k < s.len() implies crate::strings::lex_order(str_min(s), #[trigger] s[k]) <= 0 by {
                if k < t.len() {
                    assert(crate::strings::lex_order(mn, t[k]) <= 0);
                }
            }
        }
    } else {
        crate::strings::lemma_lex_equal(s[0], s[0]);
        assert(s[0] == str_max(s));
        assert(s[0] == str_min(s));
    }
}

/// On strings, `max` gives one of them that no string comes after, and
/// `min` one that no string comes before.
pub proof fn lemma_string_max_min(
    values: Seq<Json>,
    floats: spec_fn(FloatAggregate, Seq<Json>) -> Json,
    average: spec_fn(int, nat) -> Json,
)
    requires
        values.len() > 0,
        forall|i: int| 0 <= i < values.len() ==> #[trigger] values[i] is Str,
    ensures
        aggregate_result("max"@, values, floats, average) matches Ok(Json::Str(x)) && (exists|i: int|
            0 <= i < values.len() && values[i] == Json::Str(x)) && forall|i: int|
            0 <= i < values.len() ==> (#[trigger] values[i] matches Json::Str(t)
                && crate::strings::lex_order(t, x) <= 0),
        aggregate_result("min"@, values, floats, average) matches Ok(Json::Str(x)) && (exists|i: int|
            0 <= i < values.len() && values[i] == Json::Str(x)) && forall|i: int|
            0 <= i < values.len() ==> (#[trigger] values[i] matches Json::Str(t)
                && crate::strings::lex_order(x, t) <= 0),
{
    reveal_strlit("min");
    reveal_strlit("max");
    assert("max"@ != "min"@) by {
        assert("max"@[1] != "min"@[1]);
    }
    let strs = strings_of(values);
    assert forall|i: int| 0 <= i < values.len() implies values[i] == Json::Str(#[trigger] strs[i]) by {
        assert(values[i] is Str);
    }
    assert(values[0] is Str);
    assert(all_strings(values));
    lemma_str_bounds(strs);
    let i = choose|i: int| 0 <= i < strs.len() && strs[i] == str_max(strs);
    assert(values[i] == Json::Str(strs[i]));
    let j = choose|j: int| 0 <= j < strs.len() && strs[j] == str_min(strs);
    assert(values[j] == Json::Str(strs[j]));
    assert forall|k: int| 0 <= k < values.len() implies (#[trigger] values[k] matches Json::Str(t)
        && crate::strings::lex_order(t, str_max(strs)) <= 0) by {
        assert(values[k] == Json::Str(strs[k]));
    }
    assert forall|k: int| 0 <= k < values.len() implies (#[trigger] values[k] matches Json::Str(t)
        && crate::strings::lex_order(str_min(strs), t) <= 0) by {
        assert(values[k] == Json::Str(strs[k]));
    }
}

/// On integers, `avg` hands the average the sum that `sum` gives and the
/// number of values.
pub proof fn lemma_integer_average(
    values: Seq<Json>,
    floats: spec_fn(FloatAggregate, Seq<Json>) -> Json,
    average: spec_fn(int, nat) -> Json,
)
    requires
        values.len() > 0,
        forall|i: int| 0 <= i < values.len() ==> crate::json::json_as_i64(#[trigger] values[i]) is Some,
    ensures
        aggregate_result("sum"@, values, floats, average) matches Ok(Json::Int(t))
            && aggregate_result("avg"@, values, floats, average) == Ok::<Json, (u16, Seq<char>)>(
            average(t, values.len()),
        ),
{
    reveal_strlit("min");
    reveal_strlit("max");
    reveal_strlit("sum");
    reveal_strlit("avg");
    assert("sum"@ != "min"@) by {
        assert("sum"@[0] != "min"@[0]);
    }
    assert("sum"@ != "max"@) by {
        assert("sum"@[0] != "max"@[0]);
    }
    assert("avg"@ != "min"@) by {
        assert("avg"@[0] != "min"@[0]);
    }
    assert("avg"@ != "max"@) by {
        assert("avg"@[0] != "max"@[0]);
    }
    assert("avg"@ != "sum"@) by {
        assert("avg"@[0] != "sum"@[0]);
    }
    assert(crate::json::json_as_i64(values[0]) is Some);
    assert(all_i64(values));
    assert(int_values(values).len() == values.len());
}

/// The sum of integers adds up: with no values there is nothing to sum,
/// one integer sums to itself, and one more integer adds itself to the
/// sum of the others.
pub proof fn lemma_integer_sum(
    values: Seq<Json>,
    v: int,
    floats: spec_fn(FloatAggregate, Seq<Json>) -> Json,
    average: spec_fn(int, nat) -> Json,
)
    requires
        forall|i: int| 0 <= i < values.len() ==> crate::json::json_as_i64(#[trigger] values[i]) is Some,
        i64::MIN <= v <= i64::MAX,
    ensures
        aggregate_result("sum"@, Seq::<Json>::empty(), floats, average) == Ok::<Json, (u16, Seq<char>)>(Json::Null),
        aggregate_result("sum"@, seq![Json::Int(v)], floats, average) == Ok::<Json, (u16, Seq<char>)>(Json::Int(v)),
        values.len() > 0 ==> (aggregate_result("sum"@, values, floats, average) matches Ok(Json::Int(t))
            && aggregate_result("sum"@, values.push(Json::Int(v)), floats, average) == Ok::<Json, (u16, Seq<char>)>(
            Json::Int(t + v),
        )),
{
    reveal_strlit("min");
    reveal_strlit("max");
    reveal_strlit("sum");
    assert("sum"@ != "min"@) by {
        assert("sum"@[0] != "min"@[0]);
    }
    assert("sum"@ != "max"@) by {
        assert("sum"@[0] != "max"@[0]);
    }
    reveal_with_fuel(int_sum, 2);
    let one = seq![Json::Int(v)];
    assert(int_values(one) =~= seq![v]);
    assert(int_values(one).drop_last() =~= Seq::<int>::empty());
    let w = values.push(Json::Int(v));
    assert forall|i: int| 0 <= i < w.len() implies crate::json::json_as_i64(#[trigger] w[i]) is Some by {
        if i < values.len() {
            assert(w[i] == values[i]);
        }
    }
    assert(int_values(w).drop_last() =~= int_values(values));
    assert(int_values(w).last() == v);
    if values.len() > 0 {
        assert(w[0] == values[0]);
    }
}

/// The outcome of an aggregate function over column values, floats and
/// averages computed by closures.
pub open spec fn aggregate_outcome<F: Fn(FloatAggregate, &Vec<JsonNumber>) -> JsonValue, A: Fn(i64, usize) -> JsonValue>(
    function: String,
    values: Seq<Json>,
    floats: F,
    average: A,
) -> Result<Json, (u16, Seq<char>)> {
    aggregate_result(function@, values, float_fn(floats), average_fn(average))
}

/// Evaluates an aggregate function over column values: on integers, the
/// least, greatest, sum or (by `average`) average; on values starting with
/// a float, what `floats` gives for them as numbers; on strings, the least
/// or greatest; null when there are no values.  `floats` and `average`
/// compute with 64-bit floats.
pub fn eval_aggregate_function<
    F: Fn(FloatAggregate, &Vec<JsonNumber>) -> JsonValue,
    A: Fn(i64, usize) -> JsonValue,
>(function: &String, values: &Vec<JsonValue>, floats: &F, average: &A) -> (r: Result<JsonValue, ServerError>)
    requires
        deterministic_float(*floats),
        deterministic_average(*average),
        all_i64(views(values@)) && (function@ == "sum"@ || function@ == "avg"@) ==> sums_fit(
            int_values(views(values@)),
        ),
    ensures
        json_outcome(r) == aggregate_outcome(*function, views(values@), *floats, *average),
{
    proof {
        reveal_strlit("min");
        reveal_strlit("max");
        reveal_strlit("sum");
        reveal_strlit("avg");
        reveal_strlit("column is not an integer");
        reveal_strlit("invalid integer aggregation function");
        reveal_strlit("column is not a float");
        reveal_strlit("invalid float aggregation function");
        reveal_strlit("column is not a string");
        reveal_strlit("invalid string aggregation function");
        reveal_strlit("column does not contain an aggregatable type");
    }
    if values.len() == 0 {
        return Ok(JsonValue::Null);
    }
    if values[0].as_i64().is_some() {
        let mut ints: Vec<i64> = Vec::new();
        let mut i: usize = 0;
        while i < values.len()
            invariant
                values.len() > 0,
                crate::json::json_as_i64(values@[0]@) is Some,
                i <= values.len(),
                ints.len() == i,
                forall|j: int| 0 <= j < i ==> crate::json::json_as_i64(#[trigger] values@[j]@) == Some(ints@[j] as int),
            decreases values.len() - i,
        {
            match values[i].as_i64() {
                Some(n) => {
                    ints.push(n);
                },
                None => {
                    proof {
                        assert(!all_i64(views(values@))) by {
                            assert(crate::json::json_as_i64(views(values@)[i as int]) is None);
                        }
                    }
                    return Err(server_error(400, "column is not an integer"));
                },
            }
            i += 1;
        }
        let ghost s = int_values(views(values@));
        proof {
            assert(all_i64(views(values@)));
            assert forall|j: int| 0 <= j < ints.len() implies s[j] == ints@[j] as int by {
                assert(crate::json::json_as_i64(values@[j]@) == Some(ints@[j] as int));
            }
        }
        if is_name(function, "min") || is_name(function, "max") {
            let is_min = is_name(function, "min");
            let mut best = ints[0];
            let mut k: usize = 1;
            while k < ints.len()
                invariant
                    1 <= k <= ints.len(),
                    s.len() == ints.len(),
                    forall|j: int| 0 <= j < ints.len() ==> s[j] == ints@[j] as int,
                    is_min ==> best as int == int_min(s.take(k as int)),
                    !is_min ==> best as int == int_max(s.take(k as int)),
                decreases ints.len() - k,
            {
                proof {
                    assert(s.take(k + 1).drop_last() =~= s.take(k as int));
                    assert(s.take(k + 1).last() == s[k as int]);
                }
                if is_min {
                    if ints[k] < best {
                        best = ints[k];
                    }
                } else {
                    if ints[k] > best {
                        best = ints[k];
                    }
                }
                k += 1;
            }
            proof {
                assert(s.take(k as int) =~= s);
            }
            return Ok(JsonValue::Number(JsonNumber::from_i64(best)));
        }
        if is_name(function, "sum") || is_name(function, "avg") {
            let mut total: i64 = 0;
            let mut k: usize = 0;
            proof {
                assert(s.take(0) =~= Seq::<int>::empty());
            }
            while k < ints.len()
                invariant
                    k <= ints.len(),
                    s.len() == ints.len(),
                    forall|j: int| 0 <= j < ints.len() ==> s[j] == ints@[j] as int,
                    sums_fit(s),
                    total as int == int_sum(s.take(k as int)),
                decreases ints.len() - k,
            {
                proof {
                    assert(s.take(k + 1).drop_last() =~= s.take(k as int));
                    assert(s.take(k + 1).last() == s[k as int]);
                    assert(i64::MIN <= int_sum(s.take(k + 1)) <= i64::MAX);
                }
                total = total + ints[k];
                k += 1;
            }
            proof {
                assert(s.take(k as int) =~= s);
            }
            if is_name(function, "sum") {
                return Ok(JsonValue::Number(JsonNumber::from_i64(total)));
            } else {
                let v = average(total, ints.len());
                return Ok(v);
            }
        }
        return Err(server_error(400, "invalid integer aggregation function"));
    }
    let first_is_float = match &values[0] {
        JsonValue::Number(JsonNumber::Float(_)) => true,
        _ => false,
    };
    if first_is_float {
        let mut numbers: Vec<JsonNumber> = Vec::new();
        let mut i: usize = 0;
        while i < values.len()
            invariant
                values.len() > 0,
                crate::json::json_as_i64(values@[0]@) is None,
                values@[0] matches JsonValue::Number(JsonNumber::Float(_)),
                i <= values.len(),
                numbers.len() == i,
                forall|j: int| 0 <= j < i ==> #[trigger] values@[j] is Number && numbers@[j].json() == values@[j]@,
            decreases values.len() - i,
        {
            match &values[i] {
                JsonValue::Number(n) => {
                    numbers.push(*n);
                },
                _ => {
                    proof {
                        assert(!is_number(views(values@)[i as int]));
                    }
                    return Err(server_error(400, "column is not a float"));
                },
            }
            i += 1;
        }
        proof {
            assert(number_values(numbers@) =~= views(values@));
        }
        let op = if is_name(function, "min") {
            FloatAggregate::Min
        } else if is_name(function, "max") {
            FloatAggregate::Max
        } else if is_name(function, "sum") {
            FloatAggregate::Sum
        } else if is_name(function, "avg") {
            FloatAggregate::Average
        } else {
            return Err(server_error(400, "invalid float aggregation function"));
        };
        let v = floats(op, &numbers);
        proof {
            assert(floats.ensures((op, &numbers), v));
        }
        return Ok(v);
    }
    let first_is_string = match &values[0] {
        JsonValue::String(_) => true,
        _ => false,
    };
    if first_is_string {
        let mut strings: Vec<&String> = Vec::new();
        let mut i: usize = 0;
        while i < values.len()
            invariant
                values.len() > 0,
                crate::json::json_as_i64(values@[0]@) is None,
                values@[0] is String,
                i <= values.len(),
                strings.len() == i,
                forall|j: int| 0 <= j < i ==> #[trigger] values@[j] is String && strings@[j]@ == values@[j]->String_0@,
            decreases values.len() - i,
        {
            match &values[i] {
                JsonValue::String(t) => {
                    strings.push(t);
                },
                _ => {
                    proof {
                        assert(!(views(values@)[i as int] is Str));
                    }
                    return Err(server_error(400, "column is not a string"));
                },
            }
            i += 1;
        }
        let ghost s = strings_of(views(values@));
        if is_name(function, "min") || is_name(function, "max") {
            let is_min = is_name(function, "min");
            let mut best: &String = strings[0];
            let mut k: usize = 1;
            while k < strings.len()
                invariant
                    1 <= k <= strings.len(),
                    s.len() == strings.len(),
                    forall|j: int| 0 <= j < strings.len() ==> s[j] == strings@[j]@,
                    is_min ==> best@ == str_min(s.take(k as int)),
                    !is_min ==> best@ == str_max(s.take(k as int)),
                decreases strings.len() - k,
            {
                proof {
                    assert(s.take(k + 1).drop_last() =~= s.take(k as int));
                    assert(s.take(k + 1).last() == s[k as int]);
                }
                let c = crate::strings::string_order(strings[k].as_str(), best.as_str());
                if is_min {
                    if c < 0 {
                        best = strings[k];
                    }
                } else {
                    if c >= 0 {
                        best = strings[k];
                    }
                }
                k += 1;
            }
            proof {
                assert(s.take(k as int) =~= s);
            }
            return Ok(JsonValue::String(best.clone()));
        }
        return Err(server_error(400, "invalid string aggregation function"));
    }
    Err(server_error(400, "column does not contain an aggregatable type"))
}

} // verus!
