use vstd::prelude::*;

verus! {

/// Whether `needle` occurs in `haystack`.
pub open spec fn occurs_in(haystack: Seq<char>, needle: Seq<char>) -> bool {
    exists|i: int|
        0 <= i <= haystack.len() - needle.len() && #[trigger] haystack.subrange(i, i + needle.len())
            == needle
}

/// Whether `haystack` begins with `prefix`.
pub open spec fn begins_with(haystack: Seq<char>, prefix: Seq<char>) -> bool {
    prefix.len() <= haystack.len() && haystack.subrange(0, prefix.len() as int) == prefix
}

/// Whether `haystack` ends with `suffix`.
pub open spec fn finishes_with(haystack: Seq<char>, suffix: Seq<char>) -> bool {
    suffix.len() <= haystack.len() && haystack.subrange(
        haystack.len() - suffix.len(),
        haystack.len() as int,
    ) == suffix
}

/// The order of two strings: lexicographic by characters, which is the
/// order of their UTF-8 encodings.
pub open spec fn lex_order(a: Seq<char>, b: Seq<char>) -> int
    decreases a.len(),
{
    if a.len() == 0 {
        if b.len() == 0 {
            0
        } else {
            -1
        }
    } else if b.len() == 0 {
        1
    } else if (a[0] as int) < (b[0] as int) {
        -1
    } else if (a[0] as int) > (b[0] as int) {
        1
    } else {
        lex_order(a.drop_first(), b.drop_first())
    }
}

/// Strings of the same order are equal.
pub proof fn lemma_lex_equal(a: Seq<char>, b: Seq<char>)
    ensures
        lex_order(a, b) == 0 <==> a == b,
    decreases a.len(),
{
    if a.len() > 0 && b.len() > 0 {
        lemma_lex_equal(a.drop_first(), b.drop_first());
        if a[0] == b[0] && a.drop_first() == b.drop_first() {
            assert(a =~= seq![a[0]] + a.drop_first());
            assert(b =~= seq![b[0]] + b.drop_first());
        }
        if a == b {
            assert(a.drop_first() =~= b.drop_first());
        }
    } else if a.len() == 0 && b.len() == 0 {
        assert(a =~= b);
    }
}

/// Swapping two strings reverses their order.
pub proof fn lemma_lex_flip(a: Seq<char>, b: Seq<char>)
    ensures
        lex_order(a, b) == -lex_order(b, a),
    decreases a.len(),
{
    if a.len() > 0 && b.len() > 0 {
        lemma_lex_flip(a.drop_first(), b.drop_first());
    }
}

/// The order of strings is transitive.
pub proof fn lemma_lex_transitive(a: Seq<char>, b: Seq<char>, c: Seq<char>)
    requires
        lex_order(a, b) < 0,
        lex_order(b, c) < 0,
    ensures
        lex_order(a, c) < 0,
    decreases a.len(),
{
    if a.len() > 0 && b.len() > 0 && c.len() > 0 {
        if (a[0] as int) == (b[0] as int) && (b[0] as int) == (c[0] as int) {
            lemma_lex_transitive(a.drop_first(), b.drop_first(), c.drop_first());
        }
    }
}

/// `str::to_lowercase`: the lower-case form of a string, by the Unicode
/// tables of the standard library.
pub uninterp spec fn lowercase(s: Seq<char>) -> Seq<char>;

/// Whether `needle` occurs in `haystack` at position `at`.
fn occurs_at(haystack: &str, needle: &str, at: usize) -> (b: bool)
    requires
        at + needle@.len() <= haystack@.len(),
    ensures
        b == (haystack@.subrange(at as int, at + needle@.len()) == needle@),
{
    let h = haystack.unicode_len();
    let n = needle.unicode_len();
    let mut i: usize = 0;
    while i < n
        invariant
            n == needle@.len(),
            h == haystack@.len(),
            at + n <= haystack@.len(),
            i <= n,
            forall|j: int| 0 <= j < i ==> haystack@[at + j] == needle@[j],
        decreases n - i,
    {
        if haystack.get_char(at + i) != needle.get_char(i) {
            proof {
                assert(haystack@.subrange(at as int, at + n)[i as int] != needle@[i as int]);
            }
            return false;
        }
        i += 1;
    }
    proof {
        assert(haystack@.subrange(at as int, at + n) =~= needle@);
    }
    true
}

/// `str::contains` with a string pattern: whether the pattern occurs.
pub(crate) fn str_contains(haystack: &str, needle: &str) -> (b: bool)
    ensures
        b == occurs_in(haystack@, needle@),
{
    let h = haystack.unicode_len();
    let n = needle.unicode_len();
    if n > h {
        return false;
    }
    let mut at: usize = 0;
    while at < h - n
        invariant
            h == haystack@.len(),
            n == needle@.len(),
            n <= h,
            at <= h - n,
            forall|i: int| 0 <= i < at ==> #[trigger] haystack@.subrange(i, i + n) != needle@,
        decreases h - n - at,
    {
        if occurs_at(haystack, needle, at) {
            proof {
                assert(haystack@.subrange(at as int, at + n) == needle@);
            }
            return true;
        }
        at += 1;
    }
    let last = occurs_at(haystack, needle, at);
    proof {
        if last {
            assert(haystack@.subrange(at as int, at + n) == needle@);
        } else {
            assert forall|i: int| 0 <= i <= h - n implies #[trigger] haystack@.subrange(i, i + n) != needle@ by {
                if i == at {
                }
            }
        }
    }
    last
}

/// `str::starts_with` with a string pattern.
pub(crate) fn str_starts_with(haystack: &str, prefix: &str) -> (b: bool)
    ensures
        b == begins_with(haystack@, prefix@),
{
    let h = haystack.unicode_len();
    let n = prefix.unicode_len();
    if n > h {
        return false;
    }
    occurs_at(haystack, prefix, 0)
}

/// `str::ends_with` with a string pattern.
pub(crate) fn str_ends_with(haystack: &str, suffix: &str) -> (b: bool)
    ensures
        b == finishes_with(haystack@, suffix@),
{
    let h = haystack.unicode_len();
    let n = suffix.unicode_len();
    if n > h {
        return false;
    }
    occurs_at(haystack, suffix, h - n)
}

/// `str::to_lowercase`.
#[verifier::external_body]
pub(crate) fn str_to_lowercase(s: &str) -> (r: String)
    ensures
        r@ == lowercase(s@),
{
    s.to_lowercase()
}

/// The order of two strings: -1, 0 or 1 as the first is less than, equal
/// to or greater than the second, character by character.
pub(crate) fn string_order(a: &str, b: &str) -> (r: i8)
    ensures
        r == lex_order(a@, b@),
{
    let la = a.unicode_len();
    let lb = b.unicode_len();
    let mut i: usize = 0;
    proof {
        assert(a@.skip(0) =~= a@);
        assert(b@.skip(0) =~= b@);
    }
    while i < la && i < lb
        invariant
            la == a@.len(),
            lb == b@.len(),
            i <= la,
            i <= lb,
            lex_order(a@, b@) == lex_order(a@.skip(i as int), b@.skip(i as int)),
        decreases la - i,
    {
        let ca = a.get_char(i);
        let cb = b.get_char(i);
        proof {
            assert(a@.skip(i as int)[0] == ca);
            assert(b@.skip(i as int)[0] == cb);
        }
        if (ca as u32) < (cb as u32) {
            return -1;
        }
        if (ca as u32) > (cb as u32) {
            return 1;
        }
        proof {
            assert(a@.skip(i as int).drop_first() =~= a@.skip(i + 1));
            assert(b@.skip(i as int).drop_first() =~= b@.skip(i + 1));
        }
        i += 1;
    }
    if la == lb {
        0
    } else if i == la {
        -1
    } else {
        1
    }
}

/// `format!("{prefix}{middle}{suffix}")`: the three strings, one after
/// another.
pub(crate) fn concat3(prefix: &str, middle: &str, suffix: &str) -> (r: String)
    ensures
        r@ == prefix@ + middle@ + suffix@,
{
    let mut r = String::from_str(prefix);
    r.append(middle);
    r.append(suffix);
    r
}

/// Whether the regular expression that `pattern` compiles to, with
/// `regex::Regex::new`, matches somewhere in `text`; none when the pattern
/// does not compile.
pub uninterp spec fn regex_match(pattern: Seq<char>, text: Seq<char>) -> Option<bool>;

/// `regex::Regex::new` on a pattern, then `Regex::is_match` on a text;
/// none when the pattern does not compile.
#[verifier::external_body]
pub(crate) fn regex_is_match(pattern: &str, text: &str) -> (r: Option<bool>)
    ensures
        r == regex_match(pattern@, text@),
{
    match regex::Regex::new(pattern) {
        Ok(re) => Some(re.is_match(text)),
        Err(_) => None,
    }
}

} // verus!
