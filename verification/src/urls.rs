use vstd::prelude::*;

verus! {

/// Whether form encoding leaves a byte as it is: ASCII letters, digits and
/// `*`, `-`, `.`, `_`.
pub open spec fn unreserved(b: u8) -> bool {
    b == 42 || b == 45 || b == 46 || (48 <= b <= 57) || (65 <= b <= 90) || b == 95 || (97 <= b
        <= 122)
}

/// An upper-case hexadecimal digit.
pub open spec fn hex_digit(d: nat) -> char {
    if d < 10 {
        (48 + d) as char
    } else {
        (55 + d) as char
    }
}

/// How form encoding writes one byte: unreserved bytes as themselves, a
/// space as `+`, any other byte as `%` and two upper-case hexadecimal
/// digits.
pub open spec fn encode_byte(b: u8) -> Seq<char> {
    if unreserved(b) {
        seq![b as char]
    } else if b == 32 {
        seq!['+']
    } else {
        seq!['%', hex_digit((b / 16) as nat), hex_digit((b % 16) as nat)]
    }
}

/// The `application/x-www-form-urlencoded` encoding of bytes.
pub open spec fn form_urlencoded(bytes: Seq<u8>) -> Seq<char>
    decreases bytes.len(),
{
    if bytes.len() == 0 {
        seq![]
    } else {
        form_urlencoded(bytes.drop_last()) + encode_byte(bytes.last())
    }
}

/// `url::form_urlencoded::byte_serialize`, collected: each byte encoded in
/// turn.
#[verifier::external_body]
fn byte_serialize(s: &str) -> (r: String)
    ensures
        r@ == form_urlencoded(vstd::utf8::encode_utf8(s@)),
{
    url::form_urlencoded::byte_serialize(s.as_bytes()).collect()
}

/// Encodes a string for use in a URL query, as form encoding does with its
/// UTF-8 bytes.
pub fn urlencode(s: &str) -> (r: String)
    ensures
        r@ == form_urlencoded(vstd::utf8::encode_utf8(s@)),
{
    byte_serialize(s)
}

/// What `url::Url::parse` makes of a text, given by the serialization of
/// the URL it yields; none where it refuses the text.
pub uninterp spec fn parsed_url(text: Seq<char>) -> Option<Seq<char>>;

/// The serialization of a URL after `url::PathSegmentsMut::pop_if_empty`
/// and then `extend` with the given segments.
pub uninterp spec fn segments_extended(url: Seq<char>, segments: Seq<Seq<char>>) -> Seq<char>;

/// Whether `url::Url::cannot_be_a_base` holds of the URL that a
/// serialization spells: the character after the end of its scheme, the
/// first `:`, is not `/`.
pub open spec fn cannot_be_a_base(url: Seq<char>) -> bool {
    !exists|i: int|
        #![trigger url[i]]
        0 <= i && i + 1 < url.len() && url[i] == ':' && url[i + 1] == '/' && (forall|j: int|
            0 <= j < i ==> url[j] != ':')
}

/// The texts of a list of strings.
pub open spec fn texts(segments: Seq<&str>) -> Seq<Seq<char>> {
    segments.map_values(|s: &str| s@)
}

/// `url::Url::parse`, the URL given back by its serialization
/// (`url::Url::as_str`); none where parsing fails. The contract names the
/// result.
#[verifier::external_body]
fn parse_url(text: &str) -> (r: Option<String>)
    ensures
        match r {
            Some(s) => parsed_url(text@) == Some(s@),
            None => parsed_url(text@) is None,
        },
{
    match url::Url::parse(text) {
        Ok(u) => Some(u.as_str().to_string()),
        Err(_) => None,
    }
}

/// `url::Url::path_segments_mut` on the parsed text, then
/// `pop_if_empty` and `extend` with the segments; the serialization of the
/// result. The contract names the result; `requires` leaves out the texts
/// on which the parse or `path_segments_mut` would fail.
#[verifier::external_body]
fn extend_path_segments(text: &str, segments: &[&str]) -> (r: String)
    requires
        parsed_url(text@) matches Some(u) && !cannot_be_a_base(u),
    ensures
        r@ == segments_extended(parsed_url(text@)->0, texts(segments@)),
{
    let mut u = url::Url::parse(text).unwrap();
    u.path_segments_mut().unwrap().pop_if_empty().extend(segments);
    u.as_str().to_string()
}

/// Whether the URL that a serialization spells cannot be a base: the
/// character after its first `:` is not `/`.
fn url_cannot_be_a_base(url: &str) -> (b: bool)
    ensures
        b == cannot_be_a_base(url@),
{
    let n = url.unicode_len();
    let mut i: usize = 0;
    while i < n
        invariant
            n == url@.len(),
            i <= n,
            forall|j: int| 0 <= j < i ==> url@[j] != ':',
        decreases n - i,
    {
        if url.get_char(i) == ':' {
            let after_slash = i + 1 < n && url.get_char(i + 1) == '/';
            proof {
                if !after_slash {
                    assert forall|k: int|
                        #![trigger url@[k]]
                        !(0 <= k && k + 1 < url@.len() && url@[k] == ':' && url@[k + 1] == '/' && (
                        forall|j: int| 0 <= j < k ==> url@[j] != ':')) by {
                        if 0 <= k && k + 1 < url@.len() && url@[k] == ':' && url@[k + 1] == '/' {
                            if k < i {
                            } else if k > i {
                                assert(url@[i as int] == ':');
                            }
                        }
                    }
                }
            }
            return !after_slash;
        }
        i = i + 1;
    }
    true
}

/// A URL with path segments appended: the last segment of its path is
/// dropped where it is empty (a trailing `/`), then each segment is added.
/// Fails where the text is no URL or the URL cannot be a base.
pub fn append_path(url: &str, path: &[&str]) -> (r: Result<String, ()>)
    ensures
        match parsed_url(url@) {
            None => r is Err,
            Some(u) => if cannot_be_a_base(u) {
                r is Err
            } else {
                r matches Ok(s) && s@ == segments_extended(u, texts(path@))
            },
        },
{
    let parsed = match parse_url(url) {
        Some(u) => u,
        None => {
            return Err(());
        },
    };
    if url_cannot_be_a_base(parsed.as_str()) {
        return Err(());
    }
    Ok(extend_path_segments(url, path))
}

} // verus!
