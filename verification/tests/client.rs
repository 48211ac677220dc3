use ndc_spec::urls::{append_path, urlencode};

fn appended(base: &str, segments: &[&str]) -> String {
    let url = url::Url::parse(base).unwrap();
    append_path(url.as_str(), segments).unwrap()
}

#[test]
fn default_api_test_append_path() {
    let path = "capabilities";
    let result = appended("http://hasura.io", &[path]);
    assert_eq!(result.as_str(), "http://hasura.io/capabilities");
}

#[test]
fn default_api_test_append_path_with_trailing_slash() {
    let path = "capabilities";
    let result = appended("http://hasura.io/", &[path]);
    assert_eq!(result.as_str(), "http://hasura.io/capabilities");
}

#[test]
fn default_api_test_append_path_with_non_empty_path() {
    let path = "capabilities";
    let result = appended("http://hasura.io/ndc", &[path]);
    assert_eq!(result.as_str(), "http://hasura.io/ndc/capabilities");
}

#[test]
fn default_api_test_append_path_with_non_empty_path_and_trailing_slash() {
    let path = "capabilities";
    let result = appended("http://hasura.io/ndc/", &[path]);
    assert_eq!(result.as_str(), "http://hasura.io/ndc/capabilities");
}

#[test]
fn mod_test_append_path() {
    let path = "capabilities";
    let result = appended("http://hasura.io", &[path]);
    assert_eq!(result.as_str(), "http://hasura.io/capabilities");
}

#[test]
fn mod_test_append_path_with_trailing_slash() {
    let path = "capabilities";
    let result = appended("http://hasura.io/", &[path]);
    assert_eq!(result.as_str(), "http://hasura.io/capabilities");
}

#[test]
fn mod_test_append_path_with_non_empty_path() {
    let path = "capabilities";
    let result = appended("http://hasura.io/ndc", &[path]);
    assert_eq!(result.as_str(), "http://hasura.io/ndc/capabilities");
}

#[test]
fn mod_test_append_path_with_non_empty_path_and_trailing_slash() {
    let path = "capabilities";
    let result = appended("http://hasura.io/ndc/", &[path]);
    assert_eq!(result.as_str(), "http://hasura.io/ndc/capabilities");
}

#[test]
fn test_append_paths() {
    let paths = ["query", "explain"];
    let result = appended("http://hasura.io/ndc/", &paths);
    assert_eq!(result.as_str(), "http://hasura.io/ndc/query/explain");
}

#[test]
fn append_path_keeps_query() {
    let result = appended("http://hasura.io/ndc/?a=1", &["schema"]);
    assert_eq!(result.as_str(), "http://hasura.io/ndc/schema?a=1");
}

#[test]
fn append_path_refuses_a_url_that_cannot_be_a_base() {
    assert_eq!(append_path("mailto:someone@example.com", &["schema"]), Err(()));
    assert_eq!(append_path("data:text/plain,x", &["schema"]), Err(()));
}

#[test]
fn append_path_refuses_text_that_is_no_url() {
    assert_eq!(append_path("not a url", &["schema"]), Err(()));
    assert_eq!(append_path("", &["schema"]), Err(()));
}

#[test]
fn urlencode_encodes_reserved_bytes() {
    assert_eq!(urlencode("a b&c"), "a+b%26c");
    assert_eq!(urlencode("x-y_z.w*"), "x-y_z.w*");
    assert_eq!(urlencode("é"), "%C3%A9");
    assert_eq!(urlencode(""), "");
}
