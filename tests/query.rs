use memoire::query::{sanitize_fts5_query, ErrorClass, SearchError};

#[test]
fn plain_query_is_quoted() {
    assert_eq!(sanitize_fts5_query("hello").unwrap(), "\"hello\"");
    assert_eq!(sanitize_fts5_query("  hello world \n").unwrap(), "\"hello world\"");
}

#[test]
fn pre_quoted_query_works() {
    assert_eq!(sanitize_fts5_query("\"hello\"").unwrap(), "\"\"\"hello\"\"\"");
    assert_eq!(sanitize_fts5_query("a\"b").unwrap(), "\"a\"\"b\"");
}

#[test]
fn empty_query_is_a_client_error() {
    let e = sanitize_fts5_query("").unwrap_err();
    assert_eq!(e, SearchError::EmptyQuery);
    assert_eq!(e.class(), ErrorClass::Client);
    assert!(sanitize_fts5_query(" \t ").is_err());
}
