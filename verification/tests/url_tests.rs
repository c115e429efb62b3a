use saba_core::url::Url;

#[test]
fn test_url_host() {
    let url = "http://example.com".to_string();
    let mut parsed = Url::new(url);
    assert!(parsed.parse().is_ok());
    assert_eq!(parsed.host(), "example.com");
    assert_eq!(parsed.port(), "80");
    assert_eq!(parsed.path(), "");
    assert_eq!(parsed.searchpart(), "");
}

#[test]
fn test_url_host_port() {
    let url = "http://example.com:8888".to_string();
    let mut parsed = Url::new(url);
    assert!(parsed.parse().is_ok());
    assert_eq!(parsed.host(), "example.com");
    assert_eq!(parsed.port(), "8888");
    assert_eq!(parsed.path(), "");
    assert_eq!(parsed.searchpart(), "");
}

#[test]
fn test_url_host_port_path() {
    let url = "http://example.com:8888/index.html".to_string();
    let mut parsed = Url::new(url);
    assert!(parsed.parse().is_ok());
    assert_eq!(parsed.host(), "example.com");
    assert_eq!(parsed.port(), "8888");
    assert_eq!(parsed.path(), "index.html");
    assert_eq!(parsed.searchpart(), "");
}

#[test]
fn test_url_host_path() {
    let url = "http://example.com/index.html".to_string();
    let mut parsed = Url::new(url);
    assert!(parsed.parse().is_ok());
    assert_eq!(parsed.host(), "example.com");
    assert_eq!(parsed.port(), "80");
    assert_eq!(parsed.path(), "index.html");
    assert_eq!(parsed.searchpart(), "");
}

#[test]
fn test_url_host_port_path_query() {
    let url = "http://example.com:8888/index.html?a=123&b=456".to_string();
    let mut parsed = Url::new(url);
    assert!(parsed.parse().is_ok());
    assert_eq!(parsed.host(), "example.com");
    assert_eq!(parsed.port(), "8888");
    assert_eq!(parsed.path(), "index.html");
    assert_eq!(parsed.searchpart(), "a=123&b=456");
}

#[test]
fn test_no_scheme() {
    let url = "example.com".to_string();
    let mut parsed = Url::new(url);
    match parsed.parse() {
        Err(e) => assert_eq!(e, "Only HTTP is supported."),
        Ok(_) => panic!("a raw text without a scheme must be rejected"),
    }
}

#[test]
fn test_unsupported_scheme() {
    let url = "https://example.com".to_string();
    let mut parsed = Url::new(url);
    match parsed.parse() {
        Err(e) => assert_eq!(e, "Only HTTP is supported."),
        Ok(_) => panic!("an https scheme must be rejected"),
    }
}

#[test]
fn test_failed_parse_leaves_fields_empty() {
    let mut parsed = Url::new("ftp://example.com".to_string());
    assert!(parsed.parse().is_err());
    assert_eq!(parsed.host(), "");
    assert_eq!(parsed.port(), "");
    assert_eq!(parsed.path(), "");
    assert_eq!(parsed.searchpart(), "");
}

#[test]
fn test_reparse_yields_same_fields() {
    let mut parsed = Url::new("http://example.com:8888/index.html?a=123".to_string());
    assert!(parsed.parse().is_ok());
    let host = parsed.host().to_string();
    let port = parsed.port().to_string();
    let path = parsed.path().to_string();
    let searchpart = parsed.searchpart().to_string();
    assert!(parsed.parse().is_ok());
    assert_eq!(parsed.host(), host);
    assert_eq!(parsed.port(), port);
    assert_eq!(parsed.path(), path);
    assert_eq!(parsed.searchpart(), searchpart);
}

#[test]
fn test_bare_colon_gives_empty_port() {
    let mut parsed = Url::new("http://example.com:".to_string());
    assert!(parsed.parse().is_ok());
    assert_eq!(parsed.host(), "example.com");
    assert_eq!(parsed.port(), "");
    assert_eq!(parsed.path(), "");
    assert_eq!(parsed.searchpart(), "");
}

#[test]
fn test_only_first_question_mark_delimits() {
    let mut parsed = Url::new("http://example.com/p?a=1?b=2".to_string());
    assert!(parsed.parse().is_ok());
    assert_eq!(parsed.host(), "example.com");
    assert_eq!(parsed.port(), "80");
    assert_eq!(parsed.path(), "p");
    assert_eq!(parsed.searchpart(), "a=1?b=2");
}

#[test]
fn test_scheme_found_anywhere_but_stripped_only_as_prefix() {
    // The scheme check is a containment check, while the strip is a
    // prefix trim: text with a late marker passes the check and is then
    // split as it stands.
    let mut parsed = Url::new("foo http://bar".to_string());
    assert!(parsed.parse().is_ok());
    assert_eq!(parsed.host(), "foo http");
    assert_eq!(parsed.port(), "");
    assert_eq!(parsed.path(), "/bar");
    assert_eq!(parsed.searchpart(), "");
}

#[test]
fn test_empty_host_and_immediate_slash() {
    let mut parsed = Url::new("http:///index.html".to_string());
    assert!(parsed.parse().is_ok());
    assert_eq!(parsed.host(), "");
    assert_eq!(parsed.port(), "80");
    assert_eq!(parsed.path(), "index.html");
    assert_eq!(parsed.searchpart(), "");
}

#[test]
fn test_query_without_path_text() {
    let mut parsed = Url::new("http://example.com/?q=1".to_string());
    assert!(parsed.parse().is_ok());
    assert_eq!(parsed.host(), "example.com");
    assert_eq!(parsed.port(), "80");
    assert_eq!(parsed.path(), "");
    assert_eq!(parsed.searchpart(), "q=1");
}

#[test]
fn test_scheme_alone() {
    let mut parsed = Url::new("http://".to_string());
    assert!(parsed.parse().is_ok());
    assert_eq!(parsed.host(), "");
    assert_eq!(parsed.port(), "80");
    assert_eq!(parsed.path(), "");
    assert_eq!(parsed.searchpart(), "");
}

#[test]
fn test_only_one_leading_marker_is_stripped() {
    // The strip removes a single leading marker; a second one stays in
    // the text and is split like any other characters.
    let mut parsed = Url::new("http://http://x".to_string());
    assert!(parsed.parse().is_ok());
    assert_eq!(parsed.host(), "http");
    assert_eq!(parsed.port(), "");
    assert_eq!(parsed.path(), "/x");
    assert_eq!(parsed.searchpart(), "");
}

#[test]
fn test_non_ascii_host() {
    let mut parsed = Url::new("http://ドメイン名:8080/パス?キー=値".to_string());
    assert!(parsed.parse().is_ok());
    assert_eq!(parsed.host(), "ドメイン名");
    assert_eq!(parsed.port(), "8080");
    assert_eq!(parsed.path(), "パス");
    assert_eq!(parsed.searchpart(), "キー=値");
}
