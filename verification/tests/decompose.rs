use url_decomposer::url::{decompose, Url};

#[test]
fn full_url_decomposition() {
    let url = decompose(
        "https://abc.example.com:443/path/:wildcard/index.html?foo=bar&biz=fiz#fragment",
    );
    assert_eq!(url.protocol, "https");
    assert_eq!(url.sub_domain, vec!["abc".to_string()]);
    assert_eq!(url.domain, "example");
    assert_eq!(url.top_level_domain, "com");
    assert_eq!(url.port, "443");
    assert_eq!(
        url.path,
        vec!["path".to_string(), ":wildcard".to_string(), "index.html".to_string()]
    );
    assert_eq!(
        url.query,
        vec![
            ("foo".to_string(), "bar".to_string()),
            ("biz".to_string(), "fiz".to_string())
        ]
    );
    assert_eq!(url.fragment, "fragment");
}

#[test]
fn no_delimiters_stays_default() {
    let url = decompose("example");
    assert_eq!(url, Url::new());
}

#[test]
fn bare_two_label_host() {
    let url = decompose("example.com");
    assert_eq!(url.protocol, "");
    assert_eq!(url.domain, "example");
    assert_eq!(url.top_level_domain, "com");
    assert!(url.sub_domain.is_empty());
    assert!(url.path.is_empty());
    assert!(url.query.is_empty());
    assert_eq!(url.fragment, "");
}

#[test]
fn consecutive_slashes_empty_segment() {
    let url = decompose("http://a.com:1//x/");
    assert_eq!(url.port, "1");
    assert_eq!(url.path, vec!["".to_string(), "x".to_string()]);
}

#[test]
fn slash_in_domain_phase_joins_tld() {
    let url = decompose("http://a.com//x");
    assert_eq!(url.protocol, "http");
    assert_eq!(url.domain, "a");
    assert_eq!(url.top_level_domain, "com//x");
    assert!(url.path.is_empty());
}

#[test]
fn query_token_without_eq() {
    let url = decompose("http://a.com:1?flag");
    assert_eq!(url.query, vec![("flag".to_string(), "".to_string())]);
}

#[test]
fn no_scheme_matches_scheme_case() {
    let bare = decompose("a.b.com/p");
    assert_eq!(bare.protocol, "");
    assert_eq!(bare.sub_domain, vec!["a".to_string()]);
    assert_eq!(bare.domain, "b");
    assert_eq!(bare.top_level_domain, "com/p");
    let with_scheme = decompose("x://a.b.com/p");
    assert_eq!(with_scheme.protocol, "x");
    assert_eq!(bare.sub_domain, with_scheme.sub_domain);
    assert_eq!(bare.domain, with_scheme.domain);
    assert_eq!(bare.top_level_domain, with_scheme.top_level_domain);
    assert_eq!(bare.port, with_scheme.port);
    assert_eq!(bare.path, with_scheme.path);
    assert_eq!(bare.query, with_scheme.query);
    assert_eq!(bare.fragment, with_scheme.fragment);
}

#[test]
fn empty_input_all_default() {
    let url = decompose("");
    assert_eq!(url, Url::new());
}

#[test]
fn repeated_decomposition_identical() {
    let raw = "https://abc.example.com:443/path?a=1#f";
    assert_eq!(decompose(raw), decompose(raw));
}

#[test]
fn duplicate_key_last_wins() {
    let url = decompose("http://a.com:1?k=1&k=2");
    assert_eq!(url.query, vec![("k".to_string(), "2".to_string())]);
}

#[test]
fn later_equals_kept_in_value() {
    let url = decompose("http://a.com:1?a=b=c");
    assert_eq!(url.query, vec![("a".to_string(), "b=c".to_string())]);
}

#[test]
fn earlier_labels_rotate_into_sub_domains() {
    let url = decompose("w.x.y.z.com:8/");
    assert_eq!(
        url.sub_domain,
        vec!["w".to_string(), "x".to_string(), "y".to_string()]
    );
    assert_eq!(url.domain, "z");
    assert_eq!(url.top_level_domain, "com");
    assert_eq!(url.port, "8");
    assert!(url.path.is_empty());
}

#[test]
fn port_flushed_at_end_of_input() {
    let url = decompose("http://a.com:8080");
    assert_eq!(url.port, "8080");
    assert_eq!(url.top_level_domain, "com");
}

#[test]
fn fragment_after_port() {
    let url = decompose("http://a.com:1#frag");
    assert_eq!(url.port, "1");
    assert_eq!(url.fragment, "frag");
    assert!(url.path.is_empty());
    assert!(url.query.is_empty());
}

#[test]
fn empty_query_token_recorded() {
    let url = decompose("http://a.com:1?&");
    assert_eq!(url.query, vec![("".to_string(), "".to_string())]);
}

#[test]
fn scheme_separator_at_end() {
    let url = decompose("x://");
    assert_eq!(url.protocol, "x");
    assert_eq!(url.domain, "");
    assert_eq!(url.top_level_domain, "");
}

#[test]
fn new_record_is_all_default() {
    let url = Url::new();
    assert_eq!(url.protocol, "");
    assert!(url.sub_domain.is_empty());
    assert_eq!(url.domain, "");
    assert_eq!(url.top_level_domain, "");
    assert_eq!(url.port, "");
    assert!(url.path.is_empty());
    assert!(url.query.is_empty());
    assert_eq!(url.fragment, "");
}

#[test]
fn from_raw_fills_existing_record() {
    let mut url = Url::new();
    url.from_raw("http://a.com:1/p");
    assert_eq!(url.protocol, "http");
    assert_eq!(url.domain, "a");
    assert_eq!(url.top_level_domain, "com");
    assert_eq!(url.port, "1");
    assert!(url.path.is_empty());
}

#[test]
fn assign_value_moves_and_clears() {
    let mut field = String::new();
    let mut accumulator = "https".to_string();
    Url::assign_value(&mut field, &mut accumulator);
    assert_eq!(field, "https");
    assert_eq!(accumulator, "");
}

#[test]
fn assign_vector_value_appends_and_clears() {
    let mut fields = vec!["a".to_string()];
    let mut accumulator = "b".to_string();
    Url::assign_vector_value(&mut fields, &mut accumulator);
    assert_eq!(fields, vec!["a".to_string(), "b".to_string()]);
    assert_eq!(accumulator, "");
}

#[test]
fn assign_query_values_splits_on_first_eq() {
    let mut url = Url::new();
    let mut accumulator = "a=b".to_string();
    url.assign_query_values(&mut accumulator);
    assert_eq!(url.query, vec![("a".to_string(), "b".to_string())]);
    assert_eq!(accumulator, "");
}
