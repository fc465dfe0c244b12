use l7_flood::header::{parse_header, HeadersConfig, HeadersPair, HeadersParseError};

fn pair(k: &str, v: &str) -> HeadersPair {
    HeadersPair { key: k.to_string(), value: v.to_string() }
}

#[test]
fn header_pair_is_split_and_trimmed() {
    let p = HeadersPair::from_str("  Accept :  application/json ").unwrap();
    assert_eq!(p.key, "Accept");
    assert_eq!(p.value, "application/json");
}

#[test]
fn header_pair_splits_at_first_colon() {
    let p = HeadersPair::from_str("Referer: https://a.b:8080/").unwrap();
    assert_eq!(p.key, "Referer");
    assert_eq!(p.value, "https://a.b:8080/");
}

#[test]
fn header_pair_without_colon_is_refused() {
    match HeadersPair::from_str("no colon here") {
        Err(HeadersParseError::InvalidFormat(l)) => assert_eq!(l, "no colon here"),
        Ok(_) => panic!("expected an error"),
    }
}

#[test]
fn headers_config_special_fields() {
    let c = HeadersConfig::from(vec![
        pair("User-Agent", "bench/1.0"),
        pair("Accept-Encoding", "gzip, br"),
        pair("COOKIE", "a=1; b=2"),
        pair("X-Trace", "abc"),
        pair("bad name", "x"),
        pair("X-Bad-Value", "a\u{7f}b"),
    ]);
    assert_eq!(c.user_agent.as_deref(), Some("bench/1.0"));
    assert!(c.gzip);
    assert!(!c.deflate);
    assert_eq!(c.cookie.as_deref(), Some("a=1; b=2"));
    assert_eq!(c.other_headers.len(), 1);
    assert_eq!(c.other_headers[0].key, "x-trace");
    assert_eq!(c.other_headers[0].value, "abc");
}

#[test]
fn headers_config_later_encoding_wins() {
    let c = HeadersConfig::from(vec![pair("accept-encoding", "gzip"), pair("accept-encoding", "deflate")]);
    assert!(!c.gzip);
    assert!(c.deflate);
}

#[test]
fn headers_config_empty() {
    let c = HeadersConfig::from(vec![]);
    assert!(c.user_agent.is_none() && c.cookie.is_none() && !c.gzip && !c.deflate);
    assert!(c.other_headers.is_empty());
}

#[test]
fn parse_header_lines() {
    let (other, special) = parse_header(vec![
        "Accept: text/html".to_string(),
        "user-agent: x".to_string(),
    ])
    .unwrap();
    assert_eq!(other.len(), 1);
    assert_eq!(other[0].key, "accept");
    assert_eq!(special.user_agent.as_deref(), Some("x"));
}

#[test]
fn parse_header_refuses_bad_line() {
    match parse_header(vec!["Accept: a".to_string(), "broken".to_string()]) {
        Err(HeadersParseError::InvalidFormat(l)) => assert_eq!(l, "broken"),
        Ok(_) => panic!("expected an error"),
    }
}

#[test]
fn later_residual_header_replaces_earlier() {
    let c = HeadersConfig::from(vec![pair("X-A", "1"), pair("X-B", "2"), pair("x-a", "3")]);
    assert_eq!(c.other_headers.len(), 2);
    assert_eq!(c.other_headers[0].key, "x-a");
    assert_eq!(c.other_headers[0].value, "3");
    assert_eq!(c.other_headers[1].key, "x-b");
}
