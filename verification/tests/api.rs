use fm350d::api::bind_addr;
use fm350d::api::http::{hexval, percent_decode, query, Query};
use fm350d::config::Config;

#[test]
fn query_parses_and_decodes() {
    let m = query("/api/at?cmd=AT%2BCSQ&x=1&empty=");
    assert_eq!(m.get("cmd").map(|s| s.as_str()), Some("AT+CSQ"));
    assert_eq!(m.get("x").map(|s| s.as_str()), Some("1"));
    assert!(!m.contains_key("empty") || m.get("empty").unwrap().is_empty());
}

#[test]
fn query_without_question_mark_is_empty() {
    assert!(query("/api/status").is_empty());
}

#[test]
fn percent_decode_handles_plus_and_invalid_escapes() {
    assert_eq!(percent_decode("A+B"), "A B");
    assert_eq!(percent_decode("AT%2BCSQ"), "AT+CSQ");
    assert_eq!(percent_decode("%ZZ"), "%ZZ");
}

#[test]
fn hexval_covers_both_cases() {
    assert_eq!(hexval(b'9'), Some(9));
    assert_eq!(hexval(b'a'), Some(10));
    assert_eq!(hexval(b'F'), Some(15));
    assert_eq!(hexval(b'g'), None);
}

#[test]
fn bind_addr_is_loopback_only() {
    let mut c = Config::default();
    c.api_port = 9090;
    assert_eq!(bind_addr(&c), "127.0.0.1:9090");
}

#[test]
fn bind_addr_never_exposes_lan() {
    let mut c = Config::default();
    c.api_port = 1;
    let a = bind_addr(&c);
    assert!(a.starts_with("127.0.0.1:"), "got {}", a);
}

#[test]
fn percent_decode_multibyte_utf8() {
    assert_eq!(percent_decode("%E4%B8%AD"), "中");
    // A lone high byte is not valid UTF-8 and is replaced.
    assert_eq!(percent_decode("%FF"), "\u{FFFD}");
    assert_eq!(percent_decode("%4"), "%4");
}

#[test]
fn query_later_key_overrides_earlier() {
    let m = query("/x?a=1&a=2&b");
    assert_eq!(m.get("a").map(|s| s.as_str()), Some("2"));
    assert!(m.contains_key("b"));
    assert_eq!(m.get("b").map(|s| s.as_str()), Some(""));
    assert!(!m.contains_key("c"));
}

#[test]
fn query_insert_replaces_value() {
    let mut q = Query { entries: Vec::new() };
    assert!(q.is_empty());
    q.insert("k".to_string(), "v1".to_string());
    q.insert("k".to_string(), "v2".to_string());
    assert_eq!(q.entries.len(), 1);
    assert_eq!(q.get("k").map(|s| s.as_str()), Some("v2"));
}
