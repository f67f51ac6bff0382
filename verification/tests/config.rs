use fm350d::config::{invalidate_cache, load, load_cached, Config, ConfigCache, CACHE_TTL_MS};

#[test]
fn numeric_and_bool_parsers_fall_back_safely() {
    assert_eq!("abc".parse::<u32>().ok(), None);
    assert_eq!("42".parse::<u32>().ok(), Some(42));
    assert_eq!(("1" == "1"), true);
    let found = vec![
        ("metric".to_string(), "abc".to_string()),
        ("cid".to_string(), "42".to_string()),
        ("ipv6".to_string(), "yes".to_string()),
        ("imei_write".to_string(), "1".to_string()),
    ];
    let c = load(&found);
    assert_eq!(c.metric, 30);
    assert_eq!(c.cid, 42);
    assert!(!c.ipv6);
    assert!(c.imei_write);
}

#[test]
fn load_of_nothing_yields_all_defaults() {
    let c = load(&Vec::new());
    let d = Config::default();
    assert_eq!(c.at_port, d.at_port);
    assert_eq!(c.apn, d.apn);
    assert_eq!(c.cid, d.cid);
    assert_eq!(c.metric, d.metric);
    assert_eq!(c.v6_mode, d.v6_mode);
    assert!(c.ipv6 && c.auto_dial && c.route_guard);
    assert!(!c.imei_write);
}

#[test]
fn load_partial_keeps_defaults_for_the_rest() {
    let found = vec![
        ("apn".to_string(), "3gnet".to_string()),
        ("cid".to_string(), " 3 ".to_string()),
        ("iface".to_string(), "  ".to_string()),
    ];
    let c = load(&found);
    assert_eq!(c.apn, "3gnet");
    assert_eq!(c.cid, 3);
    assert_eq!(c.iface, "fm350");
    assert_eq!(c.metric, 30);
}

#[test]
fn load_rejects_out_of_range_port() {
    let found = vec![("api_port".to_string(), "70000".to_string())];
    assert_eq!(load(&found).api_port, 8766);
}

#[test]
fn cache_serves_only_within_ttl() {
    let mut cache = ConfigCache::new();
    assert!(load_cached(&cache, 0).is_none());
    let mut c = Config::default();
    c.apn = "x".to_string();
    cache.store(1000, c);
    assert_eq!(load_cached(&cache, 1000).unwrap().apn, "x");
    assert_eq!(load_cached(&cache, 1000 + CACHE_TTL_MS - 1).unwrap().apn, "x");
    assert!(load_cached(&cache, 1000 + CACHE_TTL_MS).is_none());
    assert!(load_cached(&cache, 999).is_none());
    invalidate_cache(&mut cache);
    assert!(load_cached(&cache, 1000).is_none());
}
