use fm350d::api::http::Query;
use fm350d::api::route::{arg_i64, arg_list, arg_str, arg_u64, dial_failure_text, route, ApiRequest, Body, BodyField};
use fm350d::config::Config;
use fm350d::modem::bind::parse;

fn field(key: &str) -> BodyField {
    BodyField { key: key.to_string(), text: None, uint: None, int: None, list: None, is_true: false }
}

fn text_field(key: &str, v: &str) -> BodyField {
    BodyField { text: Some(v.to_string()), ..field(key) }
}

fn num_field(key: &str, v: u64) -> BodyField {
    BodyField { uint: Some(v), int: Some(v as i64), ..field(key) }
}

fn body(fields: Vec<BodyField>) -> Body {
    Body { fields }
}

fn empty_q() -> Query {
    Query { entries: Vec::new() }
}

fn query(pairs: &[(&str, &str)]) -> Query {
    let mut q = empty_q();
    for (k, v) in pairs {
        q.insert(k.to_string(), v.to_string());
    }
    q
}

#[test]
fn arg_str_prefers_body_over_query() {
    let p = body(vec![text_field("cmd", "AT+CSQ")]);
    let q = query(&[("cmd", "AT+CEREG?")]);
    assert_eq!(arg_str(&p, &q, "cmd"), Some("AT+CSQ".to_string()));
}

#[test]
fn arg_str_treats_empty_as_absent() {
    let p = body(vec![text_field("cmd", "")]);
    let q = query(&[("cmd", "AT+CSQ")]);
    assert_eq!(arg_str(&p, &q, "cmd"), Some("AT+CSQ".to_string()));
    assert_eq!(arg_str(&body(vec![]), &query(&[("cmd", "")]), "cmd"), None);
}

#[test]
fn arg_u64_reads_both_sources() {
    let p = body(vec![num_field("slot", 1)]);
    assert_eq!(arg_u64(&p, &empty_q(), "slot"), Some(1));
    let q = query(&[("mode", "0")]);
    assert_eq!(arg_u64(&body(vec![]), &q, "mode"), Some(0));
    assert_eq!(arg_u64(&body(vec![]), &empty_q(), "mode"), None);
    assert_eq!(arg_u64(&body(vec![]), &query(&[("mode", "x")]), "mode"), None);
}

#[test]
fn arg_i64_reads_negative_query_values() {
    assert_eq!(arg_i64(&body(vec![]), &query(&[("index", "-3")]), "index"), Some(-3));
    let p = BodyField { int: Some(-7), ..field("index") };
    assert_eq!(arg_i64(&body(vec![p]), &empty_q(), "index"), Some(-7));
}

#[test]
fn arg_list_splits_query_by_comma() {
    let q = query(&[("args", "20,6,3")]);
    assert_eq!(arg_list(&body(vec![]), &q, "args"), vec!["20", "6", "3"]);
    let l = BodyField {
        list: Some(vec![(true, "14".to_string()), (false, "2".to_string())]),
        ..field("args")
    };
    assert_eq!(arg_list(&body(vec![l]), &q, "args"), vec!["14", "2"]);
    assert!(arg_list(&body(vec![]), &empty_q(), "args").is_empty());
}

#[test]
fn unknown_path_is_rejected() {
    let cfg = Config::default();
    match route(false, "/api/nope", &cfg, &body(vec![]), &empty_q()) {
        ApiRequest::Refused { error } => assert!(error.contains("未知路径")),
        other => panic!("unexpected {:?}", other),
    }
}

#[test]
fn at_passthrough_blocks_imei_write() {
    let cfg = Config::default();
    let p = body(vec![text_field("cmd", "AT+EGMREXT=1,7,\"123456789012345\"")]);
    match route(true, "/api/at", &cfg, &p, &empty_q()) {
        ApiRequest::Refused { error } => assert!(error.contains("IMEI")),
        other => panic!("an IMEI write must be refused, got {:?}", other),
    }
}

#[test]
fn at_passthrough_requires_cmd() {
    let cfg = Config::default();
    match route(true, "/api/at", &cfg, &body(vec![]), &empty_q()) {
        ApiRequest::Refused { error } => assert_eq!(error, "缺少 cmd"),
        other => panic!("unexpected {:?}", other),
    }
    match route(true, "/api/at", &cfg, &body(vec![text_field("cmd", "AT+CSQ")]), &empty_q()) {
        ApiRequest::At { cmd } => assert_eq!(cmd, "AT+CSQ"),
        other => panic!("unexpected {:?}", other),
    }
}

#[test]
fn route_defaults_and_overrides() {
    let cfg = Config::default();
    match route(false, "/api/ports", &cfg, &body(vec![]), &query(&[("probe", "0")])) {
        ApiRequest::Ports { probe } => assert!(!probe),
        other => panic!("unexpected {:?}", other),
    }
    match route(true, "/api/ports", &cfg, &body(vec![]), &query(&[("probe", "0")])) {
        ApiRequest::Ports { probe } => assert!(probe),
        other => panic!("unexpected {:?}", other),
    }
    match route(true, "/api/usbmode", &cfg, &body(vec![]), &empty_q()) {
        ApiRequest::UsbMode { mode } => assert_eq!(mode, 40),
        other => panic!("unexpected {:?}", other),
    }
    match route(true, "/api/sms/storage", &cfg, &body(vec![]), &empty_q()) {
        ApiRequest::SmsStorageSet { mem } => assert_eq!(mem, "SM"),
        other => panic!("unexpected {:?}", other),
    }
    match route(true, "/api/sms/delete", &cfg, &body(vec![]), &empty_q()) {
        ApiRequest::Refused { error } => assert_eq!(error, "缺少 index"),
        other => panic!("unexpected {:?}", other),
    }
    match route(true, "/api/sms/send", &cfg, &body(vec![text_field("text", "hi")]), &empty_q()) {
        ApiRequest::Refused { error } => assert_eq!(error, "缺少收件人号码"),
        other => panic!("unexpected {:?}", other),
    }
    match route(true, "/api/dial", &cfg, &body(vec![text_field("apn", "3gnet")]), &empty_q()) {
        ApiRequest::Dial { apn, pdp_type, save } => {
            assert_eq!(apn, "3gnet");
            assert_eq!(pdp_type, cfg.pdp_type);
            assert!(save);
        }
        other => panic!("unexpected {:?}", other),
    }
    match route(true, "/api/dial", &cfg, &body(vec![text_field("apn", "")]), &empty_q()) {
        ApiRequest::Dial { apn, save, .. } => {
            assert_eq!(apn, cfg.apn);
            assert!(!save);
        }
        other => panic!("unexpected {:?}", other),
    }
    let confirm = BodyField { is_true: true, ..field("confirm") };
    match route(true, "/api/imei", &cfg, &body(vec![text_field("value", "490154203237518"), confirm]), &empty_q()) {
        ApiRequest::ImeiWrite { value, confirm } => {
            assert_eq!(value, "490154203237518");
            assert!(confirm);
        }
        other => panic!("unexpected {:?}", other),
    }
    let order = BodyField {
        list: Some(vec![(true, "NR".to_string()), (false, "7".to_string()), (true, "LTE".to_string())]),
        ..field("order")
    };
    match route(true, "/api/rat", &cfg, &body(vec![order]), &empty_q()) {
        ApiRequest::RatSet { order } => assert_eq!(order, vec!["NR", "LTE"]),
        other => panic!("unexpected {:?}", other),
    }
}

#[test]
fn dial_failure_names_the_binding() {
    let ccmni = parse("+EMBIND: 1,\"M-CCMNI\",1\r\nOK\r\n");
    assert_eq!(dial_failure_text("激活失败", Some(&ccmni)), "激活失败；数据通道体检：ccmni-only");
    let host = parse("+EMBIND: 1,\"M-RNDIS\",1\r\nOK\r\n");
    assert_eq!(dial_failure_text("激活失败", Some(&host)), "激活失败");
    assert_eq!(dial_failure_text("激活失败", None), "激活失败");
}
