use fm350d::at::cmd::{
    activate, auth_code, contrdp, deactivate, gtdns, pdp_addr, set_apn, set_auth, set_eprartl,
    set_sms_center, GTSENRDTEMP_ALL,
};
use fm350d::at::guard::{is_imei_write, IMEI_READ_CMD};
use fm350d::at::parse::{field, first, first_ipv4, has_error, is_ok, is_result_code, rows, scalar};
use fm350d::at::port::{is_candidate_tty, looks_like_fm350, sort_ports, PortCandidate};
use fm350d::at::session::{
    finished, friendly_open_err, next_silent_streak, normalize, other_openers, LOCK_WAIT_SECS,
    SILENT_RESELECT_THRESHOLD,
};
use fm350d::at::urc::{capture_line, parse_line, snapshot, take_events, GtEvent, LineGate, UrcFeed};

fn check_read_only_forms(extra: &[&str]) {
    let mut all = vec![
        "AT+EGMREXT=0,7",
        "at+egmrext=0,7",
        "AT+EGMR=0,7",
        "AT+CGSN",
        "AT+CGSN?",
        "AT+EGMR?",
        "AT+EGMREXT?",
        " AT+EGMREXT=0,7 \r\n",
    ];
    all.extend_from_slice(extra);
    for c in all {
        assert!(!is_imei_write(c), "read-only form blocked: {}", c);
    }
}

fn check_write_forms() {
    for c in [
        "AT+EGMREXT=1,7,\"861234567890123\"",
        "AT+EGMR=1,7,\"861234567890123\"",
        "AT+EGMREXT=1,7",
        "AT+SIMEI=861234567890123",
        "AT+SIMEI=\"861234567890123\"",
        "AT+CGSN=861234567890123",
        "at+egmrext=1,7,\"x\"",
        "AT+EGMR=2,7,\"x\"",
    ] {
        assert!(is_imei_write(c), "write form passed: {}", c);
    }
}

#[test]
fn at_read_only_forms_are_allowed() {
    check_read_only_forms(&[]);
}

#[test]
fn at_write_forms_are_blocked() {
    check_write_forms();
}

#[test]
fn at_unrelated_commands_pass() {
    for c in ["AT+CSQ", "AT+CGDCONT=1,\"IPV4V6\",\"cmiot5g\"", "AT+CFUN=1,1"] {
        assert!(!is_imei_write(c), "ordinary command blocked: {}", c);
    }
}

#[test]
fn guard_read_only_forms_are_allowed() {
    check_read_only_forms(&[IMEI_READ_CMD]);
}

#[test]
fn guard_write_forms_are_blocked() {
    check_write_forms();
}

#[test]
fn guard_unrelated_commands_pass() {
    for c in [
        "AT+CSQ",
        "AT+CGDCONT=1,\"IPV4V6\",\"cmiot5g\"",
        "AT+CFUN=1,1",
        "AT+GTUSBMODE=40",
    ] {
        assert!(!is_imei_write(c), "ordinary command blocked: {}", c);
    }
}

fn check_candidates() {
    for ok in ["ttyUSB0", "ttyUSB1", "ttyACM0", "ttyUSB1.2"] {
        assert!(is_candidate_tty(ok), "should be a candidate: {}", ok);
    }
    for no in ["ttyS0", "ttyAMA0", "ttyUSB", "ttyUSBa", "sda", "tty"] {
        assert!(!is_candidate_tty(no), "should not be a candidate: {}", no);
    }
}

#[test]
fn at_candidate_prefix_filter() {
    check_candidates();
}

#[test]
fn port_candidate_prefix_filter() {
    check_candidates();
}

#[test]
fn at_fm350_descriptor_detection() {
    assert!(looks_like_fm350("2cb7", "", ""));
    assert!(looks_like_fm350("2CB7", "", ""));
    assert!(looks_like_fm350("", "Fibocom Wireless Inc.", ""));
    assert!(looks_like_fm350("", "", "FM350-GL"));
    assert!(!looks_like_fm350("1a86", "QinHeng Electronics", "CH340"));
    assert!(!looks_like_fm350("", "", ""));
}

#[test]
fn port_fm350_descriptor_detection() {
    assert!(looks_like_fm350("2cb7", "", ""));
    assert!(looks_like_fm350("2CB7", "", ""));
    assert!(looks_like_fm350("", "Fibocom Wireless Inc.", ""));
    assert!(looks_like_fm350("", "", "FM350-GL"));
    assert!(!looks_like_fm350("0e8d", "MediaTek", ""));
    assert!(!looks_like_fm350("1a86", "QinHeng Electronics", "CH340"));
    assert!(!looks_like_fm350("", "", ""));
}

fn candidate(name: &str, current: bool, fm: bool) -> PortCandidate {
    PortCandidate {
        path: format!("/dev/{}", name),
        name: name.to_string(),
        driver: String::new(),
        vid: String::new(),
        pid: String::new(),
        vendor: String::new(),
        product: String::new(),
        likely_fm350: fm,
        current,
        busy: None,
        note: String::new(),
    }
}

fn check_port_sort() {
    let mut v = vec![
        candidate("ttyUSB3", false, false),
        candidate("ttyUSB0", false, true),
        candidate("ttyUSB1", true, true),
        candidate("ttyUSB2", false, false),
    ];
    sort_ports(&mut v);
    assert_eq!(v[0].name, "ttyUSB1", "the current port comes first");
    assert_eq!(v[1].name, "ttyUSB0", "a likely FM350 comes second");
    assert_eq!(v[2].name, "ttyUSB2");
    assert_eq!(v[3].name, "ttyUSB3");
}

#[test]
fn at_port_sort_puts_current_and_fm350_first() {
    check_port_sort();
}

#[test]
fn port_port_sort_puts_current_and_fm350_first() {
    check_port_sort();
}

#[test]
fn port_sort_keeps_ties_in_order() {
    let mut a = candidate("ttyUSB1", false, false);
    a.note = "first".to_string();
    let mut b = candidate("ttyUSB1", false, false);
    b.note = "second".to_string();
    let mut v = vec![candidate("ttyUSB10", false, false), a, b, candidate("ttyACM0", false, false)];
    sort_ports(&mut v);
    let names: Vec<&str> = v.iter().map(|p| p.name.as_str()).collect();
    assert_eq!(names, vec!["ttyACM0", "ttyUSB1", "ttyUSB1", "ttyUSB10"]);
    assert_eq!(v[1].note, "first");
    assert_eq!(v[2].note, "second");
}

#[test]
fn open_error_is_translated() {
    let s = friendly_open_err("/dev/ttyUSB1", "Unable to acquire exclusive lock on serial port");
    assert!(s.contains("已被其他程序独占"), "exclusive lock not recognised: {}", s);
    assert!(s.contains("/dev/ttyUSB1"), "path missing: {}", s);
    assert!(friendly_open_err("/dev/ttyX", "Permission denied").contains("权限不足"));
    assert!(friendly_open_err("/dev/ttyX", "No such file or directory").contains("设备不存在"));
    assert!(friendly_open_err("/dev/ttyX", "weird failure").contains("weird failure"));
}

#[test]
fn open_errors_are_translated_to_chinese() {
    let s = friendly_open_err("/dev/ttyUSB1", "Unable to acquire exclusive lock on serial port");
    assert!(s.contains("已被其他程序独占"));
    assert!(s.contains("/dev/ttyUSB1"));
    assert!(friendly_open_err("/dev/ttyX", "Permission denied").contains("权限不足"));
    assert!(friendly_open_err("/dev/ttyX", "No such file or directory").contains("设备不存在"));
    assert!(friendly_open_err("/dev/ttyX", "weird failure").contains("weird failure"));
}

#[test]
fn other_openers_never_reports_self() {
    let scan = vec![
        (10u64, vec!["/dev/ttyUSB1".to_string()]),
        (20u64, vec!["/dev/null".to_string()]),
    ];
    assert!(other_openers("/dev/fm350-no-such-port-xyz", 20, &scan).is_empty());
}

#[test]
fn other_openers_lists_others_sorted_without_self() {
    let p = "/dev/ttyUSB1".to_string();
    let scan = vec![
        (30u64, vec![p.clone(), p.clone()]),
        (7u64, vec![p.clone()]),
        (99u64, vec![p.clone()]),
        (12u64, vec!["/dev/ttyUSB2".to_string()]),
        (7u64, vec![p.clone()]),
    ];
    assert_eq!(other_openers("/dev/ttyUSB1", 99, &scan), vec![7, 30]);
}

#[test]
fn auth_code_matches_27007() {
    assert_eq!(auth_code("none"), 0);
    assert_eq!(auth_code("pap"), 1);
    assert_eq!(auth_code("chap"), 2);
    assert_eq!(auth_code("both"), 3);
    assert_eq!(auth_code(""), 0);
    assert_eq!(auth_code("PAP"), 0);
}

#[test]
fn pdp_commands_are_well_formed() {
    assert_eq!(set_apn(1, "IPV4V6", "cmiot5g"), r#"AT+CGDCONT=1,"IPV4V6","cmiot5g""#);
    assert_eq!(set_auth(1, "none", "u", "p"), "AT+CGAUTH=1,0");
    assert_eq!(set_auth(1, "pap", "u", "p"), r#"AT+CGAUTH=1,1,"u","p""#);
    assert_eq!(activate(1), "AT+CGACT=1,1");
    assert_eq!(deactivate(1), "AT+CGACT=0,1");
    assert_eq!(contrdp(3), "AT+CGCONTRDP=3");
    assert_eq!(pdp_addr(3), "AT+CGPADDR=3");
    assert_eq!(gtdns(3), "AT+GTDNS=3");
}

#[test]
fn sms_center_normalizes_number_format() {
    assert_eq!(set_sms_center("+8613800100500"), r#"AT+CSCA="+8613800100500",145"#);
    assert_eq!(set_sms_center("8613800100500"), r#"AT+CSCA="+8613800100500",145"#);
    assert_eq!(set_sms_center("13800100500"), r#"AT+CSCA="13800100500",161"#);
}

#[test]
fn epratl_uses_its_own_rat_encoding() {
    assert_eq!(set_eprartl(&["128", "4"]), "AT+EPRATL=2,128,4");
}

#[test]
fn temperature_command_is_write_form() {
    assert_eq!(GTSENRDTEMP_ALL, "AT+GTSENRDTEMP=0");
}

#[test]
fn response_is_finished_only_on_result_code() {
    assert!(finished("+CSQ: 1,2\r\nOK\r\n"));
    assert!(finished("+CME ERROR: 100\r\n"));
    assert!(!finished("+CSQ: 1,2\r\n"));
    assert!(!finished(""));
}

#[test]
fn normalize_strips_echo_and_blank_lines() {
    let out = normalize("AT+CSQ\r+CSQ: 99,99\r\r\nOK\r\n", "AT+CSQ");
    assert_eq!(out, "+CSQ: 99,99\nOK");
}

#[test]
fn lock_wait_below_rpcd_read_budget() {
    assert!(LOCK_WAIT_SECS < 20);
}

#[test]
fn silent_threshold_is_small() {
    assert!(SILENT_RESELECT_THRESHOLD <= 5);
}

#[test]
fn silent_streak_counts_and_resets() {
    assert_eq!(next_silent_streak(0, 0), 1);
    assert_eq!(next_silent_streak(2, 0), 3);
    assert_eq!(next_silent_streak(2, 5), 0);
    assert_eq!(next_silent_streak(u32::MAX, 0), u32::MAX);
}

#[test]
fn rows_splits_multi_line_response() {
    let resp = "+CGDCONT: 1,\"IPV4V6\",\"cmiot5g\",\"\",0,0\n+CGDCONT: 2,\"IP\",\"3gnet\"\nOK";
    let all: Vec<Vec<String>> = rows(resp, "+CGDCONT");
    assert_eq!(all.len(), 2);
    assert_eq!(all[0][0], "1");
    assert_eq!(all[0][1], "IPV4V6");
    assert_eq!(all[0][2], "cmiot5g");
    assert_eq!(all[1][2], "3gnet");
}

#[test]
fn first_and_field_match_legacy_behaviour() {
    let resp = "+CSQ: 99,99\nOK";
    assert_eq!(first(resp, "+CSQ"), vec!["99".to_string(), "99".to_string()]);
    assert_eq!(field(resp, "+CSQ", 0).as_deref(), Some("99"));
    assert_eq!(field(resp, "+CSQ", 9), None);
    assert_eq!(field(resp, "+NOPE", 0), None);
}

#[test]
fn scalar_reads_prefixed_and_bare_values() {
    assert_eq!(scalar("+CGMI: Fibocom\nOK", "+CGMI").as_deref(), Some("Fibocom"));
    assert_eq!(scalar("FM350-GL\nOK", "+CGMM").as_deref(), Some("FM350-GL"));
    assert_eq!(scalar("+CME ERROR: phone failure", "+CGMR"), None);
}

#[test]
fn result_code_and_ok_detection() {
    assert!(is_ok("+CSQ: 1,2\nOK"));
    assert!(!is_ok("+CSQ: 1,2\nERROR"));
    assert!(is_result_code("+CME ERROR: phone failure"));
    assert!(has_error("+CME ERROR: 100"));
    assert!(!has_error("OK"));
}

#[test]
fn first_ipv4_filters_placeholder_addresses() {
    assert_eq!(first_ipv4("+CGPADDR: 1,\"10.1.2.3\"").as_deref(), Some("10.1.2.3"));
    assert_eq!(first_ipv4("+CGPADDR: 1,\"0.0.0.0\""), None);
    assert_eq!(first_ipv4("+CGPADDR: 1,\"255.255.255.255\""), None);
}

#[test]
fn parses_all_documented_forms() {
    assert_eq!(parse_line("+GTNORA: initial"), Some(GtEvent::Nora("initial")));
    assert_eq!(parse_line("+GTNORA: refresh"), Some(GtEvent::Nora("refresh")));
    assert_eq!(parse_line("+GTIFMTU: 1500"), Some(GtEvent::IfMtu(1500)));
    assert_eq!(parse_line("+GTIFST: cause=3"), Some(GtEvent::IfSt(3)));
    assert_eq!(
        parse_line("+GTIFADDR: ipadd,cause=0,v4cnt=1,v6cnt=2"),
        Some(GtEvent::IfAddr { reason: "ipadd".into(), cause: 0, v4cnt: 1, v6cnt: 2 })
    );
    assert_eq!(parse_line("+GTIFADDR4: 10.22.33.44"), Some(GtEvent::Addr4("10.22.33.44".into())));
    assert_eq!(parse_line("+GTIFADDR6: 2408:8207:1::5"), Some(GtEvent::Addr6("2408:8207:1::5".into())));
    assert_eq!(
        parse_line("+GTIFEVT: ho,cause=7"),
        Some(GtEvent::Evt { reason: "ho".into(), cause: 7 })
    );
}

#[test]
fn rejects_injected_or_malformed_lines() {
    assert_eq!(parse_line("+GTIFADDR4: 999.1.1.1"), None);
    assert_eq!(parse_line("+GTIFADDR4: 1.2.3"), None);
    assert_eq!(parse_line("+GTIFADDR4: a.b.c.d"), None);
    assert_eq!(parse_line("+GTIFADDR6: nocolon"), None);
    assert_eq!(parse_line("+GTIFADDR: BadVerb,cause=0,v4cnt=0,v6cnt=0"), None);
    assert_eq!(parse_line("+GTIFMTU: 15x0"), None);
    assert_eq!(parse_line("+CSQ: 99,99"), None);
    assert_eq!(parse_line("OK"), None);
}

#[test]
fn capture_line_swallows_gt_and_passes_normal_lines() {
    let mut feed = UrcFeed::new();
    assert!(capture_line(&mut feed, "+GTNORA: initial", 1));
    assert!(capture_line(&mut feed, "+GTRUBBISH", 1));
    assert!(!capture_line(&mut feed, "+CSQ: 99,99", 1));
    assert!(!capture_line(&mut feed, "OK", 1));
    assert_eq!(feed.malformed, 1);
    assert_eq!(take_events(&mut feed), vec![GtEvent::Nora("initial")]);
    assert!(take_events(&mut feed).is_empty());
}

#[test]
fn line_gate_handles_split_urc_across_reads() {
    let mut feed = UrcFeed::new();
    let mut g = LineGate::new();
    let mut out = Vec::new();
    g.feed(&mut feed, b"+CSQ: 99,99\r\n+GTIFAD", &mut out, 5);
    assert_eq!(String::from_utf8_lossy(&out), "+CSQ: 99,99\r\n");
    out.clear();
    g.feed(&mut feed, b"DR4: 1.2.3.4\r\nOK\r\n", &mut out, 6);
    let s = String::from_utf8_lossy(&out).to_string();
    assert_eq!(s, "OK\r\n");
    assert_eq!(snapshot(&feed).v4, vec!["1.2.3.4".to_string()]);
}

#[test]
fn line_gate_keeps_unterminated_residue() {
    let mut feed = UrcFeed::new();
    let mut g = LineGate::new();
    let mut out = Vec::new();
    g.feed(&mut feed, b"AT+CGACT?\r", &mut out, 1);
    assert!(out.is_empty());
    g.feed(&mut feed, b"\n+CGACT: 1,1\r\nOK\r\n", &mut out, 1);
    let s = String::from_utf8_lossy(&out).to_string();
    assert!(s.contains("+CGACT: 1,1"));
    assert!(s.contains("OK"));
}

#[test]
fn state_snapshot_tracks_events() {
    let mut feed = UrcFeed::new();
    let before = snapshot(&feed).events;
    assert!(capture_line(&mut feed, "+GTIFADDR4: 192.0.2.9", 1700000000));
    let after = snapshot(&feed);
    assert_eq!(after.events, before + 1);
    assert!(after.v4.contains(&"192.0.2.9".to_string()));
    assert_eq!(after.last_at, 1700000000);
}

#[test]
fn imei_write_chained_behind_another_command_is_blocked() {
    for c in [
        "AT+CSQ;+EGMREXT=1,7",
        "AT+CSQ;+EGMREXT=1,7,\"861234567890123\"",
        "at+csq; +egmr=1,7,\"x\"",
        "AT+EGMREXT=0,7;+SIMEI=861234567890123",
        "AT;+CGSN=861234567890123",
        "+EGMREXT=1,7",
    ] {
        assert!(is_imei_write(c), "chained write passed: {}", c);
    }
    for c in ["AT+CSQ;+CGSN", "AT+EGMREXT=0,7;+CSQ", "AT+CSQ;", "AT+CGDCONT=1,\"IP\",\"a;b\""] {
        assert!(!is_imei_write(c), "chained read blocked: {}", c);
    }
}

#[test]
fn more_urc_events_than_the_queue_holds_drop_the_oldest() {
    let mut feed = UrcFeed::new();
    for i in 0..70u64 {
        assert!(capture_line(&mut feed, &format!("+GTIFMTU: {}", 1000 + i), i));
    }
    let st = snapshot(&feed);
    assert_eq!(st.events, 70);
    assert_eq!(st.dropped, 6);
    let q = take_events(&mut feed);
    assert_eq!(q.len(), 64);
    assert_eq!(q[0], GtEvent::IfMtu(1006));
}

#[test]
fn line_gate_passes_only_whole_lines() {
    let mut feed = UrcFeed::new();
    let mut gate = LineGate::new();
    let mut out: Vec<u8> = Vec::new();
    gate.feed(&mut feed, b"OK\r\n+GTIFMTU: 1500\r\npart", &mut out, 1);
    assert_eq!(out, b"OK\r\n".to_vec());
    gate.feed(&mut feed, b"ial\r\n", &mut out, 2);
    assert_eq!(out, b"OK\r\npartial\r\n".to_vec());
}
