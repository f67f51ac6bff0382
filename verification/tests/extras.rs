use fm350d::at::port::{answered_at, port_candidate};
use fm350d::config::{save_plan, Config, SaveValue};
use fm350d::modem::temp::{temp_summary, TempSummary};
use fm350d::net::gateway::{gateway_writeback_cmd, onlink_fallback_cmds};
use fm350d::net::heal::{addresses_landed, dial_addresses_present, landing_timeout_message};
use fm350d::net::iface::NetStatus;
use fm350d::net::probe::{detect_dev, ping_commands, NetIface};

fn iface(name: &str, driver: &str, vid: Option<&str>) -> NetIface {
    NetIface { name: name.to_string(), driver: driver.to_string(), vid: vid.map(|v| v.to_string()) }
}

#[test]
fn detect_dev_prefers_configured_then_fibocom_then_least_name() {
    let mut cfg = Config::default();
    let ifs = vec![
        iface("usb1", "cdc_ether", Some("1d6b")),
        iface("eth9", "rndis_host", Some("2cb7")),
        iface("eth3", "cdc_ncm", Some("2cb7")),
        iface("eth0", "mtk_soc_eth", None),
    ];
    assert_eq!(detect_dev(&cfg, &ifs, &vec![]).as_deref(), Some("eth3"));
    let others = vec![iface("usb1", "cdc_ether", None), iface("usb0", "cdc_ether", None)];
    assert_eq!(detect_dev(&cfg, &others, &vec![]).as_deref(), Some("usb0"));
    assert_eq!(detect_dev(&cfg, &vec![], &vec![false, true, true]).as_deref(), Some("eth3"));
    assert_eq!(detect_dev(&cfg, &vec![], &vec![false, false, false, false]), None);
    cfg.data_dev = "wwan0".to_string();
    assert_eq!(detect_dev(&cfg, &ifs, &vec![]).as_deref(), Some("wwan0"));
}

#[test]
fn ping_falls_back_to_ping6_for_v6_targets() {
    assert_eq!(
        ping_commands("eth2", "223.5.5.5", 3),
        vec!["ping -c 1 -W 3 -I eth2 223.5.5.5 >/dev/null 2>&1".to_string()]
    );
    assert_eq!(
        ping_commands("eth2", "2400:3200::1", 3),
        vec![
            "ping -c 1 -W 3 -I eth2 2400:3200::1 >/dev/null 2>&1".to_string(),
            "ping6 -c 1 -W 3 -I eth2 2400:3200::1 >/dev/null 2>&1".to_string(),
        ]
    );
}

#[test]
fn save_plan_converts_and_stops_on_relative_port() {
    let fs = vec![
        ("ipv6".to_string(), SaveValue::Bool(false)),
        ("metric".to_string(), SaveValue::Text("40".to_string())),
        ("x".to_string(), SaveValue::Other),
        ("at_port".to_string(), SaveValue::Text("ttyUSB1".to_string())),
        ("apn".to_string(), SaveValue::Text("3gnet".to_string())),
    ];
    let (sets, err) = save_plan(&fs);
    assert_eq!(sets, vec![("ipv6".to_string(), "0".to_string()), ("metric".to_string(), "40".to_string())]);
    assert_eq!(err.as_deref(), Some("AT 端口必须是绝对路径（如 /dev/ttyUSB1），当前为『ttyUSB1』"));
    let ok = vec![("at_port".to_string(), SaveValue::Text("/dev/ttyUSB2".to_string()))];
    let (sets, err) = save_plan(&ok);
    assert_eq!(sets, vec![("at_port".to_string(), "/dev/ttyUSB2".to_string())]);
    assert!(err.is_none());
}

#[test]
fn temp_summary_picks_sensors_and_peak() {
    assert_eq!(temp_summary(&vec![]), None);
    let s = temp_summary(&vec![(1, 47200), (10, 45485), (3, 49000)]).unwrap();
    assert_eq!(s, TempSummary { modem: Some(45485), soc_max: Some(47200), peak: Some(49000) });
    let t = temp_summary(&vec![(2, 30000)]).unwrap();
    assert_eq!(t.modem, None);
    assert_eq!(t.peak, Some(30000));
}

#[test]
fn port_candidate_marks_current_and_probe() {
    let cfg = Config::default();
    let p = port_candidate(&cfg, "ttyUSB1", "option", "2cb7", "0a05", "", "", Some(Err("busy".to_string())));
    assert_eq!(p.path, "/dev/ttyUSB1");
    assert!(p.current);
    assert!(p.likely_fm350);
    assert_eq!(p.busy, Some(true));
    assert_eq!(p.note, "无法打开：busy（当前配置端口）");
    let q = port_candidate(&cfg, "ttyUSB3", "option", "1a86", "", "", "", None);
    assert!(!q.current && !q.likely_fm350);
    assert_eq!(q.busy, None);
    assert_eq!(q.note, "");
    let r = port_candidate(&cfg, "ttyUSB3", "", "", "", "", "", Some(Ok(())));
    assert_eq!(r.busy, Some(false));
    assert_eq!(r.note, "空闲，可独占打开");
}

#[test]
fn at_probe_answer_detection() {
    assert!(answered_at("\r\nOK\r\n"));
    assert!(answered_at("+CME ERROR: 3"));
    assert!(!answered_at("garbage"));
}

#[test]
fn onlink_fallback_command_list() {
    let cfg = Config::default();
    let c = onlink_fallback_cmds(&cfg, "eth2");
    assert_eq!(c.len(), 13);
    assert_eq!(c[0], "uci -q delete network.fm350.gateway 2>/dev/null || true");
    assert_eq!(c[1], "uci -q delete network.fm350_gw4 2>/dev/null || true");
    assert_eq!(c[4], "uci -q set network.fm350_def.interface=fm350");
    assert_eq!(c[7], "uci -q set network.fm350_def.metric=30");
    assert_eq!(c[12], "ip route replace default dev eth2 metric 30");
    assert_eq!(gateway_writeback_cmd("10.0.0.1"), "uci -q set fm350.main.gateway=10.0.0.1; uci -q commit fm350");
}

fn status_with(v4: &[&str], v6: &[&str]) -> NetStatus {
    NetStatus {
        iface: "fm350".to_string(),
        iface_v6: "fm350v6".to_string(),
        dev: Some("eth2".to_string()),
        ipv4: v4.iter().map(|s| s.to_string()).collect(),
        ipv6: v6.iter().map(|s| s.to_string()).collect(),
        ..Default::default()
    }
}

#[test]
fn landing_checks_only_what_the_mode_fixes() {
    let mut cfg = Config::default();
    let st = status_with(&["10.1.2.3"], &["2409::9"]);
    assert!(addresses_landed(&cfg, "10.1.2.3", "2409::8", &st));
    assert!(!addresses_landed(&cfg, "10.1.2.4", "", &st));
    cfg.v6_mode = "static".to_string();
    assert!(!addresses_landed(&cfg, "10.1.2.3", "2409::8", &st));
    assert!(addresses_landed(&cfg, "", "2409::9", &st));
    let m = landing_timeout_message(&cfg, "10.1.2.4", "", &st);
    assert_eq!(
        m,
        "接口 fm350 未在 3 s 内取得期望地址（v4 期望 \"10.1.2.4\"，实际 [\"10.1.2.3\"]；v6 期望 \"\"，实际 [\"2409::9\"]；网卡 eth2）"
    );
    assert!(dial_addresses_present("", "").is_err());
    assert!(dial_addresses_present("10.1.2.3", "").is_ok());
}
