use fm350d::config::Config;
use fm350d::net::gateway::{config_sig, derive_gateway, dns_matches, dns_value, in_same_subnet, plan_gateway};
use fm350d::net::heal::line_has_metric;
use fm350d::net::probe::{data_plane_stalled, DataHealth, DATA_DRIVERS};
use fm350d::net::shell::{sq, uci_line};
use fm350d::net::v6::{
    is_link_local_v6, needs_refresh, usable_global_v6_from_addr_line, v6_dhcp_mode, v6_managed,
    v6_ra_mode, RefreshKind, V6_FALLBACK_METRIC,
};

fn base() -> Config {
    let mut c = Config::default();
    c.ipv6 = false;
    c
}

fn check_link_local() {
    assert!(is_link_local_v6("fe80::1"));
    assert!(is_link_local_v6("FE80::200:11ff:fe12:1314"));
    assert!(is_link_local_v6("febf::1"));
    assert!(!is_link_local_v6("2409:8d5b:358:43b::1"));
    assert!(!is_link_local_v6("2409:8d5b:358:43b:200:11ff:fe12:1314"));
    assert!(!is_link_local_v6("::1"));
    assert!(!is_link_local_v6(""));
}

#[test]
fn net_link_local_v6_detection() {
    check_link_local();
}

#[test]
fn v6_link_local_v6_detection() {
    check_link_local();
}

fn check_lifetimes() {
    let ok = "2: eth2 inet6 2409:8d5b:358:43b::8/64 scope global dynamic valid_lft 3588sec preferred_lft 3588sec";
    let deprecated = "2: eth2 inet6 2409:8d5b:358:43b::9/64 scope global dynamic valid_lft 120sec preferred_lft 0sec";
    let expired = "2: eth2 inet6 2409:8d5b:358:43b::a/64 scope global dynamic valid_lft 0sec preferred_lft 0sec";
    let forever = "2: eth2 inet6 2409:8d5b:358:43b::b/64 scope global valid_lft forever preferred_lft forever";
    let link_local = "2: eth2 inet6 fe80::200:11ff:fe12:1314/64 scope link valid_lft forever preferred_lft forever";
    assert_eq!(usable_global_v6_from_addr_line(ok).as_deref(), Some("2409:8d5b:358:43b::8"));
    assert_eq!(usable_global_v6_from_addr_line(deprecated).as_deref(), Some("2409:8d5b:358:43b::9"));
    assert_eq!(usable_global_v6_from_addr_line(expired), None);
    assert_eq!(usable_global_v6_from_addr_line(forever).as_deref(), Some("2409:8d5b:358:43b::b"));
    assert_eq!(usable_global_v6_from_addr_line(link_local), None);
}

#[test]
fn net_v6_addr_line_requires_valid_lifetime() {
    check_lifetimes();
}

#[test]
fn v6_v6_addr_line_requires_valid_lifetime() {
    check_lifetimes();
}

fn mode_cfg(mode: &str, ipv6: bool) -> Config {
    Config {
        ipv6,
        v6_mode: mode.to_string(),
        iface: "fm350".to_string(),
        iface_v6: "fm350v6".to_string(),
        ..Default::default()
    }
}

fn check_modes(cases: &[(&str, bool, bool, bool)]) {
    for (mode, managed, ra, dhcp) in cases {
        let c = mode_cfg(mode, true);
        assert_eq!(v6_managed(&c), *managed, "managed mode={}", mode);
        assert_eq!(v6_ra_mode(&c), *ra, "ra mode={}", mode);
        assert_eq!(v6_dhcp_mode(&c), *dhcp, "dhcp mode={}", mode);
    }
    let off = mode_cfg("dhcpv6", false);
    assert!(!v6_managed(&off) && !v6_ra_mode(&off) && !v6_dhcp_mode(&off));
}

#[test]
fn net_v6_mode_predicates_are_mutually_exclusive() {
    // An unrecognised or empty mode falls back to dhcpv6, as the interface
    // code has it (never to RA).
    check_modes(&[
        ("dhcpv6", true, false, true),
        ("ra", true, true, false),
        ("static", true, false, false),
        ("off", false, false, false),
        ("", true, false, true),
    ]);
}

#[test]
fn v6_v6_mode_predicates_are_mutually_exclusive() {
    check_modes(&[
        ("dhcpv6", true, false, true),
        ("ra", true, true, false),
        ("static", true, false, false),
        ("off", false, false, false),
        ("", true, false, true),
        ("bogus", true, false, true),
    ]);
}

#[test]
fn refresh_judgement_only_compares_addresses_in_static_mode() {
    let mk = |mode: &str| mode_cfg(mode, true);
    let modem = "2409:8057:2000::8";
    let iface = vec!["2409:8057:2000:1:2:3:4:5".to_string()];
    assert_eq!(needs_refresh(&mk("dhcpv6"), modem, &iface), None);
    assert_eq!(needs_refresh(&mk("ra"), modem, &iface), None);
    assert_eq!(needs_refresh(&mk("static"), modem, &iface), Some(RefreshKind::Mismatch));
    assert_eq!(needs_refresh(&mk("dhcpv6"), modem, &[]), Some(RefreshKind::Absent));
    assert_eq!(needs_refresh(&mk("off"), modem, &[]), None);
}

#[test]
fn v6_static_v6_addr_option_is_formatted_correctly() {
    let cfg = Config {
        ipv6: true,
        iface: "fm350".to_string(),
        iface_v6: "fm350v6".to_string(),
        ..Default::default()
    };
    let script = format!("set network.{}.ip6addr={}/128", cfg.iface_v6, "2409:8057:2000::8");
    assert_eq!(script, "set network.fm350v6.ip6addr=2409:8057:2000::8/128");
    let cmds = fm350d::net::v6::static_v6_cmds(&cfg, "2409:8057:2000::8", true, "interface", true, "static", true, "@fm350");
    assert!(cmds.contains(&script), "{:?}", cmds);
}

fn check_derive() {
    assert_eq!(derive_gateway("10.8.217.45").as_deref(), Some("10.8.217.1"));
    assert_eq!(derive_gateway("10.30.133.8").as_deref(), Some("10.30.133.1"));
    assert_eq!(derive_gateway("192.168.1.7").as_deref(), Some("192.168.1.1"));
    assert_eq!(derive_gateway("100.64.0.9").as_deref(), Some("100.64.0.1"));
    assert_eq!(derive_gateway("172.16.5.9").as_deref(), Some("172.16.5.1"));
    assert_eq!(derive_gateway("36.112.8.10"), None);
    assert_eq!(derive_gateway("120.196.165.7"), None);
    assert_eq!(derive_gateway("not-an-ip"), None);
}

#[test]
fn net_gateway_is_derived_only_for_private_or_cgnat() {
    check_derive();
}

#[test]
fn gateway_gateway_is_derived_only_for_private_or_cgnat() {
    check_derive();
}

fn check_gateway_modes() {
    let auto = Config { gateway_mode: "auto".into(), ..base() };
    assert_eq!(plan_gateway(&auto, "10.8.217.45", "").1.as_deref(), Some("10.8.217.1"));
    assert_eq!(plan_gateway(&auto, "10.8.217.45", "").0, "255.255.255.0");
    assert_eq!(plan_gateway(&auto, "36.112.8.10", "").1, None);
    assert_eq!(plan_gateway(&auto, "36.112.8.10", "").0, "255.255.255.255");
    let off = Config { gateway_mode: "off".into(), ..base() };
    assert_eq!(plan_gateway(&off, "10.8.217.45", "").1, None);
    assert_eq!(plan_gateway(&off, "10.8.217.45", "").0, "255.255.255.255");
    let st = Config { gateway_mode: "static".into(), gateway: "10.8.217.254".into(), ..base() };
    assert_eq!(plan_gateway(&st, "10.8.217.45", "").1.as_deref(), Some("10.8.217.254"));
}

#[test]
fn net_gateway_mode_plans_netmask_and_gateway() {
    check_gateway_modes();
}

#[test]
fn gateway_gateway_mode_plans_netmask_and_gateway() {
    check_gateway_modes();
}

#[test]
fn modem_gateway_preferred_in_auto() {
    let auto = Config { gateway_mode: "auto".into(), ..base() };
    assert_eq!(plan_gateway(&auto, "10.8.217.45", "10.8.217.254").1.as_deref(), Some("10.8.217.254"));
    assert_eq!(plan_gateway(&auto, "10.8.217.45", "0.0.0.0").1.as_deref(), Some("10.8.217.1"));
    assert_eq!(plan_gateway(&auto, "10.8.217.45", "10.8.217.45").1.as_deref(), Some("10.8.217.1"));
    let (m, g) = plan_gateway(&auto, "36.112.8.10", "36.112.8.1");
    assert_eq!(g.as_deref(), Some("36.112.8.1"));
    assert_eq!(m, "255.255.255.0");
    let (m2, g2) = plan_gateway(&auto, "10.8.217.45", "172.16.0.1");
    assert_eq!(g2.as_deref(), Some("172.16.0.1"));
    assert_eq!(m2, "255.255.255.0");
}

#[test]
fn in_same_subnet_follows_mask() {
    assert!(in_same_subnet("10.8.217.45", "10.8.217.1", "255.255.255.0"));
    assert!(!in_same_subnet("10.8.217.45", "172.16.0.1", "255.255.255.0"));
    assert!(!in_same_subnet("10.8.217.45", "10.8.217.1", "255.255.255.255"));
    assert!(!in_same_subnet("10.8.217.45", "10.8.217.1", "garbage"));
    assert!(!in_same_subnet("10.8.217", "10.8.217.1", "255.255.255.0"));
}

#[test]
fn config_sig_tracks_netifd_relevant_params() {
    let a = Config::default();
    assert_eq!(config_sig(&a), config_sig(&Config::default()));
    let b = Config { metric: a.metric.wrapping_add(1), ..Config::default() };
    assert_ne!(config_sig(&a), config_sig(&b));
    let c = Config { gateway_mode: "static".into(), ..Config::default() };
    assert_ne!(config_sig(&a), config_sig(&c));
    let d = Config { ipv6: !a.ipv6, ..Config::default() };
    assert_ne!(config_sig(&a), config_sig(&d));
}

#[test]
fn dns_value_is_single_quoted_as_one_argument() {
    let dns = vec!["223.5.5.5".to_string(), "119.29.29.29".to_string()];
    assert_eq!(dns_value(&dns), "'223.5.5.5 119.29.29.29'");
}

#[test]
fn dns_mismatch_reports_both_lists() {
    let want = vec!["223.5.5.5".to_string(), "119.29.29.29".to_string()];
    let cur = vec!["223.5.5.5".to_string()];
    assert!(dns_matches(&want, &want).is_ok());
    let e = dns_matches(&want, &cur).unwrap_err();
    // The message holds the missing servers and what uci has, in Debug form.
    assert!(e.contains("[\"119.29.29.29\"]"), "{}", e);
    assert!(e.contains("[\"223.5.5.5\"]"), "{}", e);
}

#[test]
fn metric_zero_means_absent_field() {
    assert!(line_has_metric("default dev eth2 scope link", 0));
    assert!(!line_has_metric("default dev eth2 scope link", 30));
}

#[test]
fn metric_matches_whole_token_only() {
    assert!(line_has_metric("default dev eth2 metric 30 ", 30));
    assert!(!line_has_metric("default dev eth2 metric 30 ", 3));
    assert!(!line_has_metric("default dev eth2 metric 300", 30));
}

#[test]
fn fallback_metric_outranks_both_ra_and_dhcpv6() {
    assert!(V6_FALLBACK_METRIC > 1024);
    assert!(V6_FALLBACK_METRIC > 512);
    assert_eq!(V6_FALLBACK_METRIC, 2048);
}

#[test]
fn iface_skeleton_options_are_stable() {
    let cfg = Config {
        iface: "fm350".to_string(),
        iface_v6: "fm350v6".to_string(),
        metric: 30,
        ..Default::default()
    };
    assert_eq!(format!("set network.{}=interface", cfg.iface), "set network.fm350=interface");
    assert_eq!(format!("set network.{}.proto=static", cfg.iface), "set network.fm350.proto=static");
    assert_eq!(format!("set network.{}.peerdns=0", cfg.iface), "set network.fm350.peerdns=0");
    assert_eq!(format!("set network.{}.auto=1", cfg.iface), "set network.fm350.auto=1");
    assert_eq!(format!("set network.{}.metric={}", cfg.iface, cfg.metric), "set network.fm350.metric=30");
    assert_eq!(
        format!("set network.{}.device=@{}", cfg.iface_v6, cfg.iface),
        "set network.fm350v6.device=@fm350"
    );
    let p = fm350d::net::iface::ensure_iface(&cfg, "eth2", "10.8.217.45", "", &[], "", None, true, "");
    for want in [
        "set network.fm350=interface",
        "set network.fm350.proto=static",
        "set network.fm350.peerdns=0",
        "set network.fm350.auto=1",
        "set network.fm350.metric=30",
    ] {
        assert!(p.cmds.iter().any(|c| c == want), "missing {} in {:?}", want, p.cmds);
    }
}

#[test]
fn multi_value_dns_is_quoted_as_one_argument() {
    let dns = ["223.5.5.5".to_string(), "119.29.29.29".to_string()];
    let cmd = format!("set network.fm350.dns={}", sq(&dns.join(" ")));
    assert_eq!(cmd, "set network.fm350.dns='223.5.5.5 119.29.29.29'");
}

#[test]
fn route_section_names_are_symmetric() {
    let iface = "fm350";
    assert_eq!(format!("{}_def", iface), "fm350_def");
    assert_eq!(format!("{}_gw4", iface), "fm350_gw4");
}

fn check_stall_struggling() {
    let a = DataHealth { rx_packets: 0, tx_packets: 2, tx_errors: 100, probe_sent: true };
    let stalled = DataHealth { rx_packets: 0, tx_packets: 2, tx_errors: 145, probe_sent: true };
    assert!(data_plane_stalled(&a, &stalled));
    let healthy = DataHealth { rx_packets: 0, tx_packets: 30, tx_errors: 101, probe_sent: true };
    assert!(!data_plane_stalled(&a, &healthy));
    let idle = DataHealth { rx_packets: 0, tx_packets: 2, tx_errors: 100, probe_sent: false };
    assert!(!data_plane_stalled(&a, &idle));
}

#[test]
fn probe_stalled_judges_tx_errors_not_idle_rx() {
    check_stall_struggling();
}

#[test]
fn net_stalled_judges_tx_errors_not_idle_rx() {
    let a = DataHealth { rx_packets: 0, tx_packets: 2, tx_errors: 100, probe_sent: false };
    let stalled = DataHealth { rx_packets: 0, tx_packets: 2, tx_errors: 145, probe_sent: false };
    assert!(data_plane_stalled(&a, &stalled));
    let healthy = DataHealth { rx_packets: 0, tx_packets: 30, tx_errors: 101, probe_sent: false };
    assert!(!data_plane_stalled(&a, &healthy));
    assert!(!data_plane_stalled(&a, &a));
}

#[test]
fn stalled_detects_frozen_queue_when_probe_sent() {
    let prev = DataHealth { rx_packets: 0, tx_packets: 1, tx_errors: 787, probe_sent: false };
    let frozen = DataHealth { rx_packets: 0, tx_packets: 1, tx_errors: 787, probe_sent: true };
    assert!(data_plane_stalled(&prev, &frozen));
    assert!(!data_plane_stalled(&prev, &prev));
}

#[test]
fn data_drivers_exclude_ap_side_ccmni() {
    assert!(!DATA_DRIVERS.iter().any(|d| d.contains("ccmni")));
    assert!(DATA_DRIVERS.contains(&"rndis_host"));
    assert!(DATA_DRIVERS.contains(&"cdc_ether"));
}

#[test]
fn sq_escapes_embedded_single_quotes() {
    assert_eq!(sq("10.0.0.1"), "'10.0.0.1'");
    assert_eq!(sq("a b"), "'a b'");
    assert_eq!(sq("it's"), "'it'\\''s'");
}

#[test]
fn uci_prefixes_quiet_flag() {
    let combined = format!("uci -q {}", "get network.fm350.proto");
    assert_eq!(combined, "uci -q get network.fm350.proto");
    assert_eq!(uci_line("get network.fm350.proto"), combined);
}
