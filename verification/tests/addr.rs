use fm350d::addr::{is_link_local_v6, is_valid_ipv4, is_valid_ipv6, looks_v6, normalize_ipv6};

#[test]
fn addr_ipv4_accepts_real_fm350_address() {
    assert!(is_valid_ipv4("10.5.23.212"));
    assert!(is_valid_ipv4("221.179.38.7"));
}

#[test]
fn addr_ipv4_rejects_fm350_dummy_v6_address() {
    let dummy = "0.0.0.0.0.0.0.0.0.0.0.0.0.0.0.1";
    assert!(!is_valid_ipv4(dummy));
    assert!(!is_valid_ipv4("36.9.128.87.32.0.0.0.0.0.0.0.0.0.0.8"));
}

#[test]
fn addr_ipv4_rejects_edge_cases() {
    assert!(!is_valid_ipv4(""));
    assert!(!is_valid_ipv4("0.0.0.0"));
    assert!(!is_valid_ipv4("10.5.23"));
    assert!(!is_valid_ipv4("10.5.23.256"));
    assert!(!is_valid_ipv4("10.5.23.a"));
    assert!(!is_valid_ipv4("::1"));
}

#[test]
fn addr_ipv6_accepts_proper_notation() {
    assert!(is_valid_ipv6("2409:8a00:1234::1"));
    assert!(is_valid_ipv6("fe80::1"));
}

#[test]
fn addr_ipv6_rejects_dummy_and_empty() {
    assert!(!is_valid_ipv6(""));
    assert!(!is_valid_ipv6("10.5.23.212"));
    assert!(!is_valid_ipv6("0:0:0:0:0:0:0:0"));
    assert!(!is_valid_ipv6("0000:0000:0000:0000:0000:0000:0000:0000"));
}

#[test]
fn ipv6_decodes_fm350_dotted_notation() {
    let addr = "36.9.128.87.32.0.0.0.0.0.0.0.0.0.0.8";
    let gw = "36.9.128.87.32.0.0.4.0.0.0.0.0.0.0.8";
    assert!(is_valid_ipv6(addr));
    assert_eq!(normalize_ipv6(addr).as_deref(), Some("2409:8057:2000::8"));
    assert_eq!(normalize_ipv6(gw).as_deref(), Some("2409:8057:2000:4::8"));
}

#[test]
fn ipv6_rejects_fm350_dotted_placeholder() {
    let dummy = "0.0.0.0.0.0.0.0.0.0.0.0.0.0.0.1";
    assert!(!is_valid_ipv6(dummy));
    assert_eq!(normalize_ipv6(dummy), None);
    assert!(!is_valid_ipv6("0.0.0.0.0.0.0.0.0.0.0.0.0.0.0.0"));
    assert!(!is_valid_ipv6("1.2.3.4"));
    assert!(!is_valid_ipv6("36.9.128.87.32.0.0.0.0.0.0.0.0.0.0.256"));
}

#[test]
fn ipv6_colon_structure_enforced() {
    assert_eq!(normalize_ipv6("gg::1"), None);
    assert_eq!(normalize_ipv6("2409::8::1"), None);
    assert_eq!(normalize_ipv6("2409:8057:2000:4:0:0:0:8:1"), None);
    assert_eq!(normalize_ipv6("fe80:1:2:3:4:5:6"), None);
    assert_eq!(normalize_ipv6(":2409::1"), None);
    assert_eq!(normalize_ipv6("2409:8057:2000:4:0:0:0:80000"), None);
    assert_eq!(normalize_ipv6("fe80::1%eth2").as_deref(), Some("fe80::1"));
    assert_eq!(normalize_ipv6("[2409:8057::8]").as_deref(), Some("2409:8057::8"));
    assert_eq!(
        normalize_ipv6("2409:8057:2000:4:0:0:0:8").as_deref(),
        Some("2409:8057:2000:4:0:0:0:8")
    );
}

#[test]
fn link_local_detection() {
    assert!(is_link_local_v6("fe80::1"));
    assert!(is_link_local_v6("FE80::200:11ff:fe12:1314"));
    assert!(is_link_local_v6("febf::1"));
    assert!(!is_link_local_v6("2409:8d5b:358:43b::1"));
    assert!(!is_link_local_v6("::1"));
    assert!(!is_link_local_v6(""));
}

#[test]
fn looks_v6_discriminates_address_family() {
    assert!(looks_v6("2409:8057::8"));
    assert!(looks_v6("0.0.0.0.0.0.0.0.0.0.0.0.0.0.0.1"));
    assert!(!looks_v6("10.5.23.212"));
    assert!(!looks_v6(""));
}

#[test]
fn ipv4_boundary_octets() {
    assert!(is_valid_ipv4("255.255.255.255"));
    assert!(is_valid_ipv4("1.0.0.0"));
    assert!(!is_valid_ipv4("1..0.0"));
    assert!(!is_valid_ipv4("1.2.3.4."));
}

#[test]
fn ipv6_zone_and_brackets_only_strip_once() {
    assert_eq!(normalize_ipv6("[fe80::1]").as_deref(), Some("fe80::1"));
    assert_eq!(normalize_ipv6("::"), None);
    assert!(!is_valid_ipv6("::1"));
}

#[test]
fn ipv6_loopback_placeholder_is_rejected_in_every_spelling() {
    assert_eq!(normalize_ipv6("::1"), None);
    assert_eq!(normalize_ipv6("[::1]"), None);
    assert_eq!(normalize_ipv6("0:0:0:0:0:0:0:1"), None);
    assert_eq!(normalize_ipv6("::0001"), None);
    assert_eq!(normalize_ipv6("1::").as_deref(), Some("1::"));
    assert_eq!(normalize_ipv6("::11").as_deref(), Some("::11"));
    assert_eq!(normalize_ipv6("::1:1").as_deref(), Some("::1:1"));
}
