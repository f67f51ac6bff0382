use fm350d::addr::{is_valid_ipv4, is_valid_ipv6};
use fm350d::at::cmd::{bind_l2p, set_eprartl, set_gtact, unbind_l2p, EMBIND_READ, EMBIND_TEST, L2P_CCMNI, L2P_RNDIS};
use fm350d::modem::band::{
    bandwidth_text, lte_band_from_code, lte_band_from_earfcn, nr_band_from_arfcn, nr_band_from_code,
    operator_name,
};
use fm350d::modem::bind::parse;
use fm350d::modem::info::clean_value;
use fm350d::modem::lock::rat_code;
use fm350d::modem::pdp::{cgact_state, is_duplicate_activate, Readiness};
use fm350d::modem::signal::{
    cell_rat_text, csq_to_dbm, ecno_tenths, lte_rsrp_dbm, lte_rsrq_tenths, rscp_dbm, rxlev_dbm,
    service_cell, ss_rsrp_dbm, ss_rsrq_tenths, ss_sinr_tenths,
};
use fm350d::modem::temp::{sensor_name, temp_readings};

#[test]
fn modem_ipv4_accepts_real_fm350_address() {
    assert!(is_valid_ipv4("10.5.23.212"));
    assert!(is_valid_ipv4("221.179.38.7"));
}

#[test]
fn modem_ipv4_rejects_fm350_dummy_v6_address() {
    let dummy = "0.0.0.0.0.0.0.0.0.0.0.0.0.0.0.1";
    assert!(!is_valid_ipv4(dummy));
    assert!(!is_valid_ipv4("36.9.128.87.32.0.0.0.0.0.0.0.0.0.0.8"));
}

#[test]
fn modem_ipv4_rejects_edge_cases() {
    assert!(!is_valid_ipv4(""));
    assert!(!is_valid_ipv4("0.0.0.0"));
    assert!(!is_valid_ipv4("10.5.23"));
    assert!(!is_valid_ipv4("10.5.23.256"));
    assert!(!is_valid_ipv4("10.5.23.a"));
    assert!(!is_valid_ipv4("::1"));
}

#[test]
fn modem_ipv6_accepts_proper_notation() {
    assert!(is_valid_ipv6("2409:8a00:1234::1"));
    assert!(is_valid_ipv6("fe80::1"));
}

#[test]
fn modem_ipv6_rejects_dummy_and_empty() {
    assert!(!is_valid_ipv6(""));
    assert!(!is_valid_ipv6("10.5.23.212"));
    assert!(!is_valid_ipv6("0:0:0:0:0:0:0:0"));
    assert!(!is_valid_ipv6("0000:0000:0000:0000:0000:0000:0000:0000"));
}

fn check_ss_rsrp() {
    assert_eq!(ss_rsrp_dbm(1), Some(-156));
    assert_eq!(ss_rsrp_dbm(125), Some(-32));
    assert_eq!(ss_rsrp_dbm(126), Some(-31));
    assert_eq!(ss_rsrp_dbm(255), None);
    assert_eq!(ss_rsrp_dbm(75), Some(-82));
    assert_eq!(ss_rsrp_dbm(74), Some(-83));
    assert_eq!(ss_rsrp_dbm(0), Some(-157));
}

#[test]
fn modem_ss_rsrp_matches_manual_examples() {
    check_ss_rsrp();
}

#[test]
fn signal_ss_rsrp_matches_manual_examples() {
    check_ss_rsrp();
}

/// The half-dB steps, in tenths of a dB.
fn check_half_db_steps() {
    assert_eq!(ss_rsrq_tenths(1), Some(-430));
    assert_eq!(ss_rsrq_tenths(64), Some(-115));
    assert_eq!(ss_rsrq_tenths(65), Some(-110));
    assert_eq!(ss_rsrq_tenths(126), Some(195));
    assert_eq!(ss_rsrq_tenths(255), None);
    assert_eq!(ss_sinr_tenths(1), Some(-230));
    assert_eq!(ss_sinr_tenths(75), Some(140));
    assert_eq!(ss_sinr_tenths(127), Some(400));
    assert_eq!(ss_sinr_tenths(255), None);
}

#[test]
fn modem_ss_rsrq_and_sinr_have_half_db_steps() {
    check_half_db_steps();
}

#[test]
fn signal_ss_rsrq_and_sinr_have_half_db_steps() {
    check_half_db_steps();
}

fn check_lte_umts() {
    assert_eq!(lte_rsrp_dbm(1), Some(-140));
    assert_eq!(lte_rsrp_dbm(96), Some(-45));
    assert_eq!(lte_rsrp_dbm(97), Some(-44));
    assert_eq!(lte_rsrp_dbm(255), None);
    assert_eq!(lte_rsrq_tenths(1), Some(-195));
    assert_eq!(lte_rsrq_tenths(34), Some(-30));
    assert_eq!(rscp_dbm(1), Some(-120));
    assert_eq!(rscp_dbm(96), Some(-25));
    assert_eq!(ecno_tenths(1), Some(-240));
    assert_eq!(ecno_tenths(49), Some(0));
}

#[test]
fn modem_lte_and_umts_indexes() {
    check_lte_umts();
}

#[test]
fn signal_lte_and_umts_indexes() {
    check_lte_umts();
}

fn check_rxlev() {
    assert_eq!(rxlev_dbm(1), Some(-110));
    assert_eq!(rxlev_dbm(63), Some(-48));
    assert_eq!(rxlev_dbm(99), None);
    assert_eq!(rxlev_dbm(255), None);
}

#[test]
fn modem_rxlev_unknown_is_99() {
    check_rxlev();
}

#[test]
fn signal_rxlev_unknown_is_99() {
    check_rxlev();
}

fn check_csq() {
    assert_eq!(csq_to_dbm(99), None);
    assert_eq!(csq_to_dbm(0), Some(-113));
    assert_eq!(csq_to_dbm(31), Some(-51));
}

#[test]
fn modem_csq_99_is_unknown() {
    check_csq();
}

#[test]
fn signal_csq_99_is_unknown() {
    check_csq();
}

fn check_cell_rat() {
    assert_eq!(cell_rat_text("9"), "5G NR");
    assert_eq!(cell_rat_text("4"), "LTE (4G)");
    assert_eq!(cell_rat_text("2"), "WCDMA (3G)");
    assert_eq!(cell_rat_text("0"), "无网络");
    assert_eq!(cell_rat_text("99"), "");
}

#[test]
fn modem_cell_rat_mapping() {
    check_cell_rat();
}

#[test]
fn signal_cell_rat_mapping() {
    check_cell_rat();
}

#[test]
fn modem_sensor_names() {
    assert_eq!(sensor_name(10), "md_5g");
    assert_eq!(sensor_name(1), "soc_max");
    assert_eq!(sensor_name(15), "nrpa_ntc");
    assert_eq!(sensor_name(5), "");
}

#[test]
fn temp_sensor_names() {
    assert_eq!(sensor_name(10), "md_5g");
    assert_eq!(sensor_name(1), "soc_max");
    assert_eq!(sensor_name(15), "nrpa_ntc");
    assert_eq!(sensor_name(5), "");
    assert_eq!(sensor_name(0), "");
    assert_eq!(sensor_name(999), "");
}

#[test]
fn zero_reading_is_skipped() {
    let ids: Vec<u32> = [(1u32, 47044i32), (2, 0), (3, 46463)]
        .iter()
        .filter(|(_, raw)| *raw != 0)
        .map(|(id, _)| *id)
        .collect();
    assert_eq!(ids, vec![1, 3]);
    let r = temp_readings("+GTSENRDTEMP: 1,47044\r\n+GTSENRDTEMP: 2,0\r\n+GTSENRDTEMP: 3,46463\r\nOK");
    assert_eq!(r, vec![(1, 47044), (3, 46463)]);
}

fn check_nr_live() {
    assert_eq!(nr_band_from_arfcn(504_990), Some("n41"));
}

fn check_nr_overlap() {
    assert_eq!(nr_band_from_arfcn(519_000), Some("n38/n41"));
    assert_eq!(nr_band_from_arfcn(633_333), Some("n77/n78"));
    assert_eq!(nr_band_from_arfcn(720_000), Some("n79"));
}

fn check_nr_none() {
    assert_eq!(nr_band_from_arfcn(0), None);
    assert_eq!(nr_band_from_arfcn(3_000_000), None);
}

fn check_lte_ranges() {
    assert_eq!(lte_band_from_earfcn(300), Some("B1"));
    assert_eq!(lte_band_from_earfcn(1650), Some("B3"));
    assert_eq!(lte_band_from_earfcn(2550), Some("B5"));
    assert_eq!(lte_band_from_earfcn(3600), Some("B8"));
    assert_eq!(lte_band_from_earfcn(36300), Some("B34"));
    assert_eq!(lte_band_from_earfcn(38000), Some("B38"));
    assert_eq!(lte_band_from_earfcn(38400), Some("B39"));
    assert_eq!(lte_band_from_earfcn(39000), Some("B40"));
    assert_eq!(lte_band_from_earfcn(40000), Some("B41"));
    assert_eq!(lte_band_from_earfcn(1000), None);
}

fn check_operators() {
    assert_eq!(operator_name("46000"), "中国移动");
    assert_eq!(operator_name("46002"), "中国移动");
    assert_eq!(operator_name("46001"), "中国联通");
    assert_eq!(operator_name("46003"), "中国电信");
    assert_eq!(operator_name("46015"), "中国广电");
    assert_eq!(operator_name("31026"), "");
    assert_eq!(operator_name(""), "");
}

#[test]
fn modem_nr_band_matches_live_arfcn() {
    check_nr_live();
}

#[test]
fn band_nr_band_matches_live_arfcn() {
    check_nr_live();
}

#[test]
fn modem_nr_band_marks_overlapping_bands() {
    check_nr_overlap();
}

#[test]
fn band_nr_band_marks_overlapping_bands() {
    check_nr_overlap();
}

#[test]
fn modem_nr_band_out_of_table_returns_none() {
    check_nr_none();
}

#[test]
fn band_nr_band_out_of_table_returns_none() {
    check_nr_none();
}

#[test]
fn modem_lte_band_ranges() {
    check_lte_ranges();
}

#[test]
fn band_lte_band_ranges() {
    check_lte_ranges();
}

#[test]
fn modem_operator_lookup_covers_three_carriers() {
    check_operators();
}

#[test]
fn band_operator_lookup_covers_three_carriers() {
    check_operators();
}

#[test]
fn nr_band_code_decodes_all_three_encodings() {
    assert_eq!(nr_band_from_code("5041").as_deref(), Some("n41"));
    assert_eq!(nr_band_from_code("501").as_deref(), Some("n1"));
    assert_eq!(nr_band_from_code("141").as_deref(), Some("n41"));
    assert_eq!(nr_band_from_code("5078").as_deref(), Some("n78"));
    assert_eq!(nr_band_from_code("5079").as_deref(), Some("n79"));
    assert_eq!(nr_band_from_code("50512").as_deref(), Some("n512"));
    assert_eq!(nr_band_from_code("5006"), None);
    assert_eq!(nr_band_from_code("5027"), None);
    assert_eq!(nr_band_from_code("500"), None);
    assert_eq!(nr_band_from_code(""), None);
    assert_eq!(nr_band_from_code("n41"), None);
}

#[test]
fn lte_band_code_decodes_both_encodings() {
    assert_eq!(lte_band_from_code("101").as_deref(), Some("B1"));
    assert_eq!(lte_band_from_code("171").as_deref(), Some("B71"));
    assert_eq!(lte_band_from_code("3").as_deref(), Some("B3"));
    assert_eq!(lte_band_from_code("41").as_deref(), Some("B41"));
    assert_eq!(lte_band_from_code("116"), None);
    assert_eq!(lte_band_from_code("16"), None);
    assert_eq!(lte_band_from_code(""), None);
    assert_eq!(lte_band_from_code("B3"), None);
}

#[test]
fn bandwidth_code_maps_by_rat() {
    assert_eq!(bandwidth_text("9", "500").as_deref(), Some("100 MHz"));
    assert_eq!(bandwidth_text("9", "250").as_deref(), Some("50 MHz"));
    assert_eq!(bandwidth_text("9", "450").as_deref(), Some("90 MHz"));
    assert_eq!(bandwidth_text("9", "25").as_deref(), Some("5 MHz"));
    assert_eq!(bandwidth_text("9", "1000").as_deref(), Some("200 MHz"));
    assert_eq!(bandwidth_text("9", "2000").as_deref(), Some("400 MHz"));
    assert_eq!(bandwidth_text("4", "100").as_deref(), Some("20 MHz"));
    assert_eq!(bandwidth_text("4", "6").as_deref(), Some("1.4 MHz"));
    assert_eq!(bandwidth_text("9", "777"), None);
    assert_eq!(bandwidth_text("4", "250"), None);
    assert_eq!(bandwidth_text("2", "500"), None);
    assert_eq!(bandwidth_text("9", ""), None);
}

#[test]
fn parses_single_line_form() {
    let st = parse("+EMBIND: 1,\"M-RNDIS\",1,\"M-CCMNI\",0\r\nOK\r\n");
    assert_eq!(st.verdict(), "host");
    assert!(st.host_bound());
    assert!(!st.ccmni_bound());
}

#[test]
fn parses_continuation_line_form() {
    let st = parse("+EMBIND: 4\r\n,\"M-CCMNI\",1\r\n,\"M-RNDIS\",0\r\n,\"M-MBIM\",0\r\nOK\r\n");
    assert_eq!(st.verdict(), "ccmni-only");
    assert!(st.ccmni_bound());
    assert!(!st.host_bound());
    assert_eq!(st.entries.len(), 3);
}

#[test]
fn unparsable_response_is_unknown_not_host() {
    let st = parse("\r\nERROR\r\n");
    assert_eq!(st.verdict(), "unknown");
    assert!(!st.host_bound());
    assert!(st.entries.is_empty());
}

#[test]
fn all_zero_is_none() {
    let st = parse("+EMBIND: 2\r\n,\"M-CCMNI\",0\r\n,\"M-RNDIS\",0\r\nOK\r\n");
    assert_eq!(st.verdict(), "none");
}

#[test]
fn duplicate_entries_are_collapsed() {
    let st = parse("+EMBIND: 1,\"M-RNDIS\",1\r\n+EMBIND: 1,\"M-RNDIS\",0\r\nOK\r\n");
    assert_eq!(st.entries.len(), 1);
    assert!(st.host_bound());
}

#[test]
fn command_forms_match_firmware() {
    assert_eq!(EMBIND_READ, "AT+EMBIND?");
    assert_eq!(EMBIND_TEST, "AT+EMBIND=?");
    assert_eq!(bind_l2p(L2P_RNDIS, 1), "AT+EMBIND=1,\"M-RNDIS\",1");
    assert_eq!(unbind_l2p(L2P_CCMNI, 1), "AT+EMBIND=0,\"M-CCMNI\",1");
}

#[test]
fn prefixed_values_are_extracted() {
    assert_eq!(clean_value("+CGMI: Fibocom\nOK", "AT+CGMI"), "Fibocom");
    assert_eq!(clean_value("+GTUSBMODE: 40\nOK", "AT+GTUSBMODE?"), "40");
}

#[test]
fn bare_responses_are_taken_as_is() {
    assert_eq!(clean_value("FM350-GL\nOK", "AT+CGMM"), "FM350-GL");
}

#[test]
fn empty_and_error_responses_yield_empty_string() {
    assert_eq!(clean_value("", "AT+CGMI"), "");
    assert_eq!(clean_value("+CME ERROR: phone failure", "AT+CGMR"), "");
    assert_eq!(clean_value("+CMS ERROR: 500", "AT+CGMR"), "");
    assert_eq!(clean_value("ERROR", "AT+CGMR"), "");
    assert_eq!(clean_value("OK", "AT+CGMR"), "");
}

#[test]
fn rat_code_accepts_names_and_codes() {
    assert_eq!(rat_code("NR"), Some("128"));
    assert_eq!(rat_code("5G"), Some("128"));
    assert_eq!(rat_code("LTE"), Some("4"));
    assert_eq!(rat_code("4G"), Some("4"));
    assert_eq!(rat_code("WCDMA"), Some("2"));
    assert_eq!(rat_code("UMTS"), Some("2"));
    assert_eq!(rat_code("128"), Some("128"));
    assert_eq!(rat_code("gsm"), None);
    assert_eq!(rat_code(""), None);
}

#[test]
fn epratl_encoding_differs_from_gtact() {
    assert_eq!(set_eprartl(&["128", "4"]), "AT+EPRATL=2,128,4");
    assert_eq!(set_gtact("10"), "AT+GTACT=10");
}

#[test]
fn cid_absent_means_inactive() {
    assert_eq!(cgact_state("+CGACT: 0,1\nOK", 1), Some(false));
}

#[test]
fn cid_present_state_parsed() {
    assert_eq!(cgact_state("+CGACT: 0,1\n+CGACT: 1,1\nOK", 1), Some(true));
    assert_eq!(cgact_state("+CGACT: 1,0\nOK", 1), Some(false));
    assert_eq!(cgact_state("+CGACT: 0,1\nOK", 0), Some(true));
}

#[test]
fn bare_ok_is_unknown() {
    assert_eq!(cgact_state("OK", 1), None);
    assert_eq!(cgact_state("", 1), None);
    assert_eq!(cgact_state("+CME ERROR: unknown", 1), None);
}

#[test]
fn duplicate_activate_is_recognized() {
    assert!(is_duplicate_activate("+CME ERROR: 5847"));
    assert!(!is_duplicate_activate("+CME ERROR: 100"));
    assert!(!is_duplicate_activate("OK"));
}

#[test]
fn not_ready_reports_all_missing_pieces() {
    let r = Readiness { sim_ready: Some(false), cfun: Some(0), reg_state: Some(2), raw: Vec::new() };
    assert!(!r.ok());
    let why = r.reason();
    assert!(why.contains("SIM 未就绪"), "{}", why);
    assert!(why.contains("未在线"), "{}", why);
    assert!(why.contains("未注册"), "{}", why);
}

#[test]
fn ready_when_registered_home_or_roaming() {
    for st in [1u32, 5] {
        let r = Readiness { sim_ready: Some(true), cfun: Some(1), reg_state: Some(st), raw: Vec::new() };
        assert!(r.ok(), "reg={} counts as ready", st);
        assert_eq!(r.reason(), "");
    }
}

#[test]
fn unknown_state_is_not_ready() {
    let r = Readiness::default();
    assert!(!r.ok());
}

#[test]
fn service_cell_picks_only_the_serving_row() {
    let resp = "+GTCCINFO: 2,9,460,0,1234,5678,504990,129,5041,500\n\
                +GTCCINFO: 1,9,460,0,1234,9999,504990,128,5041,500\n\
                OK";
    let c = service_cell(resp);
    assert_eq!(c.get(5).map(|s| s.as_str()), Some("9999"), "the serving row is taken");
    assert_eq!(c.get(8).map(|s| s.as_str()), Some("5041"));
}
