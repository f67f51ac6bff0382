use fm350d::at::cmd::egmrext_write_imei;
use fm350d::at::guard::is_imei_write;
use fm350d::cli::{forward_read_timeout, USAGE};
use fm350d::config::Config;
use fm350d::imei::{guard_transparent, luhn_ok, parse_imei, valid_format, write_failed, write_plan};

#[test]
fn luhn_of_valid_imei() {
    assert!(luhn_ok("490154203237518"));
}

#[test]
fn luhn_rejects_bad_checksum() {
    assert!(!luhn_ok("490154203237519"));
}

#[test]
fn format_check() {
    assert!(valid_format("490154203237518"));
    assert!(!valid_format("49015420323751"));
    assert!(!valid_format("49015420323751X"));
    assert!(!valid_format(""));
}

#[test]
fn luhn_passing_implies_well_formed() {
    assert!(!luhn_ok("4901542032375180"));
    assert!(!luhn_ok("49015420323751X"));
}

#[test]
fn usage_lists_every_subcommand() {
    for cmd in [
        "daemon", "status", "info", "signal", "pdp", "net", "ports", "cell", "lock", "lock-band",
        "lock-cell", "dial", "hangup", "at", "sms", "smsc", "imei", "rat", "sim", "cfun", "usbmode",
        "reboot", "config", "set",
    ] {
        assert!(USAGE.contains(&format!("fm350d {}", cmd)), "missing {}", cmd);
    }
    assert!(USAGE.contains("高风险不可逆"));
}

#[test]
fn imei_write_guard_literal_is_shared() {
    let cmd = egmrext_write_imei("123456789012345");
    assert!(is_imei_write(&cmd));
}

#[test]
fn forwarded_read_timeout_floors() {
    assert_eq!(forward_read_timeout(true, 10), 15);
    assert_eq!(forward_read_timeout(true, 30), 30);
    assert_eq!(forward_read_timeout(false, 10), 60);
    assert_eq!(forward_read_timeout(false, 90), 90);
}

#[test]
fn parse_imei_reads_egmrext_or_bare_digits() {
    assert_eq!(parse_imei("+EGMREXT: \"490154203237518\"\nOK").unwrap(), "490154203237518");
    assert_eq!(parse_imei("490154203237518\nOK").unwrap(), "490154203237518");
    let e = parse_imei("ERROR").unwrap_err();
    assert!(e.starts_with("未能解析 IMEI"), "{}", e);
}

#[test]
fn write_plan_checks_in_order() {
    let mut c = Config::default();
    let e = write_plan(&c, "490154203237518", false).err().unwrap();
    assert!(e.contains("缺少二次确认"));
    let e = write_plan(&c, "490154203237518", true).err().unwrap();
    assert!(e.contains("未开启"));
    c.imei_write = true;
    assert!(write_plan(&c, "4901", true).is_err());
    let p = write_plan(&c, " 490154203237518 ", true).ok().unwrap();
    assert_eq!(p.imei, "490154203237518");
    assert_eq!(p.command, "AT+EGMREXT=1,7,\"490154203237518\"");
    assert!(p.luhn_ok);
    assert!(p.warning.is_none());
    let q = write_plan(&c, "490154203237519", true).ok().unwrap();
    assert!(!q.luhn_ok);
    assert!(q.warning.is_some());
}

#[test]
fn transparent_guard_refuses_writes() {
    let c = Config::default();
    assert!(guard_transparent("AT+CSQ", &c).is_ok());
    assert!(guard_transparent("AT+EGMREXT=1,7,\"490154203237518\"", &c).is_err());
    assert!(write_failed("ERROR"));
    assert!(!write_failed("OK"));
}

#[test]
fn imei_write_builder_is_caught_for_any_value() {
    for v in ["123456789012345", "", "1;2", "abc", " 8612 ", "\"", "x\";AT+CSQ"] {
        assert!(is_imei_write(&egmrext_write_imei(v)), "builder passed for {:?}", v);
    }
    assert!(!is_imei_write(fm350d::at::cmd::EGMREXT_READ_IMEI));
}

#[test]
fn imei_write_builder_is_caught_for_non_ascii_values() {
    for v in ["中文", "é;ß", "ı"] {
        assert!(is_imei_write(&egmrext_write_imei(v)), "builder passed for {:?}", v);
    }
}
