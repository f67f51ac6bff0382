use fm350d::at::urc::GtEvent;
use fm350d::config::Config;
use fm350d::daemon::dial::{dial_purge_due, retry_waiting, DialWatch, NO_ADDR_REDIAL_ROUNDS, NO_SERVICE_RETRY_INTERVAL};
use fm350d::daemon::gt::{GtWatch, ACCEL_COOLDOWN, ACCEL_SLEEP};
use fm350d::daemon::guard::{cooled, DATA_GUARD_MIN_ROUNDS, NET_GUARD_COOLDOWN, RECOVER_COOLDOWN};
use fm350d::daemon::port::{PortWatch, AT_RESELECT_DOWN_ROUNDS};
use fm350d::daemon::v6::{
    modem_poll_due, recovery_due, recovery_interval, scheduled_due, V6Watch, V6_REFRESH_MIN_INTERVAL,
    V6_SILENT_RECOVERY_INTERVAL,
};
use fm350d::daemon::LOCK_FILE;

#[test]
fn redial_threshold_tolerates_slow_address_delivery() {
    assert!(NO_ADDR_REDIAL_ROUNDS >= 2);
}

#[test]
fn watch_starts_with_no_accumulated_rounds() {
    let w = DialWatch::new();
    assert_eq!(w.no_addr_rounds, 0);
    assert_eq!(w.dial_fail_rounds, 0);
    assert!(w.retry_after.is_none());
}

#[test]
fn unavailable_session_purges_only_after_configured_failures() {
    assert!(!dial_purge_due(1, 3));
    assert!(!dial_purge_due(2, 3));
    assert!(dial_purge_due(3, 3));
    assert!(dial_purge_due(1, 0), "the threshold is at least one round");
}

#[test]
fn purified_session_uses_long_redial_backoff() {
    assert_eq!(NO_SERVICE_RETRY_INTERVAL, 300);
}

#[test]
fn redial_is_suppressed_until_backoff_deadline() {
    let now: u64 = 1_000_000;
    let deadline = now + NO_SERVICE_RETRY_INTERVAL * 1000;
    assert!(retry_waiting(Some(deadline), now));
    assert!(!retry_waiting(Some(now), now));
    assert!(!retry_waiting(None, now));
}

fn gt_cfg(eif: bool) -> Config {
    Config { eif_guard: eif, ..Default::default() }
}

#[test]
fn cooldown_limiter() {
    let w = GtWatch::new();
    assert!(w.cooldown_over(0));
}

#[test]
fn sleep_interval_shrinks_only_when_pending() {
    let mut w = GtWatch::new();
    assert_eq!(w.sleep_interval(30), 30);
    w.accel_pending = true;
    assert_eq!(w.sleep_interval(30), ACCEL_SLEEP);
    assert_eq!(w.sleep_interval(3), 3);
    w.consume_accel();
    assert_eq!(w.sleep_interval(30), 30);
}

#[test]
fn tick_on_empty_queue_is_noop() {
    let mut w = GtWatch::new();
    assert!(!w.tick(&gt_cfg(true), &Vec::new(), 1000));
}

#[test]
fn tick_accelerates_once_per_cooldown() {
    let mut w = GtWatch::new();
    let evs = vec![GtEvent::Nora("initial")];
    assert!(w.tick(&gt_cfg(true), &evs, 10_000));
    w.consume_accel();
    // Within the cooldown another event does not accelerate.
    assert!(!w.tick(&gt_cfg(true), &evs, 10_000 + ACCEL_COOLDOWN * 1000 - 1));
    assert!(w.tick(&gt_cfg(true), &evs, 10_000 + ACCEL_COOLDOWN * 1000));
    // With eif_guard off nothing accelerates.
    let mut off = GtWatch::new();
    assert!(!off.tick(&gt_cfg(false), &evs, 10_000));
    // An MTU event is no reason to accelerate.
    let mut w2 = GtWatch::new();
    assert!(!w2.tick(&gt_cfg(true), &vec![GtEvent::IfMtu(1500)], 10_000));
}

#[test]
fn first_recover_is_never_blocked_by_cooldown() {
    assert!(cooled(None, 0, RECOVER_COOLDOWN));
}

#[test]
fn cooldown_blocks_immediate_repeat() {
    let t: u64 = 5_000_000;
    assert!(!cooled(Some(t), t, RECOVER_COOLDOWN));
    assert!(cooled(Some(t), t + RECOVER_COOLDOWN * 1000, RECOVER_COOLDOWN));
}

#[test]
fn data_guard_rounds_floor_is_one() {
    assert_eq!(DATA_GUARD_MIN_ROUNDS, 1);
    assert_eq!(0u32.max(DATA_GUARD_MIN_ROUNDS), 1);
}

#[test]
fn cooldowns_are_far_longer_than_a_redial() {
    assert!(RECOVER_COOLDOWN >= 120);
    assert!(NET_GUARD_COOLDOWN >= 120);
}

#[test]
fn reselect_threshold_tolerates_transient_disappearance() {
    assert!(AT_RESELECT_DOWN_ROUNDS >= 2);
}

#[test]
fn watch_starts_clean() {
    let w = PortWatch::new();
    assert_eq!(w.down_rounds, 0);
    assert!(w.last_intruders.is_empty());
}

#[test]
fn reselect_fires_after_threshold_rounds() {
    let mut w = PortWatch::new();
    for _ in 1..AT_RESELECT_DOWN_ROUNDS {
        assert!(!w.reselect_if_down(false));
    }
    assert!(w.reselect_if_down(false));
    assert_eq!(w.down_rounds, 0);
    assert!(!w.reselect_if_down(true));
}

#[test]
fn lock_file_lives_under_var_run() {
    assert!(LOCK_FILE.starts_with("/var/run/"));
}

fn cfg_with(v6_poll: u64, v6_refresh: u64) -> Config {
    let mut c = Config::default();
    c.enabled = true;
    c.ipv6 = true;
    c.iface_v6 = "fm350v6".to_string();
    c.v6_poll_interval = v6_poll;
    c.v6_refresh_interval = v6_refresh;
    c
}

#[test]
fn recovery_interval_is_longer_when_v6_never_seen() {
    assert_eq!(recovery_interval(true), V6_REFRESH_MIN_INTERVAL);
    assert_eq!(recovery_interval(false), V6_SILENT_RECOVERY_INTERVAL);
    assert!(V6_SILENT_RECOVERY_INTERVAL > V6_REFRESH_MIN_INTERVAL);
}

#[test]
fn first_round_is_always_due() {
    assert!(modem_poll_due(&cfg_with(300, 300), None));
    assert!(recovery_due(None, V6_REFRESH_MIN_INTERVAL));
}

#[test]
fn poll_interval_is_clamped_to_a_floor() {
    let c = cfg_with(5, 0);
    assert!(!modem_poll_due(&c, Some(10_000)));
    assert!(modem_poll_due(&c, Some(61_000)));
}

#[test]
fn poll_is_skipped_when_v6_disabled_or_interval_zero() {
    let mut c = cfg_with(0, 0);
    assert!(!modem_poll_due(&c, None), "no polling with v6_poll_interval=0");
    c = cfg_with(300, 0);
    c.enabled = false;
    assert!(!modem_poll_due(&c, None));
    c.enabled = true;
    c.ipv6 = false;
    assert!(!modem_poll_due(&c, None));
}

#[test]
fn scheduled_refresh_respects_configured_interval() {
    let c = cfg_with(300, 600);
    assert!(!scheduled_due(&c, 599_000));
    assert!(scheduled_due(&c, 600_000));
    let off = cfg_with(300, 0);
    assert!(!scheduled_due(&off, 99_999_000));
}

#[test]
fn seen_flag_shortens_recovery() {
    let mut w = V6Watch::new(0);
    assert_eq!(w.recovery_interval(), V6_SILENT_RECOVERY_INTERVAL);
    w.note_modem("2408::1");
    assert_eq!(w.recovery_interval(), V6_REFRESH_MIN_INTERVAL);
}
