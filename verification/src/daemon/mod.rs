//! The daemon's round: the state each watcher keeps from one round to the
//! next, and its decisions. Time is a monotonic clock in milliseconds that
//! the caller reads; what a decision asks for (dialling, bouncing an
//! interface, writing UCI) the caller performs and reports back.
//!
//! | watcher | module | concern |
//! |---|---|---|
//! | dialling | [`dial`] | PDP active, addresses in place, redial when none come |
//! | IPv6 | [`v6`] | modem-side IPv6 changes, when to recover the interface |
//! | parameter signature | [`sig`] | UCI changed behind the daemon's back |
//! | data plane | [`guard::DataGuard`] | stalled data card counters |
//! | connectivity | [`guard::NetGuard`] | each stack reaching the internet |
//! | interface conflicts | [`guard::ConflictWatch`] | other tools on the data card |
//! | AT port | [`port`] | reconfiguration, vanished port, exclusivity |
//! | EIF events | [`gt`] | `+GT*` URCs speeding up the next round |
pub mod dial;
pub mod gt;
pub mod guard;
pub mod port;
pub mod sig;
pub mod v6;

pub use dial::{DialWatch, NO_ADDR_REDIAL_ROUNDS, NO_SERVICE_RETRY_INTERVAL};
pub use gt::GtWatch;
pub use guard::{ConflictWatch, DataGuard, NetGuard};
pub use port::PortWatch;
pub use v6::V6Watch;

use vstd::prelude::*;

verus! {

/// The single-instance lock file. It lies on the tmpfs under `/var/run`, so
/// a reboot clears it and a crashed daemon leaves no lock behind.
pub const LOCK_FILE: &'static str = "/var/run/fm350d.lock";

/// Lower bound of the round interval, in seconds: every round reads
/// `AT+CGACT?` and `AT+CGPADDR` over a half-duplex AT channel.
pub const MIN_POLL_INTERVAL: u64 = 5;

/// Milliseconds since `t`, zero when the clock reads earlier (as
/// `Instant::elapsed` saturates).
pub open spec fn elapsed(now: u64, t: u64) -> u64 {
    if now >= t {
        (now - t) as u64
    } else {
        0
    }
}

pub fn elapsed_exec(now: u64, t: u64) -> (e: u64)
    ensures
        e == elapsed(now, t),
{
    if now >= t {
        now - t
    } else {
        0
    }
}

/// The round interval in seconds: the configured one, at least
/// [`MIN_POLL_INTERVAL`].
pub fn round_interval(poll_interval: u64) -> (r: u64)
    ensures
        r == (if poll_interval < MIN_POLL_INTERVAL {
            MIN_POLL_INTERVAL
        } else {
            poll_interval
        }),
{
    if poll_interval < MIN_POLL_INTERVAL {
        MIN_POLL_INTERVAL
    } else {
        poll_interval
    }
}

} // verus!
