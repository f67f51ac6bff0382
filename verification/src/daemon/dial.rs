//! The dialling watcher: the PDP state machine. Not active: dial. Active
//! with an IPv4: put the address back when it drifted. Active without any
//! address for several rounds: deactivate, clear the session's addresses,
//! and back off before dialling again.
//!
//! Only `AT+CGACT?` says whether the context is active: `AT+CGPADDR` and
//! `AT+CGCONTRDP` keep answering the previous session's addresses after a
//! deactivation.
use crate::config::Config;
use crate::modem::pdp::PdpState;
use crate::net::iface::{status, status_ok, NetStatus};
use crate::modem::pdp::opt_view;
use vstd::prelude::*;

verus! {

/// Rounds active without any address before the context is deactivated
/// and dialled again.
pub const NO_ADDR_REDIAL_ROUNDS: u32 = 3;

/// Backoff after a no-service purge before dialling again, in seconds.
pub const NO_SERVICE_RETRY_INTERVAL: u64 = 300;

/// State of the dialling watcher (times in milliseconds).
#[derive(Debug, Clone, Copy, PartialEq, Eq, Structural)]
pub struct DialWatch {
    /// Consecutive rounds active without any address.
    pub no_addr_rounds: u32,
    /// Consecutive failed dials while inactive.
    pub dial_fail_rounds: u32,
    /// End of the backoff after a purge.
    pub retry_after: Option<u64>,
}

pub open spec fn spec_dial_purge_due(failed: u32, configured: u32) -> bool {
    failed >= (if configured < 1 {
        1
    } else {
        configured
    })
}

/// Whether the failed dials reached the purge threshold (at least one).
pub fn dial_purge_due(failed_rounds: u32, configured_rounds: u32) -> (b: bool)
    ensures
        b == spec_dial_purge_due(failed_rounds, configured_rounds),
{
    let need = if configured_rounds < 1 {
        1
    } else {
        configured_rounds
    };
    failed_rounds >= need
}

pub open spec fn spec_retry_waiting(retry_at: Option<u64>, now: u64) -> bool {
    match retry_at {
        Some(d) => now < d,
        None => false,
    }
}

/// Whether the backoff after a purge is still running.
pub fn retry_waiting(retry_at: Option<u64>, now: u64) -> (b: bool)
    ensures
        b == spec_retry_waiting(retry_at, now),
{
    match retry_at {
        Some(d) => now < d,
        None => false,
    }
}

/// `now` plus the backoff, saturating at the end of the clock.
pub open spec fn backoff_end(now: u64) -> u64 {
    if now > u64::MAX - NO_SERVICE_RETRY_INTERVAL * 1000 {
        u64::MAX
    } else {
        (now + NO_SERVICE_RETRY_INTERVAL * 1000) as u64
    }
}

/// Which branch of the round the PDP state takes.
#[derive(Debug, Clone, Copy, PartialEq, Eq, Structural)]
pub enum DialPath {
    Inactive,
    ActiveV4,
    ActiveNoV4,
}

/// The branch of the round for a PDP state.
pub fn dial_path(st: &PdpState) -> (p: DialPath)
    ensures
        p == (if !st.active {
            DialPath::Inactive
        } else if st.ipv4@.len() > 0 {
            DialPath::ActiveV4
        } else {
            DialPath::ActiveNoV4
        }),
{
    if !st.active {
        DialPath::Inactive
    } else if !st.ipv4.as_str().is_empty() {
        DialPath::ActiveV4
    } else {
        DialPath::ActiveNoV4
    }
}

/// Whether the PDP type is plain IPv4 (`IP`, any case): IPv6 upkeep is
/// skipped then.
pub fn pdp_v4_only(pdp_type: &str) -> (b: bool)
    ensures
        b == (pdp_type@.len() == 2 && (pdp_type@[0] == 'I' || pdp_type@[0] == 'i') && (pdp_type@[1] == 'P'
            || pdp_type@[1] == 'p')),
{
    let v = crate::text::chars_of(pdp_type);
    v.len() == 2 && (v[0] == 'I' || v[0] == 'i') && (v[1] == 'P' || v[1] == 'p')
}

/// What the inactive branch does next.
#[derive(Debug, Clone, Copy, PartialEq, Eq, Structural)]
pub enum InactiveStep {
    /// The backoff runs: nothing this round.
    Wait,
    /// Dial; `backoff_ended` tells that a backoff just ran out.
    Dial { backoff_ended: bool },
}

/// How a dial went, as the caller saw it.
#[derive(Debug, Clone, Copy, PartialEq, Eq, Structural)]
pub enum DialOutcome {
    /// The dial failed.
    Failed,
    /// It returned with addresses.
    Addresses,
    /// It returned without addresses; `active` tells whether the context
    /// is active.
    NoAddress { active: bool },
}

/// What follows a dial.
#[derive(Debug, Clone, Copy, PartialEq, Eq, Structural)]
pub enum DialNext {
    /// Configure the network with the addresses.
    Apply,
    /// Active without addresses yet: look again next round.
    Wait,
    /// A failure was counted.
    Retry,
    /// Failures reached the threshold: clear the session's addresses from
    /// UCI (the backoff already runs).
    Purify,
}

/// What the active-without-IPv4 branch does next.
#[derive(Debug, Clone, Copy, PartialEq, Eq, Structural)]
pub enum NoV4Step {
    /// An IPv6-only session: configure it as such.
    V6Only,
    /// Nothing this round; `backoff_ended` tells that a backoff just ran
    /// out.
    Wait { backoff_ended: bool },
    /// No address for too long: deactivate and clear the session's
    /// addresses (the backoff already runs).
    Hangup { backoff_ended: bool },
}

pub open spec fn deferred(w: DialWatch, now: u64) -> DialWatch {
    DialWatch { no_addr_rounds: 0, dial_fail_rounds: 0, retry_after: Some(backoff_end(now)) }
}

pub open spec fn spec_dial_result(w: DialWatch, c: Config, o: DialOutcome, now: u64) -> (DialWatch, DialNext) {
    match o {
        DialOutcome::Addresses => (DialWatch { dial_fail_rounds: 0, retry_after: None, ..w }, DialNext::Apply),
        DialOutcome::NoAddress { active: true } => (
            DialWatch { dial_fail_rounds: 0, retry_after: None, ..w },
            DialNext::Wait,
        ),
        _ => {
            let f = if w.dial_fail_rounds == u32::MAX {
                u32::MAX
            } else {
                (w.dial_fail_rounds + 1) as u32
            };
            if spec_dial_purge_due(f, c.net_guard_rounds) {
                (deferred(w, now), DialNext::Purify)
            } else {
                (DialWatch { dial_fail_rounds: f, ..w }, DialNext::Retry)
            }
        },
    }
}

pub open spec fn spec_active_without_v4(w: DialWatch, has_v6: bool, now: u64) -> (DialWatch, NoV4Step) {
    if has_v6 {
        (DialWatch { dial_fail_rounds: 0, no_addr_rounds: 0, retry_after: None }, NoV4Step::V6Only)
    } else if spec_retry_waiting(w.retry_after, now) {
        (DialWatch { dial_fail_rounds: 0, no_addr_rounds: 0, ..w }, NoV4Step::Wait { backoff_ended: false })
    } else {
        let ended = w.retry_after is Some;
        let n = if w.no_addr_rounds == u32::MAX {
            0
        } else {
            (w.no_addr_rounds + 1) as u32
        };
        if n < NO_ADDR_REDIAL_ROUNDS {
            (DialWatch { dial_fail_rounds: 0, no_addr_rounds: n, retry_after: None }, NoV4Step::Wait { backoff_ended: ended })
        } else {
            (deferred(w, now), NoV4Step::Hangup { backoff_ended: ended })
        }
    }
}

impl DialWatch {
    pub fn new() -> (w: DialWatch)
        ensures
            w == (DialWatch { no_addr_rounds: 0, dial_fail_rounds: 0, retry_after: None }),
    {
        DialWatch { no_addr_rounds: 0, dial_fail_rounds: 0, retry_after: None }
    }

    /// The inactive branch begins: dial unless the backoff runs.
    pub fn inactive_begin(&mut self, now: u64) -> (s: InactiveStep)
        ensures
            spec_retry_waiting(old(self).retry_after, now) ==> s == InactiveStep::Wait && *final(self) == (DialWatch {
                no_addr_rounds: 0,
                ..*old(self)
            }),
            !spec_retry_waiting(old(self).retry_after, now) ==> s == (InactiveStep::Dial {
                backoff_ended: old(self).retry_after is Some,
            }) && *final(self) == (DialWatch { no_addr_rounds: 0, retry_after: None, ..*old(self) }),
    {
        self.no_addr_rounds = 0;
        if retry_waiting(self.retry_after, now) {
            return InactiveStep::Wait;
        }
        let ended = self.retry_after.is_some();
        self.retry_after = None;
        InactiveStep::Dial { backoff_ended: ended }
    }

    /// The dial's outcome. Addresses, or an active context without them,
    /// clear the failure count and the backoff; anything else counts a
    /// failure, and once failures reach `net_guard_rounds` (at least one)
    /// the backoff starts and the caller clears the session's addresses.
    pub fn dial_result(&mut self, cfg: &Config, o: DialOutcome, now: u64) -> (n: DialNext)
        ensures
            (*final(self), n) == spec_dial_result(*old(self), *cfg, o, now),
    {
        match o {
            DialOutcome::Addresses => {
                self.dial_fail_rounds = 0;
                self.retry_after = None;
                DialNext::Apply
            },
            DialOutcome::NoAddress { active: true } => {
                self.dial_fail_rounds = 0;
                self.retry_after = None;
                DialNext::Wait
            },
            _ => {
                self.dial_fail_rounds = if self.dial_fail_rounds == u32::MAX {
                    u32::MAX
                } else {
                    self.dial_fail_rounds + 1
                };
                if dial_purge_due(self.dial_fail_rounds, cfg.net_guard_rounds) {
                    self.defer_after_external_purification(now);
                    DialNext::Purify
                } else {
                    DialNext::Retry
                }
            },
        }
    }

    /// Active with an IPv4: every count and the backoff are cleared.
    pub fn on_active_v4(&mut self)
        ensures
            *final(self) == (DialWatch { no_addr_rounds: 0, dial_fail_rounds: 0, retry_after: None }),
    {
        self.no_addr_rounds = 0;
        self.dial_fail_rounds = 0;
        self.retry_after = None;
    }

    /// Active without an IPv4. With an IPv6 the session is IPv6-only; with
    /// none, the rounds are counted (the backoff of a purge is honoured
    /// here too), and the third one deactivates.
    pub fn active_without_v4(&mut self, has_v6: bool, now: u64) -> (s: NoV4Step)
        ensures
            (*final(self), s) == spec_active_without_v4(*old(self), has_v6, now),
    {
        self.dial_fail_rounds = 0;
        if has_v6 {
            self.no_addr_rounds = 0;
            self.retry_after = None;
            return NoV4Step::V6Only;
        }
        if retry_waiting(self.retry_after, now) {
            self.no_addr_rounds = 0;
            return NoV4Step::Wait { backoff_ended: false };
        }
        let ended = self.retry_after.is_some();
        self.retry_after = None;
        self.no_addr_rounds = if self.no_addr_rounds == u32::MAX {
            0
        } else {
            self.no_addr_rounds + 1
        };
        if self.no_addr_rounds < NO_ADDR_REDIAL_ROUNDS {
            return NoV4Step::Wait { backoff_ended: ended };
        }
        self.defer_after_external_purification(now);
        NoV4Step::Hangup { backoff_ended: ended }
    }

    /// Another watcher purified the session: join the same backoff.
    pub fn defer_after_external_purification(&mut self, now: u64)
        ensures
            *final(self) == deferred(*old(self), now),
    {
        self.no_addr_rounds = 0;
        self.dial_fail_rounds = 0;
        self.retry_after = Some(
            if now > u64::MAX - NO_SERVICE_RETRY_INTERVAL * 1000 {
                u64::MAX
            } else {
                now + NO_SERVICE_RETRY_INTERVAL * 1000
            },
        );
    }
}

/// No dial happens while the backoff runs, and a context without addresses
/// is only deactivated after [`NO_ADDR_REDIAL_ROUNDS`] rounds in a row.
pub proof fn lemma_dial_debounced(w: DialWatch, now: u64)
    ensures
        spec_retry_waiting(w.retry_after, now) ==> spec_active_without_v4(w, false, now).1 is Wait,
        spec_active_without_v4(w, false, now).1 is Hangup ==> w.no_addr_rounds + 1 >= NO_ADDR_REDIAL_ROUNDS
            || w.no_addr_rounds == u32::MAX,
        spec_active_without_v4(w, false, now).1 is Hangup && now < u64::MAX - NO_SERVICE_RETRY_INTERVAL * 1000
            ==> spec_retry_waiting(
            spec_active_without_v4(w, false, now).0.retry_after,
            now,
        ),
{
}

/// A failed dial is counted, and the session is purged (backoff started,
/// count cleared) exactly when it is the `net_guard_rounds`-th failure in a
/// row (at least the first when that is 0); every earlier failure is a
/// retry with the count one up and the backoff left as it was.
pub proof fn lemma_purge_after_rounds(w: DialWatch, c: Config, o: DialOutcome, now: u64)
    requires
        o == DialOutcome::Failed || o == (DialOutcome::NoAddress { active: false }),
        w.dial_fail_rounds < u32::MAX,
    ensures
        ({
            let k: int = if c.net_guard_rounds == 0 { 1 } else { c.net_guard_rounds as int };
            let (w2, n) = spec_dial_result(w, c, o, now);
            &&& (n == DialNext::Purify) == (w.dial_fail_rounds + 1 >= k)
            &&& n == DialNext::Retry ==> w2 == (DialWatch { dial_fail_rounds: (w.dial_fail_rounds + 1) as u32, ..w })
            &&& n == DialNext::Purify ==> w2.dial_fail_rounds == 0 && w2.no_addr_rounds == 0
                && w2.retry_after == Some(backoff_end(now))
            &&& (n == DialNext::Purify || n == DialNext::Retry)
        }),
{
}

/// From a fresh watcher, `k` failures in a row (`net_guard_rounds` = `k`,
/// at least 1): the first `k - 1` are retries counting 1, 2, ..., and the
/// `k`-th purges.
pub proof fn lemma_failures_from_new(c: Config, j: u32, now: u64)
    requires
        c.net_guard_rounds >= 1,
        j < c.net_guard_rounds,
    ensures
        ({
            let w = DialWatch { no_addr_rounds: 0, dial_fail_rounds: j, retry_after: None };
            let (w2, n) = spec_dial_result(w, c, DialOutcome::Failed, now);
            &&& j + 1 < c.net_guard_rounds ==> n == DialNext::Retry && w2.dial_fail_rounds == j + 1
            &&& j + 1 == c.net_guard_rounds ==> n == DialNext::Purify
        }),
{
    let w = DialWatch { no_addr_rounds: 0, dial_fail_rounds: j, retry_after: None };
    lemma_purge_after_rounds(w, c, DialOutcome::Failed, now);
}

/// The network state, read through [`status`].
pub fn net_status(
    cfg: &Config,
    dev: Option<String>,
    addrs: &str,
    routes: &str,
    routes6: &str,
    dns_ok: bool,
    dns_out: &str,
) -> (st: NetStatus)
    ensures
        status_ok(st, *cfg, opt_view(dev), addrs@, routes@, routes6@, dns_ok, dns_out@),
{
    status(cfg, dev, addrs, routes, routes6, dns_ok, dns_out)
}

} // verus!
