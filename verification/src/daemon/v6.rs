//! When to act on IPv6, and how far: polling the modem's address, judging
//! whether the interface needs a refresh, and spacing recoveries out. What
//! the action writes lives in [`crate::net::v6`].
//!
//! Every timer here is a fallback: the vendor's own agent is event driven
//! and solicits RAs, it never refreshes on a clock.
use crate::config::Config;
use crate::daemon::{elapsed, elapsed_exec};
use crate::net::v6::{needs_refresh, spec_needs_refresh, spec_v6_managed, v6_managed, RefreshKind};
use crate::text::strs;
use vstd::prelude::*;

verus! {

/// Shortest interval between two reads of the modem's IPv6, in seconds:
/// `AT+CGPADDR` still answers the previous session's address after a
/// deactivation, so reading it often only multiplies wrong judgements.
pub const V6_MODEM_POLL_MIN_INTERVAL: u64 = 60;

/// Recovery interval once IPv6 has been seen, in seconds.
pub const V6_REFRESH_MIN_INTERVAL: u64 = 60;

/// Recovery interval while IPv6 was never seen, in seconds: an IPv4-only
/// network would otherwise restart the v6 interface every minute.
pub const V6_SILENT_RECOVERY_INTERVAL: u64 = 1800;

pub open spec fn spec_recovery_interval(seen: bool) -> u64 {
    if seen {
        V6_REFRESH_MIN_INTERVAL
    } else {
        V6_SILENT_RECOVERY_INTERVAL
    }
}

/// The recovery interval in seconds, by whether IPv6 was ever seen on the
/// modem or on the interface.
pub fn recovery_interval(seen: bool) -> (r: u64)
    ensures
        r == spec_recovery_interval(seen),
{
    if seen {
        V6_REFRESH_MIN_INTERVAL
    } else {
        V6_SILENT_RECOVERY_INTERVAL
    }
}

pub open spec fn max60(x: u64) -> u64 {
    if x < 60 {
        60
    } else {
        x
    }
}

pub open spec fn spec_modem_poll_due(c: Config, last: Option<u64>) -> bool {
    &&& c.enabled
    &&& c.ipv6
    &&& c.iface_v6@.len() > 0
    &&& c.v6_poll_interval > 0
    &&& match last {
        None => true,
        Some(t) => t / 1000 >= max60(c.v6_poll_interval) && t / 1000 >= V6_MODEM_POLL_MIN_INTERVAL,
    }
}

/// Whether the modem's IPv6 is due for a read; `last` is the time since
/// the previous read in milliseconds (`None`: never, the first round is
/// due). The configured interval counts, at least one minute.
pub fn modem_poll_due(cfg: &Config, last: Option<u64>) -> (b: bool)
    ensures
        b == spec_modem_poll_due(*cfg, last),
{
    if !(cfg.enabled && cfg.ipv6 && !cfg.iface_v6.as_str().is_empty() && cfg.v6_poll_interval > 0) {
        return false;
    }
    match last {
        None => true,
        Some(t) => {
            let iv = if cfg.v6_poll_interval < 60 {
                60
            } else {
                cfg.v6_poll_interval
            };
            t / 1000 >= iv && t / 1000 >= V6_MODEM_POLL_MIN_INTERVAL
        },
    }
}

pub open spec fn spec_scheduled_due(c: Config, elapsed_ms: u64) -> bool {
    c.v6_refresh_interval > 0 && elapsed_ms / 1000 >= max60(c.v6_refresh_interval)
}

/// Whether the configured periodic refresh is due (`0` turns it off; at
/// least one minute).
pub fn scheduled_due(cfg: &Config, elapsed_ms: u64) -> (b: bool)
    ensures
        b == spec_scheduled_due(*cfg, elapsed_ms),
{
    let iv = if cfg.v6_refresh_interval < 60 {
        60
    } else {
        cfg.v6_refresh_interval
    };
    cfg.v6_refresh_interval > 0 && elapsed_ms / 1000 >= iv
}

pub open spec fn spec_recovery_due(last: Option<u64>, interval: u64) -> bool {
    match last {
        None => true,
        Some(t) => t / 1000 >= interval,
    }
}

/// Whether the interval (seconds) since the last recovery (milliseconds
/// ago) has passed; never recovered counts as due, or an interface without
/// any IPv6 would stay silent forever.
pub fn recovery_due(last: Option<u64>, interval: u64) -> (b: bool)
    ensures
        b == spec_recovery_due(last, interval),
{
    match last {
        None => true,
        Some(t) => t / 1000 >= interval,
    }
}

/// Why the v6 interface is refreshed this round.
#[derive(Debug, Clone, Copy, PartialEq, Eq, Structural)]
pub enum V6Reason {
    /// The interface lacks the modem's address (static mode).
    ModemAddrMissing,
    /// The interface has no global IPv6.
    NoGlobal,
    /// No valid global IPv6 and the recovery interval passed.
    Recovery,
    /// The configured periodic refresh.
    Scheduled,
}

/// A refresh asked for: with the modem's address written
/// (`apply == true`) or, when the modem reports none, only the interface
/// restarted so that RA / DHCPv6 fetch one.
#[derive(Debug, Clone, Copy, PartialEq, Eq, Structural)]
pub struct V6Fix {
    pub reason: V6Reason,
    pub apply: bool,
}

/// State of the IPv6 watcher (times in milliseconds).
#[derive(Debug, Clone)]
pub struct V6Watch {
    pub last_refresh: Option<u64>,
    pub last_modem_poll: Option<u64>,
    pub last_scheduled: u64,
    pub last_modem_ipv6: String,
    pub modem_seen: bool,
    pub net_seen: bool,
}

pub open spec fn since(now: u64, t: Option<u64>) -> Option<u64> {
    match t {
        Some(x) => Some(elapsed(now, x)),
        None => None,
    }
}

fn since_exec(now: u64, t: Option<u64>) -> (r: Option<u64>)
    ensures
        r == since(now, t),
{
    match t {
        Some(x) => Some(elapsed_exec(now, x)),
        None => None,
    }
}

pub open spec fn spec_maintain(w: V6Watch, c: Config, modem_v6: Seq<char>, iface_v6: Seq<Seq<char>>, now: u64) -> Option<V6Fix> {
    if !spec_v6_managed(c) {
        None
    } else {
        let kind = spec_needs_refresh(c, modem_v6, iface_v6);
        let rec = iface_v6.len() == 0 && spec_recovery_due(
            since(now, w.last_refresh),
            spec_recovery_interval(w.modem_seen || w.net_seen),
        );
        let sch = spec_scheduled_due(c, elapsed(now, w.last_scheduled));
        if kind is None && !rec && !sch {
            None
        } else {
            let reason = if kind is Some && modem_v6.len() > 0 {
                V6Reason::ModemAddrMissing
            } else if kind is Some {
                V6Reason::NoGlobal
            } else if rec {
                V6Reason::Recovery
            } else {
                V6Reason::Scheduled
            };
            Some(V6Fix { reason, apply: modem_v6.len() > 0 })
        }
    }
}

impl V6Watch {
    pub fn new(now: u64) -> (w: V6Watch)
        ensures
            w.last_refresh is None,
            w.last_modem_poll is None,
            w.last_scheduled == now,
            w.last_modem_ipv6@.len() == 0,
            !w.modem_seen,
            !w.net_seen,
    {
        V6Watch {
            last_refresh: None,
            last_modem_poll: None,
            last_scheduled: now,
            last_modem_ipv6: String::new(),
            modem_seen: false,
            net_seen: false,
        }
    }

    /// The modem reported this IPv6 (empty: none).
    pub fn note_modem(&mut self, v6: &str)
        ensures
            final(self).modem_seen == (old(self).modem_seen || v6@.len() > 0),
            final(self).net_seen == old(self).net_seen,
            final(self).last_refresh == old(self).last_refresh,
            final(self).last_modem_poll == old(self).last_modem_poll,
            final(self).last_scheduled == old(self).last_scheduled,
            final(self).last_modem_ipv6@ == old(self).last_modem_ipv6@,
    {
        if !v6.is_empty() {
            self.modem_seen = true;
        }
    }

    /// The interface holds these global IPv6 addresses.
    pub fn note_iface(&mut self, v6: &[String])
        ensures
            final(self).net_seen == (old(self).net_seen || v6@.len() > 0),
            final(self).modem_seen == old(self).modem_seen,
            final(self).last_refresh == old(self).last_refresh,
            final(self).last_modem_poll == old(self).last_modem_poll,
            final(self).last_scheduled == old(self).last_scheduled,
            final(self).last_modem_ipv6@ == old(self).last_modem_ipv6@,
    {
        if v6.len() > 0 {
            self.net_seen = true;
        }
    }

    /// Whether the modem's IPv6 is due for a read now.
    pub fn poll_due(&self, cfg: &Config, now: u64) -> (b: bool)
        ensures
            b == spec_modem_poll_due(*cfg, since(now, self.last_modem_poll)),
    {
        modem_poll_due(cfg, since_exec(now, self.last_modem_poll))
    }

    /// A read of the modem's IPv6: returns whether it changed to a new
    /// address, which the caller then writes to the v6 interface (the
    /// refresh timers restart). An address that disappeared is forgotten.
    pub fn sync_modem(&mut self, v6: &str, now: u64) -> (changed: bool)
        ensures
            changed == (v6@.len() > 0 && v6@ != old(self).last_modem_ipv6@),
            final(self).last_modem_poll == Some(now),
            changed ==> final(self).last_modem_ipv6@ == v6@ && final(self).last_refresh == Some(now)
                && final(self).last_scheduled == now,
            !changed ==> final(self).last_refresh == old(self).last_refresh && final(self).last_scheduled
                == old(self).last_scheduled,
            !changed && v6@.len() == 0 ==> final(self).last_modem_ipv6@.len() == 0,
            !changed && v6@.len() > 0 ==> final(self).last_modem_ipv6@ == old(self).last_modem_ipv6@,
            final(self).modem_seen == old(self).modem_seen,
            final(self).net_seen == old(self).net_seen,
    {
        self.last_modem_poll = Some(now);
        if !v6.is_empty() && !crate::text::str_eq(v6, self.last_modem_ipv6.as_str()) {
            self.last_modem_ipv6 = v6.to_owned();
            self.last_refresh = Some(now);
            self.last_scheduled = now;
            return true;
        }
        if v6.is_empty() {
            self.last_modem_ipv6 = String::new();
        }
        false
    }

    /// The recovery interval for what was seen so far, in seconds.
    pub fn recovery_interval(&self) -> (r: u64)
        ensures
            r == spec_recovery_interval(self.modem_seen || self.net_seen),
    {
        recovery_interval(self.modem_seen || self.net_seen)
    }

    /// Regular IPv6 upkeep with the modem's address and the interface's
    /// global addresses: a refresh when the interface needs one (see
    /// [`needs_refresh`]), when it has no global IPv6 and the recovery
    /// interval passed, or when the periodic refresh is due. The refresh
    /// timers restart when one is asked for.
    pub fn maintain(&mut self, cfg: &Config, modem_v6: &str, iface_v6: &[String], now: u64) -> (r: Option<V6Fix>)
        ensures
            r == spec_maintain(*old(self), *cfg, modem_v6@, strs(iface_v6@), now),
            r is Some ==> final(self).last_refresh == Some(now) && final(self).last_scheduled == now,
            r is None ==> final(self).last_refresh == old(self).last_refresh && final(self).last_scheduled
                == old(self).last_scheduled,
            final(self).last_modem_poll == old(self).last_modem_poll,
            final(self).last_modem_ipv6@ == old(self).last_modem_ipv6@,
            final(self).modem_seen == old(self).modem_seen,
            final(self).net_seen == old(self).net_seen,
    {
        if !v6_managed(cfg) {
            return None;
        }
        let kind = needs_refresh(cfg, modem_v6, iface_v6);
        let rec = iface_v6.len() == 0 && recovery_due(since_exec(now, self.last_refresh), self.recovery_interval());
        let sch = scheduled_due(cfg, elapsed_exec(now, self.last_scheduled));
        if kind.is_none() && !rec && !sch {
            return None;
        }
        let reason = if kind.is_some() && !modem_v6.is_empty() {
            V6Reason::ModemAddrMissing
        } else if kind.is_some() {
            V6Reason::NoGlobal
        } else if rec {
            V6Reason::Recovery
        } else {
            V6Reason::Scheduled
        };
        self.last_refresh = Some(now);
        self.last_scheduled = now;
        Some(V6Fix { reason, apply: !modem_v6.is_empty() })
    }
}

/// An empty modem address is never written: without one the refresh only
/// restarts the interface.
pub proof fn lemma_never_writes_empty(w: V6Watch, c: Config, iface_v6: Seq<Seq<char>>, now: u64)
    ensures
        spec_maintain(w, c, seq![], iface_v6, now) matches Some(f) ==> !f.apply,
{
}

} // verus!
