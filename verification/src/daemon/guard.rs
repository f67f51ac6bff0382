//! Keeping the link alive: the data plane's counters and each stack's
//! reachability, with graded recovery and cooldowns, and a warning when
//! another tool manages the same data card.
//!
//! Both guards are needed: a stalled data plane makes ICMP fail like an
//! outage, while a broken bearer leaves the counters perfectly normal.
//! Recovery climbs by cost (reset the card, redial, reboot the modem), and
//! every step waits out a cooldown: a redial takes tens of seconds during
//! which the link is down, and without a cooldown flaky targets would cut
//! the link again and again.
use crate::config::Config;
use crate::daemon::{elapsed, elapsed_exec};
use crate::net::probe::{data_plane_stalled, spec_stalled, DataHealth};
use crate::text::strs;
use vstd::prelude::*;

verus! {

/// Cooldown between two data-plane recovery steps, in seconds.
pub const RECOVER_COOLDOWN: u64 = 300;

/// Cooldown between two connectivity recovery steps of one stack, in
/// seconds.
pub const NET_GUARD_COOLDOWN: u64 = 300;

/// Fewest stalled rounds before the data plane is recovered.
pub const DATA_GUARD_MIN_ROUNDS: u32 = 1;

/// A counter one step on (wrapping, as release builds of the daemon do).
pub open spec fn inc(x: u32) -> u32 {
    if x == u32::MAX {
        0
    } else {
        (x + 1) as u32
    }
}

fn inc_exec(x: u32) -> (r: u32)
    ensures
        r == inc(x),
{
    if x == u32::MAX {
        0
    } else {
        x + 1
    }
}

pub open spec fn at_least_one(x: u32) -> u32 {
    if x < 1 {
        1
    } else {
        x
    }
}

pub open spec fn spec_cooled(last: Option<u64>, now: u64, cooldown: u64) -> bool {
    match last {
        None => true,
        Some(t) => elapsed(now, t) / 1000 >= cooldown,
    }
}

/// Whether the cooldown (seconds) since the last recovery (milliseconds)
/// is over; never having recovered counts as cooled.
pub fn cooled(last: Option<u64>, now: u64, cooldown: u64) -> (b: bool)
    ensures
        b == spec_cooled(last, now, cooldown),
{
    match last {
        None => true,
        Some(t) => elapsed_exec(now, t) / 1000 >= cooldown,
    }
}

// ---------------------------------------------------------------- data plane

/// State of the data-plane guard.
#[derive(Debug, Clone, Copy, PartialEq, Eq, Structural)]
pub struct DataGuard {
    /// Consecutive rounds judged stalled.
    pub stall_rounds: u32,
    /// The previous reading (the judgement compares increments).
    pub last_health: Option<DataHealth>,
    /// The last recovery step taken.
    pub recover_level: u32,
    /// When the last recovery step ran (milliseconds).
    pub last_recover: Option<u64>,
}

/// A reading taken: the first one only sets the baseline; a stall counts a
/// round; progress clears the count and drops the recovery back to step 1.
/// The flag tells whether the round was healthy.
pub open spec fn data_observe(g: DataGuard, sample: Option<DataHealth>) -> (DataGuard, bool) {
    match sample {
        None => (g, true),
        Some(cur) => match g.last_health {
            None => (DataGuard { last_health: Some(cur), ..g }, true),
            Some(prev) => if spec_stalled(prev, cur) {
                (DataGuard { last_health: Some(cur), stall_rounds: inc(g.stall_rounds), ..g }, false)
            } else {
                (DataGuard { last_health: Some(cur), stall_rounds: 0, recover_level: 0, ..g }, true)
            },
        },
    }
}

pub open spec fn spec_data_tick(g: DataGuard, c: Config, sample: Option<DataHealth>, now: u64) -> (DataGuard, Option<u32>) {
    if !c.data_guard || !c.enabled {
        (g, None)
    } else {
        let (g1, healthy) = data_observe(g, sample);
        if healthy || g1.stall_rounds < at_least_one(c.data_guard_rounds) || !spec_cooled(
            g1.last_recover,
            now,
            RECOVER_COOLDOWN,
        ) {
            (g1, None)
        } else {
            let level = inc(g1.recover_level);
            (DataGuard { recover_level: level, last_recover: Some(now), stall_rounds: 0, ..g1 }, Some(level))
        }
    }
}

impl DataGuard {
    pub fn new() -> (g: DataGuard)
        ensures
            g == (DataGuard { stall_rounds: 0, last_health: None, recover_level: 0, last_recover: None }),
    {
        DataGuard { stall_rounds: 0, last_health: None, recover_level: 0, last_recover: None }
    }

    /// One round, with this round's reading of the data card (`None` when
    /// the card or its counters are gone). Returns the recovery step to run
    /// now: 1 resets the data card, 2 redials, 3 and above reboot the
    /// modem. After running it the caller sets a fresh baseline
    /// ([`DataGuard::rebase`]).
    pub fn tick(&mut self, cfg: &Config, sample: Option<DataHealth>, now: u64) -> (r: Option<u32>)
        ensures
            (*final(self), r) == spec_data_tick(*old(self), *cfg, sample, now),
    {
        if !cfg.data_guard || !cfg.enabled {
            return None;
        }
        let healthy = match sample {
            None => true,
            Some(cur) => match self.last_health {
                None => {
                    self.last_health = Some(cur);
                    true
                },
                Some(prev) => {
                    self.last_health = Some(cur);
                    if data_plane_stalled(&prev, &cur) {
                        self.stall_rounds = inc_exec(self.stall_rounds);
                        false
                    } else {
                        self.stall_rounds = 0;
                        self.recover_level = 0;
                        true
                    }
                },
            },
        };
        let needed = if cfg.data_guard_rounds < DATA_GUARD_MIN_ROUNDS {
            DATA_GUARD_MIN_ROUNDS
        } else {
            cfg.data_guard_rounds
        };
        if healthy || self.stall_rounds < needed || !cooled(self.last_recover, now, RECOVER_COOLDOWN) {
            return None;
        }
        let level = inc_exec(self.recover_level);
        self.recover_level = level;
        self.last_recover = Some(now);
        self.stall_rounds = 0;
        Some(level)
    }

    /// The baseline after a recovery step (the counters may have been reset).
    pub fn rebase(&mut self, sample: Option<DataHealth>)
        ensures
            *final(self) == (DataGuard { last_health: sample, ..*old(self) }),
    {
        self.last_health = sample;
    }
}

/// A recovery step runs only after at least the configured number of
/// stalled rounds (one at least), with the cooldown over, and each step is
/// one above the previous one.
pub proof fn lemma_data_recovery_gated(g: DataGuard, c: Config, sample: Option<DataHealth>, now: u64)
    ensures
        spec_data_tick(g, c, sample, now).1 matches Some(level) ==> {
            &&& c.data_guard && c.enabled
            &&& data_observe(g, sample).0.stall_rounds >= at_least_one(c.data_guard_rounds)
            &&& spec_cooled(g.last_recover, now, RECOVER_COOLDOWN)
            &&& level == inc(data_observe(g, sample).0.recover_level)
        },
{
}

// ---------------------------------------------------------------- connectivity

/// State of one stack's connectivity guard.
#[derive(Debug, Clone, Copy, PartialEq, Eq, Structural)]
pub struct StackGuard {
    /// Consecutive failed probes.
    pub fail_rounds: u32,
    /// The last recovery step taken.
    pub recover_level: u32,
    /// The last probe: `None` when the interface had no address (the
    /// address watcher's business then).
    pub last_ok: Option<bool>,
    pub last_recover: Option<u64>,
}

/// What a stack's guard asks for this round.
#[derive(Debug, Clone, Copy, PartialEq, Eq, Structural)]
pub enum StackAction {
    /// Nothing to do.
    Idle,
    /// Rebuild the stack's interface (`ifdown`/`ifup` of it alone).
    Bounce,
    /// Deactivate and dial again (both stacks go down briefly).
    Redial,
    /// IPv6 only: before escalating, probe IPv4 and call
    /// [`NetGuard::v6_escalate`].
    AskV4,
}

pub open spec fn stack_reset(s: StackGuard) -> StackGuard {
    StackGuard { fail_rounds: 0, recover_level: 0, ..s }
}

/// The part common to both stacks: no address hands the stack back, a good
/// probe clears it, a failed one counts; `true` when the count reached
/// `rounds` with the cooldown over.
pub open spec fn stack_observe(s: StackGuard, has_addr: bool, reachable: bool, rounds: u32, now: u64) -> (StackGuard, bool) {
    if !has_addr {
        (StackGuard { last_ok: None, ..stack_reset(s) }, false)
    } else if reachable {
        (StackGuard { last_ok: Some(true), ..stack_reset(s) }, false)
    } else {
        let s1 = StackGuard { last_ok: Some(false), fail_rounds: inc(s.fail_rounds), ..s };
        (s1, s1.fail_rounds >= rounds && spec_cooled(s1.last_recover, now, NET_GUARD_COOLDOWN))
    }
}

/// State of the connectivity guard: both stacks counted, graded and cooled
/// down separately.
#[derive(Debug, Clone, Copy, PartialEq, Eq, Structural)]
pub struct NetGuard {
    pub v4: StackGuard,
    pub v6: StackGuard,
}

pub open spec fn spec_tick_v4(g: NetGuard, has_addr: bool, reachable: bool, rounds: u32, now: u64) -> (NetGuard, StackAction) {
    let (s1, due) = stack_observe(g.v4, has_addr, reachable, rounds, now);
    if !due {
        (NetGuard { v4: s1, ..g }, StackAction::Idle)
    } else {
        let level = inc(s1.recover_level);
        let s2 = StackGuard { recover_level: level, fail_rounds: 0, last_recover: Some(now), ..s1 };
        (NetGuard { v4: s2, ..g }, if level == 1 {
            StackAction::Bounce
        } else {
            StackAction::Redial
        })
    }
}

pub open spec fn spec_tick_v6(g: NetGuard, has_addr: bool, reachable: bool, rounds: u32, now: u64) -> (NetGuard, StackAction) {
    let (s1, due) = stack_observe(g.v6, has_addr, reachable, rounds, now);
    if !due {
        (NetGuard { v6: s1, ..g }, StackAction::Idle)
    } else if s1.recover_level < 1 {
        (NetGuard { v6: StackGuard { fail_rounds: 0, recover_level: 1, last_recover: Some(now), ..s1 }, ..g }, StackAction::Bounce)
    } else {
        (NetGuard { v6: StackGuard { fail_rounds: 0, ..s1 }, ..g }, StackAction::AskV4)
    }
}

pub open spec fn spec_v6_escalate(g: NetGuard, v4_down: bool, now: u64) -> (NetGuard, StackAction) {
    if !v4_down {
        (NetGuard { v6: StackGuard { last_recover: Some(now), ..g.v6 }, ..g }, StackAction::Bounce)
    } else {
        (
            NetGuard {
                v6: StackGuard { recover_level: inc(g.v6.recover_level), last_recover: Some(now), ..g.v6 },
                v4: StackGuard { last_recover: Some(now), ..stack_reset(g.v4) },
            },
            StackAction::Redial,
        )
    }
}

fn stack_observe_exec(s: &mut StackGuard, has_addr: bool, reachable: bool, rounds: u32, now: u64) -> (due: bool)
    ensures
        (*final(s), due) == stack_observe(*old(s), has_addr, reachable, rounds, now),
{
    if !has_addr {
        s.fail_rounds = 0;
        s.recover_level = 0;
        s.last_ok = None;
        return false;
    }
    if reachable {
        s.fail_rounds = 0;
        s.recover_level = 0;
        s.last_ok = Some(true);
        return false;
    }
    s.last_ok = Some(false);
    s.fail_rounds = inc_exec(s.fail_rounds);
    s.fail_rounds >= rounds && cooled(s.last_recover, now, NET_GUARD_COOLDOWN)
}

impl NetGuard {
    pub fn new() -> (g: NetGuard)
        ensures
            g.v4 == (StackGuard { fail_rounds: 0, recover_level: 0, last_ok: None, last_recover: None }),
            g.v6 == g.v4,
    {
        let s = StackGuard { fail_rounds: 0, recover_level: 0, last_ok: None, last_recover: None };
        NetGuard { v4: s, v6: s }
    }

    /// One IPv4 round: `has_addr` tells whether the interface holds an IPv4
    /// (without one the address watcher is in charge), `reachable` the
    /// probe's result. After `rounds` failures with the cooldown over, the
    /// first step rebuilds the IPv4 interface, later ones redial.
    pub fn tick_v4(&mut self, has_addr: bool, reachable: bool, rounds: u32, now: u64) -> (a: StackAction)
        ensures
            (*final(self), a) == spec_tick_v4(*old(self), has_addr, reachable, rounds, now),
    {
        let due = stack_observe_exec(&mut self.v4, has_addr, reachable, rounds, now);
        if !due {
            return StackAction::Idle;
        }
        let level = inc_exec(self.v4.recover_level);
        self.v4.recover_level = level;
        self.v4.fail_rounds = 0;
        self.v4.last_recover = Some(now);
        if level == 1 {
            StackAction::Bounce
        } else {
            StackAction::Redial
        }
    }

    /// One IPv6 round: the first step rebuilds the v6 sub-interface; after
    /// that the answer is [`StackAction::AskV4`], and the caller probes IPv4
    /// and calls [`NetGuard::v6_escalate`].
    pub fn tick_v6(&mut self, has_addr: bool, reachable: bool, rounds: u32, now: u64) -> (a: StackAction)
        ensures
            (*final(self), a) == spec_tick_v6(*old(self), has_addr, reachable, rounds, now),
    {
        let due = stack_observe_exec(&mut self.v6, has_addr, reachable, rounds, now);
        if !due {
            return StackAction::Idle;
        }
        self.v6.fail_rounds = 0;
        if self.v6.recover_level < 1 {
            self.v6.recover_level = 1;
            self.v6.last_recover = Some(now);
            return StackAction::Bounce;
        }
        StackAction::AskV4
    }

    /// The IPv6 escalation once IPv4 was probed: an IPv6-only fault never
    /// redials (that would tear down the working stack too), it rebuilds
    /// the v6 sub-interface again; with IPv4 down as well it redials, and
    /// the IPv4 guard starts over with its cooldown running.
    pub fn v6_escalate(&mut self, v4_down: bool, now: u64) -> (a: StackAction)
        ensures
            (*final(self), a) == spec_v6_escalate(*old(self), v4_down, now),
    {
        if !v4_down {
            self.v6.last_recover = Some(now);
            return StackAction::Bounce;
        }
        self.v6.recover_level = inc_exec(self.v6.recover_level);
        self.v6.last_recover = Some(now);
        self.v4.fail_rounds = 0;
        self.v4.recover_level = 0;
        self.v4.last_recover = Some(now);
        StackAction::Redial
    }
}

/// An IPv6 fault never redials while IPv4 works, and the first IPv6 step is
/// always the cheap rebuild.
pub proof fn lemma_v6_never_redials_alone(g: NetGuard, has: bool, ok: bool, rounds: u32, now: u64)
    ensures
        spec_v6_escalate(g, false, now).1 == StackAction::Bounce,
        spec_tick_v6(g, has, ok, rounds, now).1 != StackAction::Redial,
        g.v6.recover_level == 0 && spec_tick_v6(g, has, ok, rounds, now).1 != StackAction::Idle
            ==> spec_tick_v6(g, has, ok, rounds, now).1 == StackAction::Bounce,
{
}

// ---------------------------------------------------------------- conflicts

/// What changed among the other tools' interfaces on the data card.
#[derive(Debug, Clone, PartialEq, Eq)]
pub enum ConflictReport {
    /// Same set as before: nothing to say.
    Unchanged,
    /// The foreign interfaces (listed) are gone.
    Cleared(Vec<String>),
    /// Foreign interfaces (listed) share the data card.
    Conflict(Vec<String>),
}

/// State of the conflict watch: the foreign interfaces last reported.
#[derive(Debug, Clone)]
pub struct ConflictWatch {
    pub last_foreign: Vec<String>,
}

fn same_strings(a: &Vec<String>, b: &Vec<String>) -> (r: bool)
    ensures
        r == (strs(a@) == strs(b@)),
{
    if a.len() != b.len() {
        assert(strs(a@).len() != strs(b@).len());
        return false;
    }
    let mut i: usize = 0;
    while i < a.len()
        invariant
            a@.len() == b@.len(),
            i <= a@.len(),
            forall|j: int| 0 <= j < i ==> a@[j]@ == b@[j]@,
        decreases a.len() - i,
    {
        if !crate::text::str_eq(a[i].as_str(), b[i].as_str()) {
            assert(strs(a@)[i as int] != strs(b@)[i as int]);
            return false;
        }
        i += 1;
    }
    assert(strs(a@) =~= strs(b@));
    true
}

impl ConflictWatch {
    pub fn new() -> (w: ConflictWatch)
        ensures
            w.last_foreign@.len() == 0,
    {
        ConflictWatch { last_foreign: Vec::new() }
    }

    /// One round with the foreign interfaces found on the data card: a
    /// report only when the set changed, so that the log is not flooded.
    pub fn tick(&mut self, foreign: Vec<String>) -> (r: ConflictReport)
        ensures
            strs(final(self).last_foreign@) == strs(foreign@),
            strs(foreign@) == strs(old(self).last_foreign@) ==> r == ConflictReport::Unchanged,
            strs(foreign@) != strs(old(self).last_foreign@) && foreign@.len() == 0 ==> (r matches ConflictReport::Cleared(
                prev,
            ) && strs(prev@) == strs(old(self).last_foreign@)),
            strs(foreign@) != strs(old(self).last_foreign@) && foreign@.len() > 0 ==> (r matches ConflictReport::Conflict(
                now,
            ) && strs(now@) == strs(foreign@)),
    {
        if same_strings(&foreign, &self.last_foreign) {
            self.last_foreign = foreign;
            return ConflictReport::Unchanged;
        }
        if foreign.len() == 0 {
            let prev = self.last_foreign.clone();
            proof {
                assert(prev@ == old(self).last_foreign@);
            }
            self.last_foreign = foreign;
            return ConflictReport::Cleared(prev);
        }
        let now = foreign.clone();
        self.last_foreign = foreign;
        ConflictReport::Conflict(now)
    }
}

} // verus!
