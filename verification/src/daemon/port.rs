//! Watching the AT port: a reconfigured port is released, a vanished one is
//! replaced after a few rounds, and other processes holding it are
//! reported. Exclusivity can only be observed: `TIOCEXCL` does not bind
//! root, so `/proc` is the only witness.
use crate::config::Config;
use vstd::prelude::*;

verus! {

/// Rounds the configured port must be missing before another is searched:
/// the node vanishes for a moment while the modem reboots.
pub const AT_RESELECT_DOWN_ROUNDS: u32 = 3;

/// What changed among the other processes holding the AT port.
#[derive(Debug, Clone, PartialEq, Eq)]
pub enum ExclusivityReport {
    /// Same set as before (or the port is not open).
    Unchanged,
    /// The port is exclusive again; the previous holders are listed.
    Restored(Vec<u64>),
    /// Other processes (listed) hold the port.
    Intruded(Vec<u64>),
}

/// State of the AT port watcher.
#[derive(Debug, Clone)]
pub struct PortWatch {
    /// Consecutive rounds the configured port was missing.
    pub down_rounds: u32,
    /// The other holders last reported.
    pub last_intruders: Vec<u64>,
}

impl PortWatch {
    pub fn new() -> (w: PortWatch)
        ensures
            w.down_rounds == 0,
            w.last_intruders@.len() == 0,
    {
        PortWatch { down_rounds: 0, last_intruders: Vec::new() }
    }

    /// Whether the open handle (on `cur`, if any) must be released because
    /// `at_port` now names another path; the next access opens the new one.
    pub fn release_on_change(&self, cur: Option<&str>, cfg: &Config) -> (b: bool)
        ensures
            b == match cur {
                Some(p) => p@ != cfg.at_port@,
                None => false,
            },
    {
        match cur {
            None => false,
            Some(p) => !crate::text::str_eq(p, cfg.at_port.as_str()),
        }
    }

    /// One round with whether the configured port's path exists: `true`
    /// asks the caller to search for another port, after
    /// [`AT_RESELECT_DOWN_ROUNDS`] rounds in a row without it.
    pub fn reselect_if_down(&mut self, exists: bool) -> (b: bool)
        ensures
            exists ==> !b && final(self).down_rounds == 0,
            !exists && old(self).down_rounds < u32::MAX && old(self).down_rounds + 1 >= AT_RESELECT_DOWN_ROUNDS
                ==> b && final(self).down_rounds == 0,
            !exists && old(self).down_rounds < u32::MAX && old(self).down_rounds + 1 < AT_RESELECT_DOWN_ROUNDS
                ==> !b && final(self).down_rounds == old(self).down_rounds + 1,
            !exists && old(self).down_rounds == u32::MAX ==> b && final(self).down_rounds == 0,
            final(self).last_intruders@ == old(self).last_intruders@,
    {
        if exists {
            self.down_rounds = 0;
            return false;
        }
        self.down_rounds = if self.down_rounds == u32::MAX {
            u32::MAX
        } else {
            self.down_rounds + 1
        };
        if self.down_rounds < AT_RESELECT_DOWN_ROUNDS {
            return false;
        }
        self.down_rounds = 0;
        true
    }

    /// One round with whether the port is open and the other processes
    /// holding it: a report only when the set changed.
    pub fn observe_exclusivity(&mut self, open: bool, others: &Vec<u64>) -> (r: ExclusivityReport)
        ensures
            !open || others@ == old(self).last_intruders@ ==> r == ExclusivityReport::Unchanged
                && final(self).last_intruders@ == old(self).last_intruders@,
            open && others@ != old(self).last_intruders@ ==> final(self).last_intruders@ == others@,
            open && others@ != old(self).last_intruders@ && others@.len() == 0 ==> (r matches ExclusivityReport::Restored(
                v,
            ) && v@ == old(self).last_intruders@),
            open && others@ != old(self).last_intruders@ && others@.len() > 0 ==> (r matches ExclusivityReport::Intruded(
                v,
            ) && v@ == others@),
            final(self).down_rounds == old(self).down_rounds,
    {
        if !open || vec_eq(others, &self.last_intruders) {
            return ExclusivityReport::Unchanged;
        }
        let prev = self.last_intruders.clone();
        proof {
            assert(prev@ == old(self).last_intruders@);
        }
        self.last_intruders = others.clone();
        if others.len() == 0 {
            ExclusivityReport::Restored(prev)
        } else {
            let o = others.clone();
            ExclusivityReport::Intruded(o)
        }
    }
}

fn vec_eq(a: &Vec<u64>, b: &Vec<u64>) -> (r: bool)
    ensures
        r == (a@ == b@),
{
    if a.len() != b.len() {
        return false;
    }
    let mut i: usize = 0;
    while i < a.len()
        invariant
            a@.len() == b@.len(),
            i <= a@.len(),
            forall|j: int| 0 <= j < i ==> a@[j] == b@[j],
        decreases a.len() - i,
    {
        if a[i] != b[i] {
            return false;
        }
        i += 1;
    }
    assert(a@ =~= b@);
    true
}

} // verus!
