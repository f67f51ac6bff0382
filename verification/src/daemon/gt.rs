//! EIF events: `+GT*` URCs taken from the AT reader's queue make the next
//! round come sooner. Nothing is configured here: address checks stay with
//! the dialling round, which keeps its debouncing and idempotence; an event
//! only shortens the sleep before it.
use crate::at::urc::{GtEvent, GtEventView};
use crate::config::Config;
use crate::daemon::elapsed;
use vstd::prelude::*;

verus! {

/// Sleep of an accelerated round, in seconds.
pub const ACCEL_SLEEP: u64 = 5;

/// Minimum time between two accelerations, in seconds: events come in
/// bursts (cell change, RA refresh, address churn).
pub const ACCEL_COOLDOWN: u64 = 60;

/// State of the EIF watcher.
#[derive(Debug, Clone, Copy, PartialEq, Eq, Structural)]
pub struct GtWatch {
    /// When the last acceleration was asked for (milliseconds).
    pub last_accel: Option<u64>,
    /// This round asked for acceleration (cleared once its sleep is taken).
    pub accel_pending: bool,
}

/// An event that asks for a quicker round: an address added or removed, or
/// a missing router advertisement.
pub open spec fn accel_event(e: GtEventView) -> bool {
    match e {
        GtEventView::IfAddr { reason, .. } => reason == "ipadd"@ || reason == "ipdel"@,
        GtEventView::Nora(_) => true,
        _ => false,
    }
}

pub open spec fn spec_cooldown_over(last: Option<u64>, now: u64) -> bool {
    match last {
        None => true,
        Some(t) => elapsed(now, t) / 1000 >= ACCEL_COOLDOWN,
    }
}

pub open spec fn spec_gt_tick(w: GtWatch, eif_guard: bool, events: Seq<GtEventView>, now: u64) -> GtWatch {
    if events.len() == 0 {
        GtWatch { accel_pending: false, ..w }
    } else if eif_guard && spec_cooldown_over(w.last_accel, now) && exists|i: int|
        0 <= i < events.len() && accel_event(#[trigger] events[i]) {
        GtWatch { last_accel: Some(now), accel_pending: true }
    } else {
        w
    }
}

impl GtWatch {
    pub fn new() -> (w: GtWatch)
        ensures
            w.last_accel is None,
            !w.accel_pending,
    {
        GtWatch { last_accel: None, accel_pending: false }
    }

    /// Whether the acceleration cooldown is over (never accelerated counts
    /// as over).
    pub fn cooldown_over(&self, now: u64) -> (b: bool)
        ensures
            b == spec_cooldown_over(self.last_accel, now),
    {
        match self.last_accel {
            None => true,
            Some(t) => crate::daemon::elapsed_exec(now, t) / 1000 >= ACCEL_COOLDOWN,
        }
    }

    /// Takes a batch of events; returns whether this round is accelerated.
    /// An empty batch clears the request; address events and missing-RA
    /// events ask for one when `eif_guard` is on and the cooldown is over.
    pub fn tick(&mut self, cfg: &Config, events: &Vec<GtEvent>, now: u64) -> (b: bool)
        ensures
            *final(self) == spec_gt_tick(*old(self), cfg.eif_guard, events@.map_values(|e: GtEvent| e@), now),
            b == final(self).accel_pending,
    {
        let ghost evs = events@.map_values(|e: GtEvent| e@);
        if events.len() == 0 {
            self.accel_pending = false;
            return false;
        }
        let over = self.cooldown_over(now);
        let mut any = false;
        let mut i: usize = 0;
        while i < events.len()
            invariant
                i <= events@.len(),
                evs == events@.map_values(|e: GtEvent| e@),
                any == exists|j: int| 0 <= j < i && accel_event(#[trigger] evs[j]),
            decreases events.len() - i,
        {
            let hit = match &events[i] {
                GtEvent::IfAddr { reason, .. } => crate::text::str_eq(reason.as_str(), "ipadd")
                    || crate::text::str_eq(reason.as_str(), "ipdel"),
                GtEvent::Nora(_) => true,
                _ => false,
            };
            assert(hit == accel_event(evs[i as int]));
            any = any || hit;
            i += 1;
        }
        if any && cfg.eif_guard && over {
            self.last_accel = Some(now);
            self.accel_pending = true;
        }
        self.accel_pending
    }

    /// The sleep of this round, in seconds: at most [`ACCEL_SLEEP`] when
    /// accelerated.
    pub fn sleep_interval(&self, normal: u64) -> (r: u64)
        ensures
            r == (if self.accel_pending && ACCEL_SLEEP < normal {
                ACCEL_SLEEP
            } else {
                normal
            }),
    {
        if self.accel_pending && ACCEL_SLEEP < normal {
            ACCEL_SLEEP
        } else {
            normal
        }
    }

    /// The acceleration was used.
    pub fn consume_accel(&mut self)
        ensures
            *final(self) == (GtWatch { accel_pending: false, ..*old(self) }),
    {
        self.accel_pending = false;
    }
}

/// Two accelerations are at least [`ACCEL_COOLDOWN`] apart: a round that
/// asked for one less than that after the previous leaves the time of the
/// previous in place.
pub proof fn lemma_accel_cooldown(w: GtWatch, eif: bool, events: Seq<GtEventView>, now: u64)
    requires
        w.last_accel matches Some(t) && elapsed(now, t) / 1000 < ACCEL_COOLDOWN,
    ensures
        spec_gt_tick(w, eif, events, now).last_accel == w.last_accel,
{
}

/// The watcher after a sequence of rounds, each with its batch of events
/// and its time; `consume` says whether the round's sleep was taken
/// ([`GtWatch::consume_accel`]) after it.
pub open spec fn gt_rounds(w: GtWatch, eif_guard: bool, rounds: Seq<(Seq<GtEventView>, u64, bool)>) -> GtWatch
    decreases rounds.len(),
{
    if rounds.len() == 0 {
        w
    } else {
        let (events, now, consume) = rounds[0];
        let w1 = spec_gt_tick(w, eif_guard, events, now);
        let w2 = if consume {
            GtWatch { accel_pending: false, ..w1 }
        } else {
            w1
        };
        gt_rounds(w2, eif_guard, rounds.drop_first())
    }
}

/// Without `eif_guard`, no event ever shortens the poll: from a watcher
/// with no pending acceleration (as [`GtWatch::new`] makes it), every
/// round's tick answers `false` and [`GtWatch::sleep_interval`] keeps the
/// normal interval, whatever events arrive and whenever.
pub proof fn lemma_no_accel_without_eif_guard(w: GtWatch, rounds: Seq<(Seq<GtEventView>, u64, bool)>)
    requires
        !w.accel_pending,
    ensures
        !gt_rounds(w, false, rounds).accel_pending,
        forall|i: int|
            0 <= i < rounds.len() ==> !spec_gt_tick(
                #[trigger] gt_rounds(w, false, rounds.take(i)),
                false,
                rounds[i].0,
                rounds[i].1,
            ).accel_pending,
    decreases rounds.len(),
{
    if rounds.len() > 0 {
        let (events, now, consume) = rounds[0];
        let w1 = spec_gt_tick(w, false, events, now);
        let w2 = if consume {
            GtWatch { accel_pending: false, ..w1 }
        } else {
            w1
        };
        lemma_no_accel_without_eif_guard(w2, rounds.drop_first());
        assert forall|i: int| 0 <= i < rounds.len() implies !spec_gt_tick(
            #[trigger] gt_rounds(w, false, rounds.take(i)),
            false,
            rounds[i].0,
            rounds[i].1,
        ).accel_pending by {
            if i > 0 {
                let r = rounds.drop_first();
                assert(rounds.take(i).drop_first() =~= r.take(i - 1));
                assert(rounds.take(i)[0] == rounds[0]);
                assert(gt_rounds(w, false, rounds.take(i)) == gt_rounds(w2, false, r.take(i - 1)));
                assert(r[i - 1] == rounds[i]);
            } else {
                assert(rounds.take(0).len() == 0);
            }
        }
    }
}

} // verus!
