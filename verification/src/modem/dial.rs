//! The dial procedure as a sequence of decisions: the caller reads the
//! context, sends the activation, waits and reads again as each step asks,
//! and reports what it read; the procedure says what comes next and how the
//! dial ends.
//!
//! Idempotent: a context that is active with an address of either family is
//! taken as it is, and no second activation is sent (the modem answers a
//! repeated `AT+CGACT=1` with `+CME ERROR: 5847`). After an activation
//! error the context is read again a few times; an address, or at last an
//! active context, still makes the dial a success, and only a real failure
//! reads the preconditions to say why.
use crate::at::parse::has_error;
use crate::modem::pdp::{activation_failure, is_duplicate_activate, reason_parts, spec_ready, Readiness};
use crate::text::{contains_str, join, replace_char};
use vstd::prelude::*;

verus! {

/// Context reads after the activation, each after a wait, before the
/// procedure gives its verdict.
pub const ADDR_POLL_ROUNDS: u32 = 5;

/// The wait between two context reads, in milliseconds.
pub const ADDR_POLL_INTERVAL_MS: u64 = 600;

/// What the caller does next.
#[derive(Debug, PartialEq, Eq)]
pub enum DialStep {
    /// Send the activation and report its answer ([`DialFlow::activated`]).
    Activate,
    /// Read the context now and report it ([`DialFlow::context`]).
    ReadContext,
    /// Wait [`ADDR_POLL_INTERVAL_MS`], read the context and report it.
    PollAgain,
    /// Read the dial preconditions and report them ([`DialFlow::readiness`]).
    ReadReadiness,
    /// The dial succeeded with the context read last.
    Done,
    /// The dial failed with this message.
    Fail(String),
}

/// State of one dial.
pub struct DialFlow {
    /// The activation's answer when it reported an error.
    pub act_error: Option<String>,
    /// Context reads after the activation, beyond the first.
    pub polls: u32,
}

/// The message of a dial whose activation was accepted but that never got
/// an address nor an active context.
pub open spec fn no_address_message() -> Seq<char> {
    "PDP 激活后未取得任何地址（IPv4/IPv6）"@
}

/// The failure message after an activation error answered `resp` and the
/// preconditions read `rd`.
pub open spec fn spec_activation_failure(resp: Seq<char>, rd: Readiness) -> Seq<char> {
    "激活 PDP 失败: "@ + replace_char(resp, '\n', ' ') + (if contains_str(resp, "5847"@) {
        "（模组报告重复激活，但上下文中未取到任何地址）"@
    } else {
        ""@
    }) + (if !spec_ready(rd.sim_ready, rd.cfun, rd.reg_state) {
        "；前置体检："@ + join(reason_parts(rd.sim_ready, rd.cfun, rd.reg_state), "，"@)
    } else {
        ""@
    })
}

impl DialFlow {
    pub fn new() -> (f: DialFlow)
        ensures
            f.act_error is None,
            f.polls == 0,
    {
        DialFlow { act_error: None, polls: 0 }
    }

    /// The context as read before anything is sent: active with an address
    /// ends the dial at once; otherwise the activation is sent.
    pub fn begin(&mut self, active: bool, has_address: bool) -> (s: DialStep)
        ensures
            final(self).act_error == old(self).act_error,
            final(self).polls == old(self).polls,
            s == (if active && has_address {
                DialStep::Done
            } else {
                DialStep::Activate
            }),
    {
        if active && has_address {
            DialStep::Done
        } else {
            DialStep::Activate
        }
    }

    /// The activation's answer: a failed command fails the dial with its
    /// error; an answer that reports an error is kept; either answer is
    /// followed by a context read.
    pub fn activated(&mut self, answer: Result<String, String>) -> (s: DialStep)
        ensures
            final(self).polls == 0,
            match answer {
                Err(e) => s matches DialStep::Fail(m) && m@ == e@,
                Ok(r) => s == DialStep::ReadContext && (if contains_str(r@, "ERROR"@) {
                    final(self).act_error matches Some(k) && k@ == r@
                } else {
                    final(self).act_error is None
                }),
            },
    {
        self.polls = 0;
        match answer {
            Err(e) => DialStep::Fail(e),
            Ok(r) => {
                if has_error(r.as_str()) {
                    self.act_error = Some(r);
                } else {
                    self.act_error = None;
                }
                DialStep::ReadContext
            },
        }
    }

    /// A context read after the activation. While reads remain, an address
    /// ends the dial and its absence asks for another read. After the last
    /// read: following an activation error, an active context succeeds and
    /// an inactive one asks for the preconditions; otherwise the dial fails
    /// only with neither an active context nor an address.
    pub fn context(&mut self, active: bool, has_address: bool) -> (s: DialStep)
        ensures
            final(self).act_error == old(self).act_error,
            old(self).polls < ADDR_POLL_ROUNDS && !has_address ==> s == DialStep::PollAgain
                && final(self).polls == old(self).polls + 1,
            !(old(self).polls < ADDR_POLL_ROUNDS && !has_address) ==> final(self).polls == old(self).polls,
            old(self).polls < ADDR_POLL_ROUNDS && has_address ==> s == DialStep::Done,
            old(self).polls >= ADDR_POLL_ROUNDS && old(self).act_error is Some ==> s == (if active {
                DialStep::Done
            } else {
                DialStep::ReadReadiness
            }),
            old(self).polls >= ADDR_POLL_ROUNDS && old(self).act_error is None ==> (if !active && !has_address {
                s matches DialStep::Fail(m) && m@ == no_address_message()
            } else {
                s == DialStep::Done
            }),
    {
        if self.polls < ADDR_POLL_ROUNDS {
            if has_address {
                DialStep::Done
            } else {
                self.polls = self.polls + 1;
                DialStep::PollAgain
            }
        } else if self.act_error.is_some() {
            if active {
                DialStep::Done
            } else {
                DialStep::ReadReadiness
            }
        } else if !active && !has_address {
            DialStep::Fail(String::from_str("PDP 激活后未取得任何地址（IPv4/IPv6）"))
        } else {
            DialStep::Done
        }
    }

    /// The preconditions read after a failed activation: the dial fails
    /// with the activation's answer, the repeated-activation note and the
    /// missing preconditions.
    pub fn readiness(&self, rd: &Readiness) -> (s: DialStep)
        ensures
            match self.act_error {
                Some(r) => s matches DialStep::Fail(m) && m@ == spec_activation_failure(r@, *rd),
                None => s matches DialStep::Fail(m) && m@ == no_address_message(),
            },
    {
        match &self.act_error {
            Some(r) => {
                let dup = is_duplicate_activate(r.as_str());
                DialStep::Fail(activation_failure(r.as_str(), dup, rd))
            },
            None => DialStep::Fail(String::from_str("PDP 激活后未取得任何地址（IPv4/IPv6）")),
        }
    }
}

} // verus!
