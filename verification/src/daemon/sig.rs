//! The parameter signature round: a bare `uci set` followed by a network
//! restart leaves the daemon's view behind UCI; comparing the signature of
//! the netifd-relevant parameters with the one of the last successful apply
//! finds that, and the interface is applied again as it stands.
//!
//! Two rules: without a recorded signature (first run, `/var/run` emptied by
//! a reboot) only record it, netifd has just brought the interface up from
//! UCI; and a failed apply leaves the old signature, so that the next round
//! tries again.
use crate::config::Config;
use crate::net::gateway::{config_sig, spec_config_sig};
use crate::net::iface::NetStatus;
use vstd::prelude::*;

verus! {

/// What the signature round does.
#[derive(Debug, Clone, PartialEq, Eq)]
pub enum SigStep {
    /// Nothing to do.
    Skip,
    /// No signature recorded yet: record the current one.
    MarkApplied,
    /// Apply again with the interface's first addresses (empty: none); the
    /// gateway and DNS come from UCI as it stands.
    Reapply { ipv4: String, ipv6: String },
}

pub open spec fn first_or_empty(v: Seq<String>) -> Seq<char> {
    if v.len() > 0 {
        v[0]@
    } else {
        seq![]
    }
}

pub open spec fn sig_step_ok(s: SigStep, c: Config, applied: Option<Seq<char>>, st: NetStatus) -> bool {
    if !c.enabled {
        s == SigStep::Skip
    } else {
        match applied {
            None => s == SigStep::MarkApplied,
            Some(p) => if p == spec_config_sig(c) || (st.ipv4@.len() == 0 && st.ipv6@.len() == 0) {
                s == SigStep::Skip
            } else {
                s matches SigStep::Reapply { ipv4, ipv6 } && ipv4@ == first_or_empty(st.ipv4@) && ipv6@
                    == first_or_empty(st.ipv6@)
            },
        }
    }
}

/// The decision, from the recorded signature (`None`: none recorded) and
/// the interface's state. An interface without addresses is the dialling
/// round's business.
pub fn reapply_on_change(cfg: &Config, applied: Option<String>, st: &NetStatus) -> (s: SigStep)
    ensures
        sig_step_ok(s, *cfg, crate::modem::pdp::opt_view(applied), *st),
{
    if !cfg.enabled {
        return SigStep::Skip;
    }
    let prev = match applied {
        None => return SigStep::MarkApplied,
        Some(p) => p,
    };
    let sig = config_sig(cfg);
    if crate::text::str_eq(prev.as_str(), sig.as_str()) {
        return SigStep::Skip;
    }
    if st.ipv4.len() == 0 && st.ipv6.len() == 0 {
        return SigStep::Skip;
    }
    let v4 = if st.ipv4.len() > 0 {
        st.ipv4[0].clone()
    } else {
        String::new()
    };
    let v6 = if st.ipv6.len() > 0 {
        st.ipv6[0].clone()
    } else {
        String::new()
    };
    SigStep::Reapply { ipv4: v4, ipv6: v6 }
}

} // verus!
