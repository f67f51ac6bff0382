//! Field access shared by the modem queries.
use crate::at::parse::spec_first;
use crate::text::strs;
use vstd::prelude::*;

verus! {

/// The fields after `+XXX:` of the first matching line.
pub fn f(resp: &str, prefix: &str) -> (r: Vec<String>)
    ensures
        strs(r@) == spec_first(resp@, prefix@),
{
    crate::at::session::fields(resp, prefix)
}

} // verus!
