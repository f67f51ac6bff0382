//! The local JSON API (loopback only, for rpcd and the web page): request
//! decoding and the listening address. The server and its routes belong to
//! the program.
pub mod http;
pub mod route;

use crate::config::Config;
use crate::text::{dec_str, push_dec, push_str};
use vstd::prelude::*;

verus! {

/// The listening address: always the loopback address, whatever the port.
/// The API has no authentication; on the LAN it would hand out AT commands
/// (reading messages, writing the IMEI) to anyone.
pub fn bind_addr(cfg: &Config) -> (r: String)
    ensures
        r@ == "127.0.0.1:"@ + dec_str(cfg.api_port as nat),
{
    let mut s = String::new();
    push_str(&mut s, "127.0.0.1:");
    push_dec(&mut s, cfg.api_port as u64);
    assert(Seq::<char>::empty() + "127.0.0.1:"@ == "127.0.0.1:"@);
    s
}

} // verus!
