//! Judging what the daemon observes: the firewall's WAN zone, UCI lists,
//! interfaces of other tools on the data card, and whether the data plane
//! is stalled. Reading sysfs, UCI and `ping` is the program's business;
//! these functions take what was read.
use crate::at::port::name_le;
use crate::config::Config;
use crate::modem::pdp::opt_view;
use crate::net::shell::{spec_sq, sq};
use crate::text::{
    chars_of, contains_str, dec_str, lines, lines_range, parse_uint, parse_uint_range,
    push_dec, push_str, range_contains_str, range_eq_str, str_eq,
    string_of_range, strs, trim, trim_range, words, words_range,
};
use vstd::prelude::*;

verus! {

/// Drivers of the RNDIS / ECM / NCM / MBIM data channel. `ccmni` is not
/// among them: that card belongs to the modem's own application side and
/// never shows on the host.
pub const DATA_DRIVERS: [&'static str; 5] = ["rndis_host", "cdc_ether", "cdc_ncm", "qmi_wwan", "mbim"];

/// IPv4 targets of the connectivity check (two public DNS servers: both
/// unreachable means the link, not a target, is down).
pub const NET_CHECK_TARGETS_V4: [&'static str; 2] = ["223.5.5.5", "119.29.29.29"];

/// IPv6 targets of the connectivity check.
pub const NET_CHECK_TARGETS_V6: [&'static str; 2] = ["2400:3200::1", "2402:4e00::"];

// ---------------------------------------------------------------- firewall zone

/// What UCI answered about one firewall zone: its `name` and its `network`
/// list, each with the exit status of `uci -q get`.
#[derive(Debug, Clone)]
pub struct ZoneRead {
    pub name_ok: bool,
    pub name: String,
    pub nets_ok: bool,
    pub nets: String,
}

pub open spec fn zone_is_wan(z: ZoneRead) -> bool {
    z.name_ok && trim(z.name@) == "wan"@
}

pub open spec fn zone_lists_wan(z: ZoneRead) -> bool {
    z.nets_ok && exists|i: int|
        0 <= i < words(z.nets@).len() && (#[trigger] words(z.nets@)[i] == "wan"@ || words(z.nets@)[i]
            == "wan6"@)
}

/// Index of the first zone satisfying `p`, or `-1`.
pub open spec fn first_zone(zs: Seq<ZoneRead>, wan_name: bool) -> int
    decreases zs.len(),
{
    if zs.len() == 0 {
        -1
    } else if (wan_name && zone_is_wan(zs[0])) || (!wan_name && zone_lists_wan(zs[0])) {
        0
    } else {
        let r = first_zone(zs.drop_first(), wan_name);
        if r < 0 {
            -1
        } else {
            r + 1
        }
    }
}

/// The WAN zone: the first zone named `wan`, else the first whose network
/// list holds `wan` or `wan6`. `@zone[0]` is not always WAN (on some
/// routers it is LAN), so the index is searched by name.
pub open spec fn spec_wan_zone_index(zs: Seq<ZoneRead>) -> Option<int> {
    if first_zone(zs, true) >= 0 {
        Some(first_zone(zs, true))
    } else if first_zone(zs, false) >= 0 {
        Some(first_zone(zs, false))
    } else {
        None
    }
}

proof fn lemma_first_zone(zs: Seq<ZoneRead>, wan_name: bool, k: int)
    requires
        0 <= k <= zs.len(),
        forall|j: int|
            0 <= j < k ==> !((wan_name && zone_is_wan(#[trigger] zs[j])) || (!wan_name && zone_lists_wan(
                zs[j],
            ))),
    ensures
        k < zs.len() && ((wan_name && zone_is_wan(zs[k])) || (!wan_name && zone_lists_wan(zs[k])))
            ==> first_zone(zs, wan_name) == k,
        k == zs.len() ==> first_zone(zs, wan_name) == -1,
    decreases k,
{
    if k > 0 {
        let t = zs.drop_first();
        assert forall|j: int| 0 <= j < k - 1 implies !((wan_name && zone_is_wan(#[trigger] t[j])) || (
        !wan_name && zone_lists_wan(t[j]))) by {
            assert(t[j] == zs[j + 1]);
        }
        lemma_first_zone(t, wan_name, k - 1);
        if k < zs.len() {
            assert(t[k - 1] == zs[k]);
        }
    }
}

fn zone_matches(z: &ZoneRead, wan_name: bool) -> (b: bool)
    ensures
        b == ((wan_name && zone_is_wan(*z)) || (!wan_name && zone_lists_wan(*z))),
{
    if wan_name {
        z.name_ok && crate::net::v6::trimmed_is(z.name.as_str(), "wan")
    } else {
        z.nets_ok && (uci_list_contains(true, z.nets.as_str(), "wan") || uci_list_contains(
            true,
            z.nets.as_str(),
            "wan6",
        ))
    }
}

fn find_zone(zones: &Vec<ZoneRead>, wan_name: bool) -> (r: Option<usize>)
    ensures
        match r {
            Some(i) => first_zone(zones@, wan_name) == i as int,
            None => first_zone(zones@, wan_name) == -1,
        },
{
    let mut i: usize = 0;
    while i < zones.len()
        invariant
            i <= zones@.len(),
            forall|j: int|
                0 <= j < i ==> !((wan_name && zone_is_wan(#[trigger] zones@[j])) || (!wan_name
                    && zone_lists_wan(zones@[j]))),
        decreases zones.len() - i,
    {
        if zone_matches(&zones[i], wan_name) {
            proof {
                lemma_first_zone(zones@, wan_name, i as int);
            }
            return Some(i);
        }
        i += 1;
    }
    proof {
        lemma_first_zone(zones@, wan_name, i as int);
    }
    None
}

/// Index of the WAN firewall zone among the zones read from UCI.
pub fn wan_zone_index(zones: &Vec<ZoneRead>) -> (r: Option<usize>)
    ensures
        match r {
            Some(i) => spec_wan_zone_index(zones@) == Some(i as int),
            None => spec_wan_zone_index(zones@) is None,
        },
{
    match find_zone(zones, true) {
        Some(i) => Some(i),
        None => find_zone(zones, false),
    }
}

pub open spec fn spec_zone_count(ok: bool, out: Seq<char>) -> int {
    if !ok {
        0
    } else {
        match parse_uint(trim(out), usize::MAX as int) {
            Some(n) => n,
            None => 0,
        }
    }
}

/// Number of firewall zones from `uci show firewall | grep -c '=zone$'`;
/// a failed or unreadable answer counts as none.
pub fn zone_count(ok: bool, out: &str) -> (n: usize)
    ensures
        n as int == spec_zone_count(ok, out@),
{
    if !ok {
        return 0;
    }
    let v = chars_of(out);
    assert(v@.subrange(0, v@.len() as int) == v@);
    let (a, b) = trim_range(&v, 0, v.len());
    match parse_uint_range(&v, a, b, usize::MAX as u64) {
        Some(n) => n as usize,
        None => 0,
    }
}

pub open spec fn spec_uci_list_contains(ok: bool, out: Seq<char>, item: Seq<char>) -> bool {
    ok && words(out).contains(item)
}

/// Whether a UCI list (the answer to `uci -q get <key>`, with its exit
/// status) already holds `item`, so that `add_list` stays idempotent.
pub fn uci_list_contains(ok: bool, out: &str, item: &str) -> (b: bool)
    ensures
        b == spec_uci_list_contains(ok, out@, item@),
{
    if !ok {
        return false;
    }
    let v = chars_of(out);
    assert(v@.subrange(0, v@.len() as int) == v@);
    let ws = words_range(&v, 0, v.len());
    let mut k: usize = 0;
    while k < ws.len()
        invariant
            ok,
            v@ == out@,
            ws@.len() == words(v@).len(),
            forall|j: int|
                0 <= j < ws@.len() ==> 0 <= (#[trigger] ws@[j]).0 <= ws@[j].1 <= v@.len()
                    && v@.subrange(ws@[j].0 as int, ws@[j].1 as int) == words(v@)[j],
            k <= ws@.len(),
            forall|j: int| 0 <= j < k ==> words(v@)[j] != item@,
        decreases ws.len() - k,
    {
        let (a, b) = ws[k];
        if range_eq_str(&v, a, b, item) {
            assert(words(out@)[k as int] == item@);
            return true;
        }
        k += 1;
    }
    false
}

// ---------------------------------------------------------------- other interfaces

pub open spec fn spec_foreign_script(dev: Seq<char>) -> Seq<char> {
    "for s in $(uci -q show network 2>/dev/null | sed -n 's/^network\\.\\([^.=]*\\)=interface$/\\1/p'); do d=$(uci -q get network.$s.device 2>/dev/null); [ -z \"$d\" ] && d=$(uci -q get network.$s.ifname 2>/dev/null); [ \"$d\" = "@
        + spec_sq(dev) + " ] && echo \"$s\"; done"@
}

/// The shell loop that lists the UCI interfaces bound to `dev`.
pub fn foreign_ifaces_script(dev: &str) -> (r: String)
    ensures
        r@ == spec_foreign_script(dev@),
{
    let mut s = String::new();
    push_str(
        &mut s,
        "for s in $(uci -q show network 2>/dev/null | sed -n 's/^network\\.\\([^.=]*\\)=interface$/\\1/p'); do d=$(uci -q get network.$s.device 2>/dev/null); [ -z \"$d\" ] && d=$(uci -q get network.$s.ifname 2>/dev/null); [ \"$d\" = ",
    );
    let q = sq(dev);
    push_str(&mut s, q.as_str());
    push_str(&mut s, " ] && echo \"$s\"; done");
    proof {
        let p = "for s in $(uci -q show network 2>/dev/null | sed -n 's/^network\\.\\([^.=]*\\)=interface$/\\1/p'); do d=$(uci -q get network.$s.device 2>/dev/null); [ -z \"$d\" ] && d=$(uci -q get network.$s.ifname 2>/dev/null); [ \"$d\" = "@;
        assert(Seq::<char>::empty() + p == p);
    }
    s
}

/// The interface names of the script's output that are not this daemon's.
pub open spec fn foreign_of(ls: Seq<Seq<char>>, iface: Seq<char>, iface6: Seq<char>) -> Seq<Seq<char>>
    decreases ls.len(),
{
    if ls.len() == 0 {
        seq![]
    } else {
        let rest = foreign_of(ls.drop_last(), iface, iface6);
        let n = trim(ls.last());
        if n.len() > 0 && n != iface && n != iface6 {
            rest.push(n)
        } else {
            rest
        }
    }
}

/// Interfaces of other tools on the data card (for example ModemManager's):
/// two daemons driving one modem keep interrupting each other until the
/// data endpoint stalls.
pub fn foreign_ifaces_on_dev(cfg: &Config, out: &str) -> (r: Vec<String>)
    ensures
        strs(r@) == foreign_of(lines(out@), cfg.iface@, cfg.iface_v6@),
{
    let v = chars_of(out);
    assert(v@.subrange(0, v@.len() as int) == v@);
    let ls = lines_range(&v, 0, v.len());
    let ghost all = lines(v@);
    let mut r: Vec<String> = Vec::new();
    let mut k: usize = 0;
    while k < ls.len()
        invariant
            v@ == out@,
            all == lines(v@),
            ls@.len() == all.len(),
            forall|j: int|
                0 <= j < ls@.len() ==> 0 <= (#[trigger] ls@[j]).0 <= ls@[j].1 <= v@.len()
                    && v@.subrange(ls@[j].0 as int, ls@[j].1 as int) == all[j],
            k <= ls@.len(),
            strs(r@) == foreign_of(all.take(k as int), cfg.iface@, cfg.iface_v6@),
        decreases ls.len() - k,
    {
        let (a, b) = ls[k];
        let (a1, b1) = trim_range(&v, a, b);
        proof {
            assert(all.take(k + 1).drop_last() == all.take(k as int));
            assert(all.take(k + 1).last() == all[k as int]);
        }
        if a1 < b1 {
            let n = string_of_range(&v, a1, b1);
            if !str_eq(n.as_str(), cfg.iface.as_str()) && !str_eq(n.as_str(), cfg.iface_v6.as_str()) {
                let ghost before = r@;
                r.push(n);
                assert(strs(r@) =~= strs(before).push(n@));
            }
        }
        k += 1;
    }
    assert(all.take(all.len() as int) == all);
    r
}

// ---------------------------------------------------------------- data plane

/// Counters of the data card, and whether a probe packet was sent just
/// before they were read.
#[derive(Debug, Default, Clone, Copy, PartialEq, Eq, Structural)]
pub struct DataHealth {
    pub rx_packets: u64,
    pub tx_packets: u64,
    pub tx_errors: u64,
    /// Only with a probe sent may a frozen queue be told from an idle link.
    pub probe_sent: bool,
}

pub open spec fn spec_stalled(prev: DataHealth, cur: DataHealth) -> bool {
    ||| (cur.tx_errors > prev.tx_errors && cur.tx_packets <= prev.tx_packets)
    ||| (cur.probe_sent && cur.tx_packets <= prev.tx_packets && cur.tx_errors <= prev.tx_errors)
}

/// Whether the USB data endpoint is stalled, from two readings. Two shapes
/// count: errors grow while no packet leaves (struggling), or, with a probe
/// sent, neither counter moves at all (frozen queue). A silent receive side
/// proves nothing: an idle link has no downstream traffic.
pub fn data_plane_stalled(prev: &DataHealth, cur: &DataHealth) -> (b: bool)
    ensures
        b == spec_stalled(*prev, *cur),
{
    let struggling = cur.tx_errors > prev.tx_errors && cur.tx_packets <= prev.tx_packets;
    let frozen = cur.probe_sent && cur.tx_packets <= prev.tx_packets && cur.tx_errors <= prev.tx_errors;
    struggling || frozen
}

/// Packets leaving the card never count as a stall, and without a probe
/// unchanged counters are an idle link.
pub proof fn lemma_stall_needs_evidence(prev: DataHealth, cur: DataHealth)
    ensures
        cur.tx_packets > prev.tx_packets ==> !spec_stalled(prev, cur),
        !cur.probe_sent && cur.tx_errors <= prev.tx_errors ==> !spec_stalled(prev, cur),
{
}

// ---------------------------------------------------------------- data card

/// One network interface as sysfs shows it: its name, the name of its
/// driver (empty when none), and the `idVendor` of its USB device.
#[derive(Debug, Clone)]
pub struct NetIface {
    pub name: String,
    pub driver: String,
    pub vid: Option<String>,
}

/// Names tried, in order, when no interface has a data-channel driver.
pub const FALLBACK_DEVS: [&'static str; 4] = ["eth2", "eth3", "wwan0", "usb0"];

/// Whether the driver is one of [`DATA_DRIVERS`] (by substring).
pub open spec fn is_data_driver(d: Seq<char>) -> bool {
    contains_str(d, "rndis_host"@) || contains_str(d, "cdc_ether"@) || contains_str(d, "cdc_ncm"@)
        || contains_str(d, "qmi_wwan"@) || contains_str(d, "mbim"@)
}

/// A data-channel interface; with `fib`, one whose USB vendor is Fibocom.
pub open spec fn dev_candidate(x: NetIface, fib: bool) -> bool {
    is_data_driver(x.driver@) && (fib ==> (x.vid matches Some(v) && v@ == "2cb7"@))
}

/// `n` is the least name (in the order of `str`) among the candidates.
pub open spec fn least_candidate(ifs: Seq<NetIface>, fib: bool, n: Seq<char>) -> bool {
    &&& exists|i: int| 0 <= i < ifs.len() && dev_candidate(#[trigger] ifs[i], fib) && ifs[i].name@ == n
    &&& forall|j: int| 0 <= j < ifs.len() && dev_candidate(#[trigger] ifs[j], fib) ==> name_le(n, ifs[j].name@)
}

pub open spec fn has_candidate(ifs: Seq<NetIface>, fib: bool) -> bool {
    exists|i: int| 0 <= i < ifs.len() && dev_candidate(#[trigger] ifs[i], fib)
}

/// The first fallback name that exists (`exists[k]` for `FALLBACK_DEVS[k]`).
pub open spec fn fallback_of(exists: Seq<bool>) -> Option<Seq<char>> {
    if exists.len() > 0 && exists[0] {
        Some("eth2"@)
    } else if exists.len() > 1 && exists[1] {
        Some("eth3"@)
    } else if exists.len() > 2 && exists[2] {
        Some("wwan0"@)
    } else if exists.len() > 3 && exists[3] {
        Some("usb0"@)
    } else {
        None
    }
}

fn least_dev(ifs: &Vec<NetIface>, fib: bool) -> (r: Option<String>)
    ensures
        match r {
            Some(n) => least_candidate(ifs@, fib, n@),
            None => !has_candidate(ifs@, fib),
        },
{
    let mut best: Option<String> = None;
    let mut i: usize = 0;
    while i < ifs.len()
        invariant
            i <= ifs@.len(),
            match best {
                Some(n) => least_candidate(ifs@.take(i as int), fib, n@),
                None => !has_candidate(ifs@.take(i as int), fib),
            },
        decreases ifs.len() - i,
    {
        let ghost gbest = best;
        let x = &ifs[i];
        let drv = chars_of(x.driver.as_str());
        assert(drv@.subrange(0, drv@.len() as int) == drv@);
        let data = range_contains_str(&drv, 0, drv.len(), "rndis_host") || range_contains_str(&drv, 0, drv.len(), "cdc_ether")
            || range_contains_str(&drv, 0, drv.len(), "cdc_ncm") || range_contains_str(&drv, 0, drv.len(), "qmi_wwan")
            || range_contains_str(&drv, 0, drv.len(), "mbim");
        let vid_ok = match &x.vid {
            Some(v) => str_eq(v.as_str(), "2cb7"),
            None => false,
        };
        let cand = data && (!fib || vid_ok);
        let ghost pre = ifs@.take(i as int);
        let ghost post = ifs@.take(i + 1);
        assert(post == pre.push(ifs@[i as int]));
        assert(cand == dev_candidate(ifs@[i as int], fib));
        if cand {
            let take = match &best {
                Some(b) => !crate::at::port::name_le_exec(b.as_str(), x.name.as_str()),
                None => true,
            };
            if take {
                proof {
                    match gbest {
                        Some(b) => {
                            crate::at::port::lemma_name_le_total(b@, x.name@);
                            assert forall|j: int| 0 <= j < post.len() && dev_candidate(#[trigger] post[j], fib)
                                implies name_le(x.name@, post[j].name@) by {
                                if j < i {
                                    assert(post[j] == pre[j]);
                                    crate::at::port::lemma_name_le_trans(x.name@, b@, post[j].name@);
                                } else {
                                    crate::at::port::lemma_name_le_total(x.name@, x.name@);
                                }
                            }
                        },
                        None => {
                            assert forall|j: int| 0 <= j < post.len() && dev_candidate(#[trigger] post[j], fib)
                                implies name_le(x.name@, post[j].name@) by {
                                if j < i {
                                    assert(post[j] == pre[j]);
                                    assert(has_candidate(pre, fib));
                                } else {
                                    crate::at::port::lemma_name_le_total(x.name@, x.name@);
                                }
                            }
                        },
                    }
                    assert(post[i as int] == ifs@[i as int]);
                }
                best = Some(x.name.clone());
            } else {
                proof {
                    let b = gbest->0;
                    let w = choose|k: int| 0 <= k < pre.len() && dev_candidate(#[trigger] pre[k], fib) && pre[k].name@ == b@;
                    assert(post[w] == pre[w]);
                    assert forall|j: int| 0 <= j < post.len() && dev_candidate(#[trigger] post[j], fib)
                        implies name_le(b@, post[j].name@) by {
                        if j < i {
                            assert(post[j] == pre[j]);
                        }
                    }
                }
            }
        } else {
            proof {
                match gbest {
                    Some(b) => {
                        let w = choose|k: int| 0 <= k < pre.len() && dev_candidate(#[trigger] pre[k], fib) && pre[k].name@ == b@;
                        assert(post[w] == pre[w]);
                        assert forall|j: int| 0 <= j < post.len() && dev_candidate(#[trigger] post[j], fib)
                            implies name_le(b@, post[j].name@) by {
                            if j < i {
                                assert(post[j] == pre[j]);
                            }
                        }
                    },
                    None => {
                        if has_candidate(post, fib) {
                            let w = choose|k: int| 0 <= k < post.len() && dev_candidate(#[trigger] post[k], fib);
                            assert(w < i);
                            assert(post[w] == pre[w]);
                        }
                    },
                }
            }
        }
        i += 1;
    }
    assert(ifs@.take(ifs@.len() as int) == ifs@);
    best
}

/// The data card: the configured `data_dev` unless it is `auto` or empty;
/// else among the interfaces with a data-channel driver the least name of
/// a Fibocom one, else the least name of any; else the first of
/// [`FALLBACK_DEVS`] that exists; else none. The least name is the first
/// after sorting, so the choice does not depend on the order of `readdir`.
pub fn detect_dev(cfg: &Config, ifs: &Vec<NetIface>, exists: &Vec<bool>) -> (r: Option<String>)
    ensures
        cfg.data_dev@ != "auto"@ && cfg.data_dev@.len() > 0 ==> r == Some(cfg.data_dev),
        !(cfg.data_dev@ != "auto"@ && cfg.data_dev@.len() > 0) ==> {
            if has_candidate(ifs@, true) {
                r matches Some(n) && least_candidate(ifs@, true, n@)
            } else if has_candidate(ifs@, false) {
                r matches Some(n) && least_candidate(ifs@, false, n@)
            } else {
                opt_view(r) == fallback_of(exists@)
            }
        },
{
    if !str_eq(cfg.data_dev.as_str(), "auto") && !cfg.data_dev.as_str().is_empty() {
        return Some(cfg.data_dev.clone());
    }
    match least_dev(ifs, true) {
        Some(n) => {
            return Some(n);
        },
        None => {},
    }
    match least_dev(ifs, false) {
        Some(n) => {
            return Some(n);
        },
        None => {},
    }
    if exists.len() > 0 && exists[0] {
        Some(String::from_str("eth2"))
    } else if exists.len() > 1 && exists[1] {
        Some(String::from_str("eth3"))
    } else if exists.len() > 2 && exists[2] {
        Some(String::from_str("wwan0"))
    } else if exists.len() > 3 && exists[3] {
        Some(String::from_str("usb0"))
    } else {
        None
    }
}

/// `ping` of one target through the card, quiet, with its timeout (s).
pub open spec fn ping_line(cmd: Seq<char>, dev: Seq<char>, target: Seq<char>, timeout: u32) -> Seq<char> {
    cmd + " -c 1 -W "@ + dec_str(timeout as nat) + " -I "@ + dev + " "@ + target + " >/dev/null 2>&1"@
}

fn ping_line_exec(cmd: &str, dev: &str, target: &str, timeout: u32) -> (r: String)
    ensures
        r@ == ping_line(cmd@, dev@, target@, timeout),
{
    let mut s = String::new();
    push_str(&mut s, cmd);
    push_str(&mut s, " -c 1 -W ");
    push_dec(&mut s, timeout as u64);
    push_str(&mut s, " -I ");
    push_str(&mut s, dev);
    push_str(&mut s, " ");
    push_str(&mut s, target);
    push_str(&mut s, " >/dev/null 2>&1");
    proof {
        assert(Seq::<char>::empty() + cmd@ == cmd@);
    }
    s
}

/// The commands that check one target through the card, tried in order
/// until one succeeds: `ping` bound to the card (another WAN with a better
/// metric would otherwise answer for it), then, for an IPv6 target,
/// `ping6` for old BusyBox builds without IPv6 in `ping`.
pub fn ping_commands(dev: &str, target: &str, timeout: u32) -> (r: Vec<String>)
    ensures
        strs(r@) == if target@.contains(':') {
            seq![ping_line("ping"@, dev@, target@, timeout), ping_line("ping6"@, dev@, target@, timeout)]
        } else {
            seq![ping_line("ping"@, dev@, target@, timeout)]
        },
{
    let mut r: Vec<String> = Vec::new();
    r.push(ping_line_exec("ping", dev, target, timeout));
    let t = chars_of(target);
    assert(t@.subrange(0, t@.len() as int) == t@);
    if crate::text::contains_char_range(&t, 0, t.len(), ':') {
        r.push(ping_line_exec("ping6", dev, target, timeout));
    }
    assert(strs(r@) =~= if target@.contains(':') {
        seq![ping_line("ping"@, dev@, target@, timeout), ping_line("ping6"@, dev@, target@, timeout)]
    } else {
        seq![ping_line("ping"@, dev@, target@, timeout)]
    });
    r
}

} // verus!
