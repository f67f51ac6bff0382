//! The UCI skeleton of the cellular interfaces, their firewall zone, and
//! the running state read back from `ip`.
//!
//! Two shapes fixed by the modem's behaviour:
//! 1. the IPv6 sub-interface is never written as a `/128` except in static
//!    mode (`AT+CGPADDR` carries no prefix length and, after a context is
//!    deactivated, still answers the previous session's address);
//! 2. in RA mode a router solicitation is sent as soon as the interface is
//!    up, instead of waiting for the next periodic RA.
use crate::config::Config;
use crate::modem::pdp::opt_view;
use crate::net::gateway::{in_same_subnet, plan_gateway, spec_in_same_subnet, spec_plan_gateway};
use crate::net::probe::{spec_uci_list_contains, uci_list_contains};
use crate::net::shell::{spec_sq, sq};
use crate::net::v6::{
    enable_v6_ra, push_cmd, push_cmd2, push_cmd4, push_cmd5, spec_enable_v6_ra, spec_usable_global_v6, spec_v6_dhcp_mode,
    spec_v6_managed, spec_v6_ra_mode, usable_global_v6_from_addr_line, v6_dhcp_mode, v6_managed,
    v6_ra_mode,
};
use crate::text::{dec_str, dec_string, join, join_strings, push_dec, push_str,
    chars_of, find_str, find_str_range, lines, lines_range, range_eq_str, range_starts_with_str,
    split_char, split_range, starts_with, string_of_range, strs, trim, trim_range, words, words_of,
    words_range,
};
use vstd::prelude::*;

verus! {

/// Running state of the cellular interfaces, for the web page and the
/// daemon's checks.
#[derive(Debug, Default, Clone)]
pub struct NetStatus {
    pub iface: String,
    pub iface_v6: String,
    pub dev: Option<String>,
    pub ipv4: Vec<String>,
    pub ipv6: Vec<String>,
    pub routes: Vec<String>,
    pub up: bool,
    /// A default route on the data card (IPv4, `ip route show dev`).
    pub default4: bool,
    /// A default route through the data card in the whole IPv6 table.
    pub default6: bool,
    /// The DNS list UCI holds for the interface.
    pub dns: Vec<String>,
}

/// The IPv4 of an `ip -o addr` line: the first word after `inet `, without
/// its prefix length.
pub open spec fn v4_of_line(l: Seq<char>) -> Option<Seq<char>> {
    let p = find_str(l, "inet "@);
    if p < 0 {
        None
    } else {
        let ws = words(l.skip(p + "inet "@.len()));
        if ws.len() == 0 {
            None
        } else {
            let ip = split_char(ws[0], '/')[0];
            if ip.len() == 0 {
                None
            } else {
                Some(ip)
            }
        }
    }
}

/// The addresses found in the lines, in order (IPv4 with `v6 == false`,
/// still-valid global IPv6 otherwise).
pub open spec fn addrs_of(ls: Seq<Seq<char>>, v6: bool) -> Seq<Seq<char>>
    decreases ls.len(),
{
    if ls.len() == 0 {
        seq![]
    } else {
        let rest = addrs_of(ls.drop_last(), v6);
        let x = if v6 {
            spec_usable_global_v6(ls.last())
        } else {
            v4_of_line(ls.last())
        };
        match x {
            Some(a) => rest.push(a),
            None => rest,
        }
    }
}

/// `dev <d>` among the words.
pub open spec fn has_dev_pair(ws: Seq<Seq<char>>, d: Seq<char>) -> bool {
    exists|i: int| 0 <= i && i + 1 < ws.len() && #[trigger] ws[i] == "dev"@ && ws[i + 1] == d
}

/// A default route through `d` (words compared whole: `dev eth2` must not
/// match `dev eth22`).
pub open spec fn default6_line(l: Seq<char>, d: Seq<char>) -> bool {
    let ws = words(l);
    ws.len() > 0 && ws[0] == "default"@ && has_dev_pair(ws, d)
}

pub open spec fn status_ok(
    st: NetStatus,
    c: Config,
    dev: Option<Seq<char>>,
    addrs: Seq<char>,
    routes: Seq<char>,
    routes6: Seq<char>,
    dns_ok: bool,
    dns_out: Seq<char>,
) -> bool {
    &&& st.iface@ == c.iface@
    &&& st.iface_v6@ == c.iface_v6@
    &&& opt_view(st.dev) == dev
    &&& strs(st.dns@) == (if dns_ok {
        words(dns_out)
    } else {
        seq![]
    })
    &&& match dev {
        Some(d) => {
            &&& strs(st.ipv4@) == addrs_of(lines(addrs), false)
            &&& strs(st.ipv6@) == addrs_of(lines(addrs), true)
            &&& strs(st.routes@) == lines(routes).map_values(|l: Seq<char>| trim(l))
            &&& st.default4 == exists|i: int|
                0 <= i < lines(routes).len() && starts_with(trim(#[trigger] lines(routes)[i]), "default"@)
            &&& st.default6 == exists|i: int|
                0 <= i < lines(routes6).len() && default6_line(#[trigger] lines(routes6)[i], d)
            &&& st.up == (st.ipv4@.len() > 0 || st.ipv6@.len() > 0)
        },
        None => {
            &&& st.ipv4@.len() == 0
            &&& st.ipv6@.len() == 0
            &&& st.routes@.len() == 0
            &&& !st.up
            &&& !st.default4
            &&& !st.default6
        },
    }
}

fn v4_in_line(v: &Vec<char>, lo: usize, hi: usize) -> (r: Option<String>)
    requires
        lo <= hi <= v@.len(),
    ensures
        opt_view(r) == v4_of_line(v@.subrange(lo as int, hi as int)),
{
    let ghost line = v@.subrange(lo as int, hi as int);
    let pat = chars_of("inet ");
    let p = match find_str_range(v, lo, hi, &pat) {
        Some(p) => p,
        None => return None,
    };
    proof {
        crate::text::lemma_find_str_occurs(line, pat@);
        assert(line.skip(p + pat@.len()) =~= v@.subrange(lo + p + pat@.len(), hi as int));
    }
    let start = lo + p + pat.len();
    let ws = words_range(v, start, hi);
    if ws.len() == 0 {
        return None;
    }
    let (a, b) = ws[0];
    let pieces = split_range(v, a, b, '/');
    assert(pieces@.len() > 0) by {
        crate::text::lemma_split_char_nonempty(v@.subrange(a as int, b as int), '/');
    }
    let (c, d) = pieces[0];
    if c == d {
        return None;
    }
    Some(string_of_range(v, c, d))
}

/// The addresses of `ip -o addr show dev <dev>`.
fn addrs_in(out: &str, v6: bool) -> (r: Vec<String>)
    ensures
        strs(r@) == addrs_of(lines(out@), v6),
{
    let v = chars_of(out);
    assert(v@.subrange(0, v@.len() as int) == v@);
    let ls = lines_range(&v, 0, v.len());
    let ghost all = lines(v@);
    let mut r: Vec<String> = Vec::new();
    let mut k: usize = 0;
    while k < ls.len()
        invariant
            v@ == out@,
            all == lines(v@),
            ls@.len() == all.len(),
            forall|j: int|
                0 <= j < ls@.len() ==> 0 <= (#[trigger] ls@[j]).0 <= ls@[j].1 <= v@.len()
                    && v@.subrange(ls@[j].0 as int, ls@[j].1 as int) == all[j],
            k <= ls@.len(),
            strs(r@) == addrs_of(all.take(k as int), v6),
        decreases ls.len() - k,
    {
        let (a, b) = ls[k];
        proof {
            assert(all.take(k + 1).drop_last() == all.take(k as int));
            assert(all.take(k + 1).last() == all[k as int]);
        }
        let x = if v6 {
            let line = string_of_range(&v, a, b);
            usable_global_v6_from_addr_line(line.as_str())
        } else {
            v4_in_line(&v, a, b)
        };
        match x {
            Some(ip) => {
                let ghost before = r@;
                r.push(ip);
                assert(strs(r@) =~= strs(before).push(ip@));
            },
            None => {},
        }
        k += 1;
    }
    assert(all.take(all.len() as int) == all);
    r
}

/// The trimmed lines of `ip route show dev <dev>`, and whether one is a
/// default route.
fn route_lines(out: &str) -> (r: (Vec<String>, bool))
    ensures
        strs(r.0@) == lines(out@).map_values(|l: Seq<char>| trim(l)),
        r.1 == exists|i: int|
            0 <= i < lines(out@).len() && starts_with(trim(#[trigger] lines(out@)[i]), "default"@),
{
    let v = chars_of(out);
    assert(v@.subrange(0, v@.len() as int) == v@);
    let ls = lines_range(&v, 0, v.len());
    let ghost all = lines(v@);
    let mut r: Vec<String> = Vec::new();
    let mut dflt = false;
    let mut k: usize = 0;
    while k < ls.len()
        invariant
            v@ == out@,
            all == lines(v@),
            ls@.len() == all.len(),
            forall|j: int|
                0 <= j < ls@.len() ==> 0 <= (#[trigger] ls@[j]).0 <= ls@[j].1 <= v@.len()
                    && v@.subrange(ls@[j].0 as int, ls@[j].1 as int) == all[j],
            k <= ls@.len(),
            strs(r@) == all.take(k as int).map_values(|l: Seq<char>| trim(l)),
            dflt == exists|i: int| 0 <= i < k && starts_with(trim(#[trigger] all[i]), "default"@),
        decreases ls.len() - k,
    {
        let (a, b) = ls[k];
        let (a1, b1) = trim_range(&v, a, b);
        let t = string_of_range(&v, a1, b1);
        let is_d = range_starts_with_str(&v, a1, b1, "default");
        let ghost before = r@;
        r.push(t);
        proof {
            assert(strs(r@) =~= all.take(k + 1).map_values(|l: Seq<char>| trim(l))) by {
                assert(strs(r@) =~= strs(before).push(t@));
            }
            if is_d {
                assert(starts_with(trim(all[k as int]), "default"@));
            }
        }
        dflt = dflt || is_d;
        k += 1;
    }
    assert(all.take(all.len() as int) == all);
    (r, dflt)
}

fn default6_in_line(v: &Vec<char>, lo: usize, hi: usize, d: &str) -> (b: bool)
    requires
        lo <= hi <= v@.len(),
    ensures
        b == default6_line(v@.subrange(lo as int, hi as int), d@),
{
    let ws = words_range(v, lo, hi);
    let ghost all = words(v@.subrange(lo as int, hi as int));
    if ws.len() == 0 || !range_eq_str(v, ws[0].0, ws[0].1, "default") {
        return false;
    }
    let mut i: usize = 0;
    while i + 1 < ws.len()
        invariant
            lo <= hi <= v@.len(),
            all == words(v@.subrange(lo as int, hi as int)),
            ws@.len() == all.len(),
            forall|j: int|
                0 <= j < ws@.len() ==> lo <= (#[trigger] ws@[j]).0 <= ws@[j].1 <= hi
                    && v@.subrange(ws@[j].0 as int, ws@[j].1 as int) == all[j],
            all.len() > 0,
            all[0] == "default"@,
            i < ws@.len(),
            forall|j: int| 0 <= j < i ==> !(#[trigger] all[j] == "dev"@ && all[j + 1] == d@),
        decreases ws.len() - i,
    {
        if range_eq_str(v, ws[i].0, ws[i].1, "dev") && range_eq_str(v, ws[i + 1].0, ws[i + 1].1, d) {
            assert(all[i as int] == "dev"@ && all[i + 1] == d@);
            return true;
        }
        i += 1;
    }
    false
}

fn default6_any(out: &str, d: &str) -> (b: bool)
    ensures
        b == exists|i: int| 0 <= i < lines(out@).len() && default6_line(#[trigger] lines(out@)[i], d@),
{
    let v = chars_of(out);
    assert(v@.subrange(0, v@.len() as int) == v@);
    let ls = lines_range(&v, 0, v.len());
    let mut k: usize = 0;
    while k < ls.len()
        invariant
            v@ == out@,
            ls@.len() == lines(v@).len(),
            forall|j: int|
                0 <= j < ls@.len() ==> 0 <= (#[trigger] ls@[j]).0 <= ls@[j].1 <= v@.len()
                    && v@.subrange(ls@[j].0 as int, ls@[j].1 as int) == lines(v@)[j],
            k <= ls@.len(),
            forall|j: int| 0 <= j < k ==> !default6_line(#[trigger] lines(v@)[j], d@),
        decreases ls.len() - k,
    {
        let (a, b) = ls[k];
        if default6_in_line(&v, a, b, d) {
            assert(default6_line(lines(out@)[k as int], d@));
            return true;
        }
        k += 1;
    }
    false
}

/// The running state, from what was read: the data card (when found), the
/// output of `ip -o addr show dev`, `ip route show dev`,
/// `ip -6 route show default`, and `uci -q get network.<iface>.dns`.
pub fn status(
    cfg: &Config,
    dev: Option<String>,
    addrs: &str,
    routes: &str,
    routes6: &str,
    dns_ok: bool,
    dns_out: &str,
) -> (st: NetStatus)
    ensures
        status_ok(st, *cfg, opt_view(dev), addrs@, routes@, routes6@, dns_ok, dns_out@),
{
    let dns = if dns_ok {
        words_of(dns_out)
    } else {
        let e: Vec<String> = Vec::new();
        assert(strs(e@) =~= Seq::<Seq<char>>::empty());
        e
    };
    match dev {
        Some(d) => {
            let ipv4 = addrs_in(addrs, false);
            let ipv6 = addrs_in(addrs, true);
            let (rs, default4) = route_lines(routes);
            let default6 = default6_any(routes6, d.as_str());
            let up = ipv4.len() > 0 || ipv6.len() > 0;
            NetStatus {
                iface: cfg.iface.clone(),
                iface_v6: cfg.iface_v6.clone(),
                dev: Some(d),
                ipv4,
                ipv6,
                routes: rs,
                up,
                default4,
                default6,
                dns,
            }
        },
        None => NetStatus {
            iface: cfg.iface.clone(),
            iface_v6: cfg.iface_v6.clone(),
            dev: None,
            ipv4: Vec::new(),
            ipv6: Vec::new(),
            routes: Vec::new(),
            up: false,
            default4: false,
            default6: false,
            dns,
        },
    }
}

// ---------------------------------------------------------------- ensure_iface

/// Everything [`ensure_iface`] decided: the UCI subcommands (run as one
/// batch, the round fails when one fails), the shell commands that may fail
/// (deletions, run first), and what follows the commit.
#[derive(Debug, Clone)]
pub struct IfacePlan {
    pub cmds: Vec<String>,
    pub shell_cmds: Vec<String>,
    /// The firewall zone changed: reload the firewall after the commit.
    pub fw_changed: bool,
    /// The v6 sub-interface exists in this plan (bring it up too).
    pub v6_section: bool,
    /// RA mode: solicit an RA once the v6 interface is up.
    pub ra_trigger: bool,
    /// Static mode: the IPv6 default device route.
    pub v6_route: Option<String>,
    /// The IPv4 default route written directly, ahead of netifd.
    pub v4_route: Option<String>,
}

pub open spec fn skeleton_cmds(c: Config, dev: Seq<char>) -> Seq<Seq<char>> {
    let i = c.iface@;
    seq![
        "set network."@ + i + "=interface"@,
        "set network."@ + i + ".proto=static"@,
        "set network."@ + i + ".device="@ + dev,
        "set network."@ + i + ".peerdns=0"@,
        "set network."@ + i + ".auto=1"@,
        "set network."@ + i + ".metric="@ + dec_str(c.metric as nat),
        "set network."@ + i + ".defaultroute=1"@,
    ]
}

pub open spec fn quiet_delete(name: Seq<char>, rest: Seq<char>) -> Seq<char> {
    "uci -q delete network."@ + name + rest
}

pub open spec fn v4_cmds(c: Config, ipv4: Seq<char>, mask: Seq<char>, gw: Option<Seq<char>>) -> Seq<Seq<char>> {
    let i = c.iface@;
    if ipv4.len() == 0 {
        seq![]
    } else {
        seq!["set network."@ + i + ".ipaddr="@ + ipv4, "set network."@ + i + ".netmask="@ + mask] + match gw {
            Some(g) => seq!["set network."@ + i + ".gateway="@ + g],
            None => seq![],
        }
    }
}

pub open spec fn v4_shell(c: Config, ipv4: Seq<char>, gw: Option<Seq<char>>) -> Seq<Seq<char>> {
    let i = c.iface@;
    if ipv4.len() > 0 {
        match gw {
            Some(_) => seq![],
            None => seq![quiet_delete(i, ".gateway 2>/dev/null || true"@)],
        }
    } else {
        seq![
            quiet_delete(i, ".ipaddr 2>/dev/null || true"@),
            quiet_delete(i, ".netmask 2>/dev/null || true"@),
            quiet_delete(i, ".gateway 2>/dev/null || true"@),
            quiet_delete(i, "_def 2>/dev/null || true"@),
            quiet_delete(i, "_gw4 2>/dev/null || true"@),
        ]
    }
}

pub open spec fn dns_cmds(c: Config, dns: Seq<Seq<char>>) -> Seq<Seq<char>> {
    if dns.len() > 0 {
        seq!["set network."@ + c.iface@ + ".dns="@ + spec_sq(join(dns, seq![' ']))]
    } else {
        seq![]
    }
}

pub open spec fn dns_shell(c: Config, dns: Seq<Seq<char>>) -> Seq<Seq<char>> {
    if dns.len() > 0 {
        seq![]
    } else {
        seq![quiet_delete(c.iface@, ".dns 2>/dev/null || true"@)]
    }
}

pub open spec fn v6_cmds(c: Config, ipv6: Seq<char>) -> Seq<Seq<char>> {
    let x = c.iface_v6@;
    if !spec_v6_managed(c) {
        seq![]
    } else {
        let head = seq![
            "set network."@ + x + "=interface"@,
            "set network."@ + x + ".device=@"@ + c.iface@,
            quiet_delete(x, ".reqaddress 2>/dev/null || true"@),
            quiet_delete(x, ".reqprefix 2>/dev/null || true"@),
            quiet_delete(x, ".peerdns 2>/dev/null || true"@),
            quiet_delete(x, ".extendprefix 2>/dev/null || true"@),
        ];
        let mode: Seq<Seq<char>> = if spec_v6_dhcp_mode(c) {
            seq!["set network."@ + x + ".proto=dhcpv6"@, "set network."@ + x + ".extendprefix=1"@]
        } else if spec_v6_ra_mode(c) {
            seq!["set network."@ + x + ".proto=none"@]
        } else if ipv6.len() > 0 {
            seq!["set network."@ + x + ".proto=static"@, "set network."@ + x + ".ip6addr="@ + ipv6 + "/128"@]
        } else {
            seq!["set network."@ + x + ".proto=static"@]
        };
        head + mode + seq!["set network."@ + x + ".auto=1"@]
    }
}

pub open spec fn v6_shell(c: Config, dev: Seq<char>) -> Seq<Seq<char>> {
    let x = c.iface_v6@;
    if spec_v6_managed(c) {
        if spec_v6_dhcp_mode(c) {
            seq![quiet_delete(x, ".ip6addr 2>/dev/null || true"@)]
        } else if spec_v6_ra_mode(c) {
            seq![quiet_delete(x, ".ip6addr 2>/dev/null || true"@)] + spec_enable_v6_ra(dev)
        } else {
            seq![]
        }
    } else if x.len() > 0 {
        seq!["ifdown "@ + x + " >/dev/null 2>&1 || true"@, quiet_delete(x, " 2>/dev/null || true"@)]
    } else {
        seq![]
    }
}

pub open spec fn route_cmds(c: Config, ipv4: Seq<char>, mask: Seq<char>, gw: Option<Seq<char>>) -> Seq<Seq<char>> {
    let i = c.iface@;
    if ipv4.len() == 0 {
        seq![]
    } else {
        match gw {
            Some(g) => if !spec_in_same_subnet(ipv4, g, mask) {
                seq![
                    "set network."@ + i + "_gw4=route"@,
                    "set network."@ + i + "_gw4.interface="@ + i,
                    "set network."@ + i + "_gw4.target="@ + g + "/32"@,
                ]
            } else {
                seq![]
            },
            None => seq![
                "set network."@ + i + "_def=route"@,
                "set network."@ + i + "_def.interface="@ + i,
                "set network."@ + i + "_def.target=0.0.0.0/0"@,
                "set network."@ + i + "_def.onlink=1"@,
                "set network."@ + i + "_def.metric="@ + dec_str(c.metric as nat),
            ],
        }
    }
}

pub open spec fn route_shell(c: Config, ipv4: Seq<char>, mask: Seq<char>, gw: Option<Seq<char>>) -> Seq<Seq<char>> {
    let i = c.iface@;
    if ipv4.len() == 0 {
        seq![]
    } else {
        match gw {
            Some(g) => seq![quiet_delete(i, "_def 2>/dev/null || true"@)] + if !spec_in_same_subnet(
                ipv4,
                g,
                mask,
            ) {
                seq![]
            } else {
                seq![quiet_delete(i, "_gw4 2>/dev/null || true"@)]
            },
            None => seq![quiet_delete(i, "_gw4 2>/dev/null || true"@)],
        }
    }
}

pub open spec fn zone_key(zi: int) -> Seq<char> {
    "firewall.@zone["@ + dec_str(zi as nat) + "].network"@
}

/// The firewall subcommands for the zone list `nets` (with its exit
/// status): add each of this plan's interfaces that is missing, and drop a
/// v6 interface the plan no longer has.
pub open spec fn fw_cmds(c: Config, zone: Option<int>, nets_ok: bool, nets: Seq<char>) -> Seq<Seq<char>> {
    match zone {
        None => seq![],
        Some(zi) => {
            let key = zone_key(zi);
            let v6 = spec_v6_managed(c);
            let add_main: Seq<Seq<char>> = if c.iface@.len() > 0 && !spec_uci_list_contains(
                nets_ok,
                nets,
                c.iface@,
            ) {
                seq!["add_list "@ + key + "="@ + spec_sq(c.iface@)]
            } else {
                seq![]
            };
            let add_v6: Seq<Seq<char>> = if v6 && c.iface_v6@.len() > 0 && !spec_uci_list_contains(
                nets_ok,
                nets,
                c.iface_v6@,
            ) {
                seq!["add_list "@ + key + "="@ + spec_sq(c.iface_v6@)]
            } else {
                seq![]
            };
            let del_v6: Seq<Seq<char>> = if !v6 && c.iface_v6@.len() > 0 && spec_uci_list_contains(
                nets_ok,
                nets,
                c.iface_v6@,
            ) {
                seq!["del_list "@ + key + "="@ + spec_sq(c.iface_v6@)]
            } else {
                seq![]
            };
            add_main + add_v6 + del_v6
        },
    }
}

pub open spec fn spec_v4_route(c: Config, dev: Seq<char>, ipv4: Seq<char>, gw: Option<Seq<char>>) -> Option<Seq<char>> {
    if ipv4.len() == 0 {
        None
    } else {
        match gw {
            Some(g) => Some(
                "ip route replace default via "@ + g + " dev "@ + dev + " metric "@ + dec_str(c.metric as nat),
            ),
            None => Some("ip route replace default dev "@ + dev + " metric "@ + dec_str(c.metric as nat)),
        }
    }
}

pub open spec fn iface_plan_ok(
    p: IfacePlan,
    c: Config,
    dev: Seq<char>,
    ipv4: Seq<char>,
    ipv6: Seq<char>,
    dns: Seq<Seq<char>>,
    modem_gw: Seq<char>,
    zone: Option<int>,
    nets_ok: bool,
    nets: Seq<char>,
) -> bool {
    let plan = spec_plan_gateway(c, ipv4, modem_gw);
    let mask = if ipv4.len() > 0 {
        plan.0
    } else {
        seq![]
    };
    let gw = if ipv4.len() > 0 {
        plan.1
    } else {
        None
    };
    let fw = fw_cmds(c, zone, nets_ok, nets);
    let v6 = spec_v6_managed(c);
    &&& strs(p.cmds@) == skeleton_cmds(c, dev) + v4_cmds(c, ipv4, mask, gw) + dns_cmds(c, dns) + v6_cmds(
        c,
        ipv6,
    ) + route_cmds(c, ipv4, mask, gw) + fw
    &&& strs(p.shell_cmds@) == v4_shell(c, ipv4, gw) + dns_shell(c, dns) + v6_shell(c, dev) + route_shell(
        c,
        ipv4,
        mask,
        gw,
    )
    &&& p.fw_changed == (fw.len() > 0)
    &&& p.v6_section == v6
    &&& p.ra_trigger == (v6 && spec_v6_ra_mode(c))
    &&& opt_view(p.v6_route) == (if v6 && !spec_v6_ra_mode(c) && !spec_v6_dhcp_mode(c) {
        Some("ip -6 route replace default dev "@ + dev + " metric "@ + dec_str(c.metric as nat))
    } else {
        None
    })
    &&& opt_view(p.v4_route) == spec_v4_route(c, dev, ipv4, gw)
}

fn push_skeleton(v: &mut Vec<String>, cfg: &Config, dev: &str)
    ensures
        strs(final(v)@) == strs(old(v)@) + skeleton_cmds(*cfg, dev@),
{
    let ghost s0 = strs(v@);
    let i = cfg.iface.as_str();
    push_cmd(v, "set network.", i, "=interface");
    push_cmd(v, "set network.", i, ".proto=static");
    push_cmd4(v, "set network.", i, ".device=", dev);
    push_cmd(v, "set network.", i, ".peerdns=0");
    push_cmd(v, "set network.", i, ".auto=1");
    let m = dec_string(cfg.metric as u64);
    push_cmd4(v, "set network.", i, ".metric=", m.as_str());
    push_cmd(v, "set network.", i, ".defaultroute=1");
    assert(strs(v@) =~= s0 + skeleton_cmds(*cfg, dev@));
}

fn push_v4(v: &mut Vec<String>, sh: &mut Vec<String>, cfg: &Config, ipv4: &str, mask: &str, gw: &Option<String>)
    ensures
        strs(final(v)@) == strs(old(v)@) + v4_cmds(*cfg, ipv4@, mask@, opt_view(*gw)),
        strs(final(sh)@) == strs(old(sh)@) + v4_shell(*cfg, ipv4@, opt_view(*gw)),
{
    let ghost s0 = strs(v@);
    let ghost h0 = strs(sh@);
    let i = cfg.iface.as_str();
    if !ipv4.is_empty() {
        push_cmd4(v, "set network.", i, ".ipaddr=", ipv4);
        push_cmd4(v, "set network.", i, ".netmask=", mask);
        match gw {
            Some(g) => {
                push_cmd4(v, "set network.", i, ".gateway=", g.as_str());
            },
            None => {
                push_cmd(sh, "uci -q delete network.", i, ".gateway 2>/dev/null || true");
            },
        }
    } else {
        push_cmd(sh, "uci -q delete network.", i, ".ipaddr 2>/dev/null || true");
        push_cmd(sh, "uci -q delete network.", i, ".netmask 2>/dev/null || true");
        push_cmd(sh, "uci -q delete network.", i, ".gateway 2>/dev/null || true");
        push_cmd(sh, "uci -q delete network.", i, "_def 2>/dev/null || true");
        push_cmd(sh, "uci -q delete network.", i, "_gw4 2>/dev/null || true");
    }
    assert(strs(v@) =~= s0 + v4_cmds(*cfg, ipv4@, mask@, opt_view(*gw)));
    assert(strs(sh@) =~= h0 + v4_shell(*cfg, ipv4@, opt_view(*gw)));
}

fn push_dns(v: &mut Vec<String>, sh: &mut Vec<String>, cfg: &Config, dns: &[String])
    ensures
        strs(final(v)@) == strs(old(v)@) + dns_cmds(*cfg, strs(dns@)),
        strs(final(sh)@) == strs(old(sh)@) + dns_shell(*cfg, strs(dns@)),
{
    let ghost s0 = strs(v@);
    let ghost h0 = strs(sh@);
    let i = cfg.iface.as_str();
    if dns.len() > 0 {
        let j = join_strings(dns, " ");
        proof {
            reveal_strlit(" ");
            assert(" "@ == seq![' ']);
        }
        let q = sq(j.as_str());
        push_cmd4(v, "set network.", i, ".dns=", q.as_str());
    } else {
        push_cmd(sh, "uci -q delete network.", i, ".dns 2>/dev/null || true");
    }
    assert(strs(v@) =~= s0 + dns_cmds(*cfg, strs(dns@)));
    assert(strs(sh@) =~= h0 + dns_shell(*cfg, strs(dns@)));
}

fn push_v6(v: &mut Vec<String>, sh: &mut Vec<String>, cfg: &Config, dev: &str, ipv6: &str)
    ensures
        strs(final(v)@) == strs(old(v)@) + v6_cmds(*cfg, ipv6@),
        strs(final(sh)@) == strs(old(sh)@) + v6_shell(*cfg, dev@),
{
    let ghost s0 = strs(v@);
    let ghost h0 = strs(sh@);
    let x = cfg.iface_v6.as_str();
    if v6_managed(cfg) {
        push_cmd(v, "set network.", x, "=interface");
        push_cmd4(v, "set network.", x, ".device=@", cfg.iface.as_str());
        push_cmd(v, "uci -q delete network.", x, ".reqaddress 2>/dev/null || true");
        push_cmd(v, "uci -q delete network.", x, ".reqprefix 2>/dev/null || true");
        push_cmd(v, "uci -q delete network.", x, ".peerdns 2>/dev/null || true");
        push_cmd(v, "uci -q delete network.", x, ".extendprefix 2>/dev/null || true");
        if v6_dhcp_mode(cfg) {
            push_cmd(v, "set network.", x, ".proto=dhcpv6");
            push_cmd(v, "set network.", x, ".extendprefix=1");
            push_cmd(sh, "uci -q delete network.", x, ".ip6addr 2>/dev/null || true");
        } else if v6_ra_mode(cfg) {
            push_cmd(v, "set network.", x, ".proto=none");
            push_cmd(sh, "uci -q delete network.", x, ".ip6addr 2>/dev/null || true");
            let ra = enable_v6_ra(dev);
            let ghost h1 = strs(sh@);
            let mut k: usize = 0;
            while k < ra.len()
                invariant
                    k <= ra@.len(),
                    strs(ra@) == spec_enable_v6_ra(dev@),
                    strs(sh@) == h1 + strs(ra@).take(k as int),
                decreases ra.len() - k,
            {
                let ghost before = sh@;
                sh.push(ra[k].clone());
                assert(strs(ra@).take(k + 1) == strs(ra@).take(k as int).push(ra@[k as int]@));
                assert(strs(sh@) =~= strs(before).push(ra@[k as int]@));
                k += 1;
            }
            assert(strs(ra@).take(ra@.len() as int) == strs(ra@));
        } else {
            push_cmd(v, "set network.", x, ".proto=static");
            if !ipv6.is_empty() {
                push_cmd5(v, "set network.", x, ".ip6addr=", ipv6, "/128");
            }
        }
        push_cmd(v, "set network.", x, ".auto=1");
    } else if !cfg.iface_v6.as_str().is_empty() {
        push_cmd(sh, "ifdown ", x, " >/dev/null 2>&1 || true");
        push_cmd(sh, "uci -q delete network.", x, " 2>/dev/null || true");
    }
    assert(strs(v@) =~= s0 + v6_cmds(*cfg, ipv6@));
    assert(strs(sh@) =~= h0 + v6_shell(*cfg, dev@));
}

fn push_routes(v: &mut Vec<String>, sh: &mut Vec<String>, cfg: &Config, ipv4: &str, mask: &str, gw: &Option<String>)
    ensures
        strs(final(v)@) == strs(old(v)@) + route_cmds(*cfg, ipv4@, mask@, opt_view(*gw)),
        strs(final(sh)@) == strs(old(sh)@) + route_shell(*cfg, ipv4@, mask@, opt_view(*gw)),
{
    let ghost s0 = strs(v@);
    let ghost h0 = strs(sh@);
    let i = cfg.iface.as_str();
    if !ipv4.is_empty() {
        match gw {
            Some(g) => {
                push_cmd(sh, "uci -q delete network.", i, "_def 2>/dev/null || true");
                if !in_same_subnet(ipv4, g.as_str(), mask) {
                    push_cmd(v, "set network.", i, "_gw4=route");
                    push_cmd4(v, "set network.", i, "_gw4.interface=", i);
                    push_cmd5(v, "set network.", i, "_gw4.target=", g.as_str(), "/32");
                } else {
                    push_cmd(sh, "uci -q delete network.", i, "_gw4 2>/dev/null || true");
                }
            },
            None => {
                push_cmd(v, "set network.", i, "_def=route");
                push_cmd4(v, "set network.", i, "_def.interface=", i);
                push_cmd(v, "set network.", i, "_def.target=0.0.0.0/0");
                push_cmd(v, "set network.", i, "_def.onlink=1");
                let m = dec_string(cfg.metric as u64);
                push_cmd4(v, "set network.", i, "_def.metric=", m.as_str());
                push_cmd(sh, "uci -q delete network.", i, "_gw4 2>/dev/null || true");
            },
        }
    }
    assert(strs(v@) =~= s0 + route_cmds(*cfg, ipv4@, mask@, opt_view(*gw)));
    assert(strs(sh@) =~= h0 + route_shell(*cfg, ipv4@, mask@, opt_view(*gw)));
}

fn push_fw(v: &mut Vec<String>, cfg: &Config, zone: Option<usize>, nets_ok: bool, nets: &str) -> (changed: bool)
    ensures
        strs(final(v)@) == strs(old(v)@) + fw_cmds(
            *cfg,
            match zone {
                Some(z) => Some(z as int),
                None => None,
            },
            nets_ok,
            nets@,
        ),
        changed == (fw_cmds(
            *cfg,
            match zone {
                Some(z) => Some(z as int),
                None => None,
            },
            nets_ok,
            nets@,
        ).len() > 0),
{
    let ghost s0 = strs(v@);
    let zi = match zone {
        Some(z) => z,
        None => {
            assert(strs(v@) =~= s0 + Seq::<Seq<char>>::empty());
            return false;
        },
    };
    let mut key = String::new();
    push_str(&mut key, "firewall.@zone[");
    push_dec(&mut key, zi as u64);
    push_str(&mut key, "].network");
    proof {
        assert(Seq::<char>::empty() + "firewall.@zone["@ == "firewall.@zone["@);
        assert(key@ == zone_key(zi as int));
    }
    let v6 = v6_managed(cfg);
    let mut changed = false;
    let i = cfg.iface.as_str();
    let x = cfg.iface_v6.as_str();
    if !i.is_empty() && !uci_list_contains(nets_ok, nets, i) {
        let q = sq(i);
        push_cmd4(v, "add_list ", key.as_str(), "=", q.as_str());
        changed = true;
    }
    if v6 && !x.is_empty() && !uci_list_contains(nets_ok, nets, x) {
        let q = sq(x);
        push_cmd4(v, "add_list ", key.as_str(), "=", q.as_str());
        changed = true;
    }
    if !v6 && !x.is_empty() && uci_list_contains(nets_ok, nets, x) {
        let q = sq(x);
        push_cmd4(v, "del_list ", key.as_str(), "=", q.as_str());
        changed = true;
    }
    assert(strs(v@) =~= s0 + fw_cmds(*cfg, Some(zi as int), nets_ok, nets@));
    changed
}

/// The plan of one `ensure_iface` round: the main interface skeleton, the
/// IPv4 address with the planned netmask and gateway (or, in an IPv6-only
/// session, the removal of the previous session's IPv4), the DNS list as
/// one quoted word (or its removal), the v6 sub-interface in the shape of
/// its mode (or its removal when IPv6 is off), the default route or the
/// gateway's host route, and the WAN zone membership.
///
/// `dev` is the data card; `zone` the WAN zone's index and `nets` its
/// network list as UCI answered it; `modem_gw` the modem's IPv4 gateway.
/// The ARP check of the gateway is not part of it: it only makes sense once
/// the address is in the kernel.
pub fn ensure_iface(
    cfg: &Config,
    dev: &str,
    ipv4: &str,
    ipv6: &str,
    dns: &[String],
    modem_gw: &str,
    zone: Option<usize>,
    nets_ok: bool,
    nets: &str,
) -> (p: IfacePlan)
    ensures
        iface_plan_ok(
            p,
            *cfg,
            dev@,
            ipv4@,
            ipv6@,
            strs(dns@),
            modem_gw@,
            match zone {
                Some(z) => Some(z as int),
                None => None,
            },
            nets_ok,
            nets@,
        ),
{
    let have_v4 = !ipv4.is_empty();
    let (mask, gw) = if have_v4 {
        plan_gateway(cfg, ipv4, modem_gw)
    } else {
        (String::new(), None)
    };
    let v6 = v6_managed(cfg);
    let mut cmds: Vec<String> = Vec::new();
    let mut sh: Vec<String> = Vec::new();
    assert(strs(cmds@) =~= Seq::<Seq<char>>::empty());
    assert(strs(sh@) =~= Seq::<Seq<char>>::empty());
    push_skeleton(&mut cmds, cfg, dev);
    push_v4(&mut cmds, &mut sh, cfg, ipv4, mask.as_str(), &gw);
    push_dns(&mut cmds, &mut sh, cfg, dns);
    push_v6(&mut cmds, &mut sh, cfg, dev, ipv6);
    push_routes(&mut cmds, &mut sh, cfg, ipv4, mask.as_str(), &gw);
    let fw_changed = push_fw(&mut cmds, cfg, zone, nets_ok, nets);
    let ra = v6_ra_mode(cfg);
    let dhcp = v6_dhcp_mode(cfg);
    let v6_route = if v6 && !ra && !dhcp {
        let mut s = String::new();
        push_str(&mut s, "ip -6 route replace default dev ");
        push_str(&mut s, dev);
        push_str(&mut s, " metric ");
        push_dec(&mut s, cfg.metric as u64);
        proof {
            assert(Seq::<char>::empty() + "ip -6 route replace default dev "@ == "ip -6 route replace default dev "@);
        }
        Some(s)
    } else {
        None
    };
    let v4_route = if have_v4 {
        let mut s = String::new();
        match &gw {
            Some(g) => {
                push_str(&mut s, "ip route replace default via ");
                push_str(&mut s, g.as_str());
                push_str(&mut s, " dev ");
                proof {
                    assert(Seq::<char>::empty() + "ip route replace default via "@ == "ip route replace default via "@);
                }
            },
            None => {
                push_str(&mut s, "ip route replace default dev ");
                proof {
                    assert(Seq::<char>::empty() + "ip route replace default dev "@ == "ip route replace default dev "@);
                }
            },
        }
        push_str(&mut s, dev);
        push_str(&mut s, " metric ");
        push_dec(&mut s, cfg.metric as u64);
        Some(s)
    } else {
        None
    };
    proof {
        if !have_v4 {
            assert(mask@ == Seq::<char>::empty());
        }
    }
    IfacePlan {
        cmds,
        shell_cmds: sh,
        fw_changed,
        v6_section: v6,
        ra_trigger: v6 && ra,
        v6_route,
        v4_route,
    }
}

// ---------------------------------------------------------------- teardown

/// What tearing the interfaces down writes.
#[derive(Debug, Clone)]
pub struct TeardownPlan {
    /// `ifdown` of the interfaces, run first.
    pub ifdown: Vec<String>,
    /// UCI subcommands, run as a batch (their list is the result).
    pub cmds: Vec<String>,
    /// The firewall zone changed: reload the firewall.
    pub fw_changed: bool,
}

pub open spec fn teardown_fw(c: Config, zone: Option<int>, nets_ok: bool, nets: Seq<char>) -> Seq<Seq<char>> {
    match zone {
        None => seq![],
        Some(zi) => {
            let key = zone_key(zi);
            let a: Seq<Seq<char>> = if c.iface@.len() > 0 && spec_uci_list_contains(nets_ok, nets, c.iface@) {
                seq!["del_list "@ + key + "="@ + spec_sq(c.iface@)]
            } else {
                seq![]
            };
            let b: Seq<Seq<char>> = if c.iface_v6@.len() > 0 && spec_uci_list_contains(
                nets_ok,
                nets,
                c.iface_v6@,
            ) {
                seq!["del_list "@ + key + "="@ + spec_sq(c.iface_v6@)]
            } else {
                seq![]
            };
            a + b
        },
    }
}

pub open spec fn teardown_ok(p: TeardownPlan, c: Config, zone: Option<int>, nets_ok: bool, nets: Seq<char>) -> bool {
    let i = c.iface@;
    let x = c.iface_v6@;
    let fw = teardown_fw(c, zone, nets_ok, nets);
    &&& strs(p.ifdown@) == seq!["ifdown "@ + i] + (if x.len() > 0 {
        seq!["ifdown "@ + x]
    } else {
        seq![]
    })
    &&& strs(p.cmds@) == seq!["delete network."@ + i + "_def"@, "delete network."@ + i + "_gw4"@, "delete network."@ + i]
        + (if x.len() > 0 {
        seq!["delete network."@ + x]
    } else {
        seq![]
    }) + fw
    &&& p.fw_changed == (fw.len() > 0)
}

/// Removes what the daemon created: both interfaces, the default route
/// and gateway host route sections, and their WAN zone entries (`zone` and
/// its network list `nets` as UCI answered it).
pub fn teardown_iface(cfg: &Config, zone: Option<usize>, nets_ok: bool, nets: &str) -> (p: TeardownPlan)
    ensures
        teardown_ok(
            p,
            *cfg,
            match zone {
                Some(z) => Some(z as int),
                None => None,
            },
            nets_ok,
            nets@,
        ),
{
    let i = cfg.iface.as_str();
    let x = cfg.iface_v6.as_str();
    let mut down: Vec<String> = Vec::new();
    let mut cmds: Vec<String> = Vec::new();
    assert(strs(down@) =~= Seq::<Seq<char>>::empty());
    assert(strs(cmds@) =~= Seq::<Seq<char>>::empty());
    push_cmd2(&mut down, "ifdown ", i);
    if !x.is_empty() {
        push_cmd2(&mut down, "ifdown ", x);
    }
    push_cmd(&mut cmds, "delete network.", i, "_def");
    push_cmd(&mut cmds, "delete network.", i, "_gw4");
    push_cmd2(&mut cmds, "delete network.", i);
    if !x.is_empty() {
        push_cmd2(&mut cmds, "delete network.", x);
    }
    let ghost c0 = strs(cmds@);
    proof {
        assert(strs(down@) =~= seq!["ifdown "@ + i@] + (if x@.len() > 0 {
            seq!["ifdown "@ + x@]
        } else {
            seq![]
        }));
        assert(c0 =~= seq!["delete network."@ + i@ + "_def"@, "delete network."@ + i@ + "_gw4"@, "delete network."@ + i@]
            + (if x@.len() > 0 {
            seq!["delete network."@ + x@]
        } else {
            seq![]
        }));
    }
    let mut changed = false;
    match zone {
        Some(zi) => {
            let mut key = String::new();
            push_str(&mut key, "firewall.@zone[");
            push_dec(&mut key, zi as u64);
            push_str(&mut key, "].network");
            proof {
                assert(Seq::<char>::empty() + "firewall.@zone["@ == "firewall.@zone["@);
            }
            if !i.is_empty() && uci_list_contains(nets_ok, nets, i) {
                let q = sq(i);
                push_cmd4(&mut cmds, "del_list ", key.as_str(), "=", q.as_str());
                changed = true;
            }
            if !x.is_empty() && uci_list_contains(nets_ok, nets, x) {
                let q = sq(x);
                push_cmd4(&mut cmds, "del_list ", key.as_str(), "=", q.as_str());
                changed = true;
            }
            assert(strs(cmds@) =~= c0 + teardown_fw(*cfg, Some(zi as int), nets_ok, nets@));
        },
        None => {
            assert(strs(cmds@) =~= c0 + Seq::<Seq<char>>::empty());
        },
    }
    TeardownPlan { ifdown: down, cmds, fw_changed: changed }
}

// ---------------------------------------------------------------- boot start

pub open spec fn spec_autostart_names(c: Config) -> Seq<Seq<char>> {
    seq![c.iface@] + (if c.ipv6 && c.iface_v6@.len() > 0 {
        seq![c.iface_v6@]
    } else {
        seq![]
    })
}

/// The interfaces whose boot start is checked: the main one, and the v6
/// one when IPv6 is on.
pub fn autostart_names(cfg: &Config) -> (r: Vec<String>)
    ensures
        strs(r@) == spec_autostart_names(*cfg),
{
    let mut r: Vec<String> = Vec::new();
    r.push(cfg.iface.clone());
    if cfg.ipv6 && !cfg.iface_v6.as_str().is_empty() {
        r.push(cfg.iface_v6.clone());
    }
    assert(strs(r@) =~= spec_autostart_names(*cfg));
    r
}

/// What UCI answered for one interface: the section type and its `auto`
/// option, each with the exit status of `uci -q get`.
#[derive(Debug, Clone)]
pub struct AutostartRead {
    pub sec_ok: bool,
    pub sec: String,
    pub auto_ok: bool,
    pub auto: String,
}

/// The interface exists and does not start at boot.
pub open spec fn needs_autostart(n: Seq<char>, r: AutostartRead) -> bool {
    n.len() > 0 && r.sec_ok && trim(r.sec@) == "interface"@ && !(r.auto_ok && trim(r.auto@) == "1"@)
}

pub open spec fn autostart_fixes(ns: Seq<Seq<char>>, rs: Seq<AutostartRead>) -> Seq<Seq<char>>
    decreases ns.len(),
{
    if ns.len() == 0 || rs.len() < ns.len() {
        seq![]
    } else {
        let rest = autostart_fixes(ns.drop_last(), rs.take(ns.len() - 1));
        if needs_autostart(ns.last(), rs[ns.len() - 1]) {
            rest.push(ns.last())
        } else {
            rest
        }
    }
}

/// The interfaces (among [`autostart_names`], with what UCI answered for
/// each in `reads`) that exist but lost `auto=1`: netifd does not start an
/// interface at boot without it, and the steady state of the daemon never
/// rewrites the interface.
pub fn ensure_autostart(cfg: &Config, reads: &Vec<AutostartRead>) -> (r: Vec<String>)
    requires
        reads@.len() == spec_autostart_names(*cfg).len(),
    ensures
        strs(r@) == autostart_fixes(spec_autostart_names(*cfg), reads@),
{
    let names = autostart_names(cfg);
    let mut r: Vec<String> = Vec::new();
    let mut k: usize = 0;
    while k < names.len()
        invariant
            strs(names@) == spec_autostart_names(*cfg),
            reads@.len() == names@.len(),
            k <= names@.len(),
            strs(r@) == autostart_fixes(strs(names@).take(k as int), reads@.take(k as int)),
        decreases names.len() - k,
    {
        let rd = &reads[k];
        let n = &names[k];
        proof {
            let ns = strs(names@).take(k + 1);
            assert(ns.drop_last() == strs(names@).take(k as int));
            assert(reads@.take(k + 1).take(k as int) == reads@.take(k as int));
            assert(ns.last() == n@);
            assert(reads@.take(k + 1)[k as int] == *rd);
        }
        let need = !n.as_str().is_empty() && rd.sec_ok && crate::net::v6::trimmed_is(rd.sec.as_str(), "interface")
            && !(rd.auto_ok && crate::net::v6::trimmed_is(rd.auto.as_str(), "1"));
        if need {
            let ghost before = r@;
            r.push(n.clone());
            assert(strs(r@) =~= strs(before).push(n@));
        }
        k += 1;
    }
    assert(strs(names@).take(names@.len() as int) == strs(names@));
    assert(reads@.take(reads@.len() as int) == reads@);
    r
}

} // verus!
