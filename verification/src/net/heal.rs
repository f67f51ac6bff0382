//! Route guard: the routes netifd does not install, or that drift away at
//! run time, are checked every round and put back.
//!
//! netifd installs no device route for an interface without a gateway;
//! periodic RAs are flushed by an `ifdown`/`ifup`; ancient installs left a
//! gateway-less IPv6 default route on the main metric that beats the RA
//! route. Judging what is missing is done here, from what `ip` printed.
use crate::config::Config;
use crate::net::gateway::{debug_str, debug_str_of, debug_strings, debug_strings_of};
use crate::net::iface::NetStatus;
use crate::modem::pdp::opt_view;
use crate::net::v6::{
    first_word_index, lemma_first_word_index, spec_v6_dhcp_mode, spec_v6_managed, spec_v6_ra_mode,
    spec_v6_static_mode,
    v6_dhcp_mode, v6_managed, v6_ra_mode, V6_FALLBACK_METRIC,
};
use crate::text::{
    chars_of, contains_str, dec_str, lines, lines_range, parse_uint, parse_uint_range, push_dec,
    push_str, range_contains_str, range_eq_str, range_starts_with_str, starts_with, strs, trim,
    trim_range, words, words_range,
};
use vstd::prelude::*;

verus! {

pub open spec fn spec_line_has_metric(line: Seq<char>, metric: u32) -> bool {
    let ws = words(line);
    let i = first_word_index(ws, "metric"@);
    if i < 0 {
        metric == 0
    } else if i + 1 < ws.len() {
        parse_uint(ws[i + 1], u32::MAX as int) == Some(metric as int)
    } else {
        false
    }
}

fn line_has_metric_range(v: &Vec<char>, lo: usize, hi: usize, metric: u32) -> (b: bool)
    requires
        lo <= hi <= v@.len(),
    ensures
        b == spec_line_has_metric(v@.subrange(lo as int, hi as int), metric),
{
    let ws = words_range(v, lo, hi);
    let ghost all = words(v@.subrange(lo as int, hi as int));
    let mut k: usize = 0;
    while k < ws.len()
        invariant
            lo <= hi <= v@.len(),
            all == words(v@.subrange(lo as int, hi as int)),
            ws@.len() == all.len(),
            forall|j: int|
                0 <= j < ws@.len() ==> lo <= (#[trigger] ws@[j]).0 <= ws@[j].1 <= hi
                    && v@.subrange(ws@[j].0 as int, ws@[j].1 as int) == all[j],
            k <= ws@.len(),
            forall|j: int| 0 <= j < k ==> all[j] != "metric"@,
        decreases ws.len() - k,
    {
        let (a, b) = ws[k];
        if range_eq_str(v, a, b, "metric") {
            proof {
                lemma_first_word_index(all, "metric"@, k as int);
            }
            if k + 1 >= ws.len() {
                return false;
            }
            let (c, d) = ws[k + 1];
            return match parse_uint_range(v, c, d, u32::MAX as u64) {
                Some(n) => n == metric as u64,
                None => false,
            };
        }
        k += 1;
    }
    proof {
        lemma_first_word_index(all, "metric"@, k as int);
    }
    metric == 0
}

/// Whether a line of `ip route` carries the given metric. `ip route` prints
/// no `metric` field for metric 0, and the value is compared as a whole
/// word (`metric 3` must not match `metric 30`).
pub fn line_has_metric(line: &str, metric: u32) -> (b: bool)
    ensures
        b == spec_line_has_metric(line@, metric),
{
    let v = chars_of(line);
    assert(v@.subrange(0, v@.len() as int) == v@);
    line_has_metric_range(&v, 0, v.len(), metric)
}

/// A default route line on the given metric.
pub open spec fn default_on_metric(l: Seq<char>, m: u32) -> bool {
    starts_with(trim(l), "default"@) && spec_line_has_metric(l, m)
}

/// A gateway-less default route on the given metric (trimmed line).
pub open spec fn gatewayless_on_metric(l: Seq<char>, m: u32) -> bool {
    let t = trim(l);
    starts_with(t, "default"@) && !contains_str(t, " via "@) && spec_line_has_metric(t, m)
}

pub open spec fn route_line_hit(l: Seq<char>, m: u32, gatewayless: bool) -> bool {
    if gatewayless {
        gatewayless_on_metric(l, m)
    } else {
        default_on_metric(l, m)
    }
}

pub open spec fn any_route(routes: Seq<char>, m: u32, gatewayless: bool) -> bool {
    exists|i: int| 0 <= i < lines(routes).len() && route_line_hit(#[trigger] lines(routes)[i], m, gatewayless)
}

fn route_line_hit_range(v: &Vec<char>, a: usize, b: usize, m: u32, gatewayless: bool) -> (r: bool)
    requires
        a <= b <= v@.len(),
    ensures
        r == route_line_hit(v@.subrange(a as int, b as int), m, gatewayless),
{
    let (a1, b1) = trim_range(v, a, b);
    if !range_starts_with_str(v, a1, b1, "default") {
        return false;
    }
    if gatewayless {
        !range_contains_str(v, a1, b1, " via ") && line_has_metric_range(v, a1, b1, m)
    } else {
        line_has_metric_range(v, a, b, m)
    }
}

fn has_route(routes: &str, m: u32, gatewayless: bool) -> (b: bool)
    ensures
        b == any_route(routes@, m, gatewayless),
{
    let v = chars_of(routes);
    assert(v@.subrange(0, v@.len() as int) == v@);
    let ls = lines_range(&v, 0, v.len());
    let mut k: usize = 0;
    while k < ls.len()
        invariant
            v@ == routes@,
            ls@.len() == lines(v@).len(),
            forall|j: int|
                0 <= j < ls@.len() ==> 0 <= (#[trigger] ls@[j]).0 <= ls@[j].1 <= v@.len()
                    && v@.subrange(ls@[j].0 as int, ls@[j].1 as int) == lines(v@)[j],
            k <= ls@.len(),
            forall|j: int| 0 <= j < k ==> !route_line_hit(#[trigger] lines(v@)[j], m, gatewayless),
        decreases ls.len() - k,
    {
        let (a, b) = ls[k];
        if route_line_hit_range(&v, a, b, m, gatewayless) {
            assert(route_line_hit(lines(routes@)[k as int], m, gatewayless));
            return true;
        }
        k += 1;
    }
    false
}

/// What the route guard does this round.
#[derive(Debug, Clone)]
pub struct RouteGuardPlan {
    /// Open RA reception and solicit an RA on the data card first.
    pub ra_solicit: bool,
    /// `ip route replace ...` for the missing IPv4 default route.
    pub v4_replace: Option<String>,
    /// Removal of a stale gateway-less IPv6 default route.
    pub v6_delete: Option<String>,
    /// `ip -6 route replace ...` for the missing IPv6 fallback route.
    pub v6_replace: Option<String>,
}

pub open spec fn wanted_v4(dev: Seq<char>, gw: Option<Seq<char>>, m: u32) -> Seq<char> {
    match gw {
        Some(g) => "default via "@ + g + " dev "@ + dev + " metric "@ + dec_str(m as nat),
        None => "default dev "@ + dev + " metric "@ + dec_str(m as nat),
    }
}

/// The metric the IPv6 fallback route uses: above RA's and odhcp6c's routes
/// in those modes, the main metric in static mode.
pub open spec fn fallback_metric6(c: Config) -> u32 {
    if spec_v6_ra_mode(c) || spec_v6_dhcp_mode(c) {
        V6_FALLBACK_METRIC
    } else {
        c.metric
    }
}

/// The plan, from what was read this round: the data card `dev`, the
/// output of `ip -o -4 addr show dev`, UCI's gateway, the IPv4 and IPv6
/// routes of the card, and whether it holds a global IPv6.
pub open spec fn route_guard_ok(
    p: RouteGuardPlan,
    c: Config,
    dev: Seq<char>,
    addr4: Seq<char>,
    gw: Option<Seq<char>>,
    routes4: Seq<char>,
    routes6: Seq<char>,
    has_global6: bool,
) -> bool {
    let v6 = c.route_guard && spec_v6_managed(c);
    let ra_or_dhcp = spec_v6_ra_mode(c) || spec_v6_dhcp_mode(c);
    &&& p.ra_solicit == (v6 && spec_v6_ra_mode(c))
    &&& opt_view(p.v4_replace) == (if c.route_guard && contains_str(addr4, "inet "@) && !any_route(
        routes4,
        c.metric,
        false,
    ) {
        Some("ip route replace "@ + wanted_v4(dev, gw, c.metric))
    } else {
        None
    })
    &&& opt_view(p.v6_delete) == (if v6 && ra_or_dhcp && c.metric != V6_FALLBACK_METRIC && any_route(
        routes6,
        c.metric,
        true,
    ) {
        Some(
            "ip -6 route del default dev "@ + dev + " metric "@ + dec_str(c.metric as nat)
                + " 2>/dev/null || true"@,
        )
    } else {
        None
    })
    &&& opt_view(p.v6_replace) == (if v6 && has_global6 && !any_route(routes6, fallback_metric6(c), false) {
        Some("ip -6 route replace default dev "@ + dev + " metric "@ + dec_str(fallback_metric6(c) as nat))
    } else {
        None
    })
}

/// The route guard's decisions for one round; nothing when the guard is
/// off. IPv4 gets its default route back only when the card holds an
/// address (an empty route would pollute the main table). For IPv6, RA mode
/// solicits an RA every round, the ra and dhcpv6 modes drop a gateway-less
/// default route on the main metric, and a global address gets an onlink
/// fallback route on a metric that loses to RA's and odhcp6c's routes.
pub fn route_guard(
    cfg: &Config,
    dev: &str,
    addr4: &str,
    gw: Option<String>,
    routes4: &str,
    routes6: &str,
    has_global6: bool,
) -> (p: RouteGuardPlan)
    ensures
        route_guard_ok(p, *cfg, dev@, addr4@, opt_view(gw), routes4@, routes6@, has_global6),
{
    let mut p = RouteGuardPlan { ra_solicit: false, v4_replace: None, v6_delete: None, v6_replace: None };
    if !cfg.route_guard {
        return p;
    }
    let v4 = chars_of(addr4);
    assert(v4@.subrange(0, v4@.len() as int) == v4@);
    if range_contains_str(&v4, 0, v4.len(), "inet ") && !has_route(routes4, cfg.metric, false) {
        let mut s = String::new();
        push_str(&mut s, "ip route replace ");
        match &gw {
            Some(g) => {
                push_str(&mut s, "default via ");
                push_str(&mut s, g.as_str());
                push_str(&mut s, " dev ");
            },
            None => {
                push_str(&mut s, "default dev ");
            },
        }
        push_str(&mut s, dev);
        push_str(&mut s, " metric ");
        push_dec(&mut s, cfg.metric as u64);
        proof {
            assert(Seq::<char>::empty() + "ip route replace "@ == "ip route replace "@);
            let w = wanted_v4(dev@, opt_view(gw), cfg.metric);
            assert(s@ =~= "ip route replace "@ + w);
        }
        p.v4_replace = Some(s);
    }
    if v6_managed(cfg) {
        let ra = v6_ra_mode(cfg);
        let dhcp = v6_dhcp_mode(cfg);
        p.ra_solicit = ra;
        if (ra || dhcp) && cfg.metric != V6_FALLBACK_METRIC && has_route(routes6, cfg.metric, true) {
            let mut s = String::new();
            push_str(&mut s, "ip -6 route del default dev ");
            push_str(&mut s, dev);
            push_str(&mut s, " metric ");
            push_dec(&mut s, cfg.metric as u64);
            push_str(&mut s, " 2>/dev/null || true");
            proof {
                assert(Seq::<char>::empty() + "ip -6 route del default dev "@ == "ip -6 route del default dev "@);
            }
            p.v6_delete = Some(s);
        }
        if has_global6 {
            let m6 = if ra || dhcp {
                V6_FALLBACK_METRIC
            } else {
                cfg.metric
            };
            if !has_route(routes6, m6, false) {
                let mut s = String::new();
                push_str(&mut s, "ip -6 route replace default dev ");
                push_str(&mut s, dev);
                push_str(&mut s, " metric ");
                push_dec(&mut s, m6 as u64);
                proof {
                    assert(Seq::<char>::empty() + "ip -6 route replace default dev "@
                        == "ip -6 route replace default dev "@);
                }
                p.v6_replace = Some(s);
            }
        }
    }
    p
}

// ---------------------------------------------------------------- after a dial

/// A dial without any address cannot configure the interface.
pub fn dial_addresses_present(ipv4: &str, ipv6: &str) -> (r: Result<(), String>)
    ensures
        r is Ok <==> (ipv4@.len() > 0 || ipv6@.len() > 0),
        r matches Err(e) ==> e@ == "缺少 IPv4/IPv6 地址，无法配置接口"@,
{
    if ipv4.is_empty() && ipv6.is_empty() {
        Err(String::from_str("缺少 IPv4/IPv6 地址，无法配置接口"))
    } else {
        Ok(())
    }
}

/// The expected addresses reached the kernel: the IPv4 (when there is
/// one), and the IPv6 only where static mode fixes it (in the other modes
/// the interface's own address differs from the modem's).
pub open spec fn spec_addresses_landed(c: Config, ipv4: Seq<char>, ipv6: Seq<char>, st: NetStatus) -> bool {
    &&& (ipv4.len() == 0 || strs(st.ipv4@).contains(ipv4))
    &&& (!(ipv6.len() > 0 && spec_v6_static_mode(c)) || strs(st.ipv6@).contains(ipv6))
}

fn list_has(v: &Vec<String>, x: &str) -> (b: bool)
    ensures
        b == strs(v@).contains(x@),
{
    let mut i: usize = 0;
    while i < v.len()
        invariant
            i <= v@.len(),
            forall|j: int| 0 <= j < i ==> v@[j]@ != x@,
        decreases v.len() - i,
    {
        if crate::text::str_eq(v[i].as_str(), x) {
            assert(strs(v@)[i as int] == x@);
            return true;
        }
        i += 1;
    }
    assert forall|j: int| 0 <= j < strs(v@).len() implies strs(v@)[j] != x@ by {
        assert(strs(v@)[j] == v@[j]@);
    }
    false
}

/// Whether the interface shows the expected addresses (see
/// [`spec_addresses_landed`]); `ifup` is asynchronous, so the caller polls.
pub fn addresses_landed(cfg: &Config, ipv4: &str, ipv6: &str, st: &NetStatus) -> (b: bool)
    ensures
        b == spec_addresses_landed(*cfg, ipv4@, ipv6@, *st),
{
    let v4 = ipv4.is_empty() || list_has(&st.ipv4, ipv4);
    let enforce6 = !ipv6.is_empty() && crate::net::v6::v6_static_mode(cfg);
    let v6 = !enforce6 || list_has(&st.ipv6, ipv6);
    v4 && v6
}

/// The error when the addresses did not land in time.
pub open spec fn landing_message(c: Config, ipv4: Seq<char>, ipv6: Seq<char>, st: NetStatus) -> Seq<char> {
    "接口 "@ + c.iface@ + " 未在 3 s 内取得期望地址（v4 期望 "@ + debug_str_of(ipv4) + "，实际 "@
        + debug_strings_of(strs(st.ipv4@)) + "；v6 期望 "@ + debug_str_of(ipv6) + "，实际 "@
        + debug_strings_of(strs(st.ipv6@)) + "；网卡 "@ + match st.dev {
        Some(d) => d@,
        None => "?"@,
    } + "）"@
}

/// The error when the addresses did not land in time (see
/// [`landing_message`]).
pub fn landing_timeout_message(cfg: &Config, ipv4: &str, ipv6: &str, st: &NetStatus) -> (r: String)
    ensures
        r@ == landing_message(*cfg, ipv4@, ipv6@, *st),
{
    let mut s = String::new();
    push_str(&mut s, "接口 ");
    push_str(&mut s, cfg.iface.as_str());
    push_str(&mut s, " 未在 3 s 内取得期望地址（v4 期望 ");
    let a = debug_str(ipv4);
    push_str(&mut s, a.as_str());
    push_str(&mut s, "，实际 ");
    let b = debug_strings(&st.ipv4);
    push_str(&mut s, b.as_str());
    push_str(&mut s, "；v6 期望 ");
    let c = debug_str(ipv6);
    push_str(&mut s, c.as_str());
    push_str(&mut s, "，实际 ");
    let d = debug_strings(&st.ipv6);
    push_str(&mut s, d.as_str());
    push_str(&mut s, "；网卡 ");
    match &st.dev {
        Some(dv) => push_str(&mut s, dv.as_str()),
        None => push_str(&mut s, "?"),
    }
    push_str(&mut s, "）");
    proof {
        assert(Seq::<char>::empty() + "接口 "@ == "接口 "@);
    }
    s
}

} // verus!
