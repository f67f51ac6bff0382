//! The IPv6 side: how the address is obtained, how `ip -o addr` lines are
//! read, and what the daemon writes for each `v6_mode`.
//!
//! | mode | who owns the address | what the daemon does |
//! |---|---|---|
//! | `dhcpv6` (default, and any unknown value) | odhcp6c | only keeps the interface shape right |
//! | `ra` | the kernel, from RA/SLAAC | `accept_ra=2`, solicits an RA, clears old static addresses |
//! | `static` | the daemon, from `AT+CGPADDR` | writes a `/128` and a device route |
//! | `off` | nobody | tears the interface down |
use crate::addr::spec_is_link_local_v6;
use crate::config::Config;
use crate::modem::pdp::opt_view;
use crate::text::{
    chars_of, contains_str, ends_with, ends_with_range, find_str, find_str_range, lines, lines_range,
    parse_uint, parse_uint_range, push_str, range_contains_str, range_eq_str, range_starts_with_str,
    split_char, split_range, starts_with, str_eq, string_of_range, strs, trim, trim_range, words,
    words_range,
};
use vstd::prelude::*;

verus! {

/// Metric of the onlink fallback IPv6 default route. It must lose against
/// the kernel's RA route (1024) and odhcp6c's route (512).
pub const V6_FALLBACK_METRIC: u32 = 2048;

/// Rounds of router solicitation before RA mode gives up for this round
/// (one every three seconds).
pub const RA_SOLICIT_ROUNDS: u32 = 5;

// ---------------------------------------------------------------- address lines

/// Link-local IPv6 (`fe80::/10`): the first group, read as hex, lies in
/// `fe80..=febf`.
pub fn is_link_local_v6(ip: &str) -> (b: bool)
    ensures
        b == spec_is_link_local_v6(ip@),
{
    crate::addr::is_link_local_v6(ip)
}

pub open spec fn sec_suffix() -> Seq<char> {
    seq!['s', 'e', 'c']
}

/// `trim_end_matches("sec")`: every trailing `sec` removed.
pub open spec fn strip_sec(s: Seq<char>) -> Seq<char>
    decreases s.len(),
{
    if ends_with(s, sec_suffix()) {
        strip_sec(s.take(s.len() - 3))
    } else {
        s
    }
}

/// Index of the first `w` among `ws`, or `-1`.
pub open spec fn first_word_index(ws: Seq<Seq<char>>, w: Seq<char>) -> int
    decreases ws.len(),
{
    if ws.len() == 0 {
        -1
    } else if ws[0] == w {
        0
    } else {
        let r = first_word_index(ws.drop_first(), w);
        if r < 0 {
            -1
        } else {
            r + 1
        }
    }
}

/// The value after `valid_lft`: `forever`, a positive `<n>sec`, or any
/// other text (kept as valid).
pub open spec fn lifetime_value_ok(v: Seq<char>) -> bool {
    if v == "forever"@ {
        true
    } else if ends_with(v, sec_suffix()) {
        match parse_uint(strip_sec(v), u64::MAX as int) {
            Some(n) => n > 0,
            None => false,
        }
    } else {
        true
    }
}

pub open spec fn spec_valid_lifetime(line: Seq<char>) -> bool {
    let ws = words(line);
    let i = first_word_index(ws, "valid_lft"@);
    if i < 0 {
        true
    } else if i + 1 >= ws.len() {
        false
    } else {
        lifetime_value_ok(ws[i + 1])
    }
}

pub proof fn lemma_first_word_index(ws: Seq<Seq<char>>, w: Seq<char>, k: int)
    requires
        0 <= k <= ws.len(),
        forall|j: int| 0 <= j < k ==> ws[j] != w,
    ensures
        k < ws.len() && ws[k] == w ==> first_word_index(ws, w) == k,
        k == ws.len() ==> first_word_index(ws, w) == -1,
    decreases k,
{
    if k > 0 {
        lemma_first_word_index(ws.drop_first(), w, k - 1);
        assert forall|j: int| 0 <= j < k - 1 implies ws.drop_first()[j] != w by {
            assert(ws.drop_first()[j] == ws[j + 1]);
        }
        if k < ws.len() {
            assert(ws.drop_first()[k - 1] == ws[k]);
        }
    }
}

/// Whether the lifetime value in `v[a..b]` keeps the address valid.
fn lifetime_ok_range(v: &Vec<char>, a: usize, b: usize) -> (r: bool)
    requires
        a <= b <= v@.len(),
    ensures
        r == lifetime_value_ok(v@.subrange(a as int, b as int)),
{
    if range_eq_str(v, a, b, "forever") {
        return true;
    }
    let sec = vec!['s', 'e', 'c'];
    assert(sec@ == sec_suffix());
    if !ends_with_range(v, a, b, &sec) {
        return true;
    }
    let mut e = b;
    while ends_with_range(v, a, e, &sec)
        invariant
            a <= e <= b <= v@.len(),
            sec@ == sec_suffix(),
            strip_sec(v@.subrange(a as int, b as int)) == strip_sec(v@.subrange(a as int, e as int)),
        decreases e,
    {
        let ghost t = v@.subrange(a as int, e as int);
        assert(t.take(t.len() - 3) == v@.subrange(a as int, e - 3));
        e = e - 3;
    }
    match parse_uint_range(v, a, e, u64::MAX) {
        Some(n) => n > 0,
        None => false,
    }
}

/// Whether the address of an `ip -o addr` line is still valid: only
/// `valid_lft 0sec` is rejected (a deprecated address, `preferred_lft 0sec`,
/// still works until its valid lifetime ends); a line without lifetimes is
/// kept, as older tools print none.
pub fn addr_line_has_valid_lifetime(line: &str) -> (b: bool)
    ensures
        b == spec_valid_lifetime(line@),
{
    let v = chars_of(line);
    assert(v@.subrange(0, v@.len() as int) == v@);
    lifetime_in_range(&v, 0, v.len())
}

fn lifetime_in_range(v: &Vec<char>, lo: usize, hi: usize) -> (b: bool)
    requires
        lo <= hi <= v@.len(),
    ensures
        b == spec_valid_lifetime(v@.subrange(lo as int, hi as int)),
{
    let ws = words_range(v, lo, hi);
    let ghost all = words(v@.subrange(lo as int, hi as int));
    let mut k: usize = 0;
    while k < ws.len()
        invariant
            lo <= hi <= v@.len(),
            all == words(v@.subrange(lo as int, hi as int)),
            ws@.len() == all.len(),
            forall|j: int|
                0 <= j < ws@.len() ==> lo <= (#[trigger] ws@[j]).0 <= ws@[j].1 <= hi
                    && v@.subrange(ws@[j].0 as int, ws@[j].1 as int) == all[j],
            k <= ws@.len(),
            forall|j: int| 0 <= j < k ==> all[j] != "valid_lft"@,
        decreases ws.len() - k,
    {
        let (a, b) = ws[k];
        if range_eq_str(v, a, b, "valid_lft") {
            proof {
                lemma_first_word_index(all, "valid_lft"@, k as int);
            }
            if k + 1 >= ws.len() {
                return false;
            }
            let (c, d) = ws[k + 1];
            return lifetime_ok_range(v, c, d);
        }
        k += 1;
    }
    proof {
        lemma_first_word_index(all, "valid_lft"@, k as int);
    }
    true
}

/// The address of an `ip -o addr` line: the first word after `inet6 `,
/// without its prefix length; `None` for link-local addresses (every card
/// has one) and for expired ones.
pub open spec fn spec_usable_global_v6(line: Seq<char>) -> Option<Seq<char>> {
    let p = find_str(line, "inet6 "@);
    if p < 0 {
        None
    } else {
        let ws = words(line.skip(p + "inet6 "@.len()));
        if ws.len() == 0 {
            None
        } else {
            let ip = split_char(ws[0], '/')[0];
            if ip.len() == 0 || spec_is_link_local_v6(ip) {
                None
            } else if !spec_valid_lifetime(line) {
                None
            } else {
                Some(ip)
            }
        }
    }
}

/// The range of the address (first word, up to its first `/`) in
/// `v[lo..hi]`, or `None` when there is no word.
fn first_word_address(v: &Vec<char>, lo: usize, hi: usize) -> (r: Option<(usize, usize)>)
    requires
        lo <= hi <= v@.len(),
    ensures
        match r {
            Some((c, d)) => words(v@.subrange(lo as int, hi as int)).len() > 0 && c <= d <= v@.len()
                && v@.subrange(c as int, d as int) == split_char(
                words(v@.subrange(lo as int, hi as int))[0],
                '/',
            )[0],
            None => words(v@.subrange(lo as int, hi as int)).len() == 0,
        },
{
    let ws = words_range(v, lo, hi);
    if ws.len() == 0 {
        return None;
    }
    let (a, b) = ws[0];
    let pieces = split_range(v, a, b, '/');
    assert(pieces@.len() > 0) by {
        crate::text::lemma_split_char_nonempty(v@.subrange(a as int, b as int), '/');
    }
    let (c, d) = pieces[0];
    Some((c, d))
}

fn usable_global_in(v: &Vec<char>, lo: usize, hi: usize) -> (r: Option<String>)
    requires
        lo <= hi <= v@.len(),
    ensures
        opt_view(r) == spec_usable_global_v6(v@.subrange(lo as int, hi as int)),
{
    let ghost line = v@.subrange(lo as int, hi as int);
    let pat = chars_of("inet6 ");
    let p = match find_str_range(v, lo, hi, &pat) {
        Some(p) => p,
        None => return None,
    };
    proof {
        crate::text::lemma_find_str_occurs(line, pat@);
        assert(p + pat@.len() <= line.len());
        assert(line.skip(p + pat@.len()) =~= v@.subrange(lo + p + pat@.len(), hi as int));
    }
    let start = lo + p + pat.len();
    let (c, d) = match first_word_address(v, start, hi) {
        Some(r) => r,
        None => return None,
    };
    if c == d {
        return None;
    }
    let ip = string_of_range(v, c, d);
    if is_link_local_v6(ip.as_str()) {
        return None;
    }
    if !lifetime_in_range(v, lo, hi) {
        return None;
    }
    Some(ip)
}

/// The still-valid global IPv6 of one `ip -o addr` line.
pub fn usable_global_v6_from_addr_line(line: &str) -> (r: Option<String>)
    ensures
        opt_view(r) == spec_usable_global_v6(line@),
{
    let v = chars_of(line);
    assert(v@.subrange(0, v@.len() as int) == v@);
    usable_global_in(&v, 0, v.len())
}

// ---------------------------------------------------------------- modes

pub open spec fn spec_v6_managed(c: Config) -> bool {
    c.ipv6 && c.iface_v6@.len() > 0 && c.v6_mode@ != "off"@
}

pub open spec fn spec_v6_ra_mode(c: Config) -> bool {
    c.ipv6 && c.v6_mode@ == "ra"@
}

pub open spec fn spec_v6_dhcp_mode(c: Config) -> bool {
    c.ipv6 && !(c.v6_mode@ == "ra"@ || c.v6_mode@ == "static"@ || c.v6_mode@ == "off"@)
}

pub open spec fn spec_v6_static_mode(c: Config) -> bool {
    c.ipv6 && c.v6_mode@ == "static"@
}

/// Whether the daemon manages IPv6 at all (`ipv6=1`, a v6 interface name,
/// and `v6_mode` other than `off`).
pub fn v6_managed(cfg: &Config) -> (b: bool)
    ensures
        b == spec_v6_managed(*cfg),
{
    cfg.ipv6 && !cfg.iface_v6.as_str().is_empty() && !str_eq(cfg.v6_mode.as_str(), "off")
}

/// RA mode: only an explicit `ra` counts; unknown values never fall in here.
pub fn v6_ra_mode(cfg: &Config) -> (b: bool)
    ensures
        b == spec_v6_ra_mode(*cfg),
{
    cfg.ipv6 && str_eq(cfg.v6_mode.as_str(), "ra")
}

/// DHCPv6 mode: explicit `dhcpv6` and every unknown or empty value (the
/// path that proved stable: odhcp6c receives RAs in user space whatever
/// `accept_ra` says).
pub fn v6_dhcp_mode(cfg: &Config) -> (b: bool)
    ensures
        b == spec_v6_dhcp_mode(*cfg),
{
    let m = cfg.v6_mode.as_str();
    cfg.ipv6 && !(str_eq(m, "ra") || str_eq(m, "static") || str_eq(m, "off"))
}

/// Static mode: the daemon writes the modem's address as a `/128`.
pub fn v6_static_mode(cfg: &Config) -> (b: bool)
    ensures
        b == spec_v6_static_mode(*cfg),
{
    cfg.ipv6 && str_eq(cfg.v6_mode.as_str(), "static")
}

/// The three ways of obtaining IPv6 exclude each other, each needs the
/// IPv6 switch, and every managed configuration is in exactly one of them.
pub proof fn lemma_v6_modes_exclusive(c: Config)
    ensures
        !(spec_v6_ra_mode(c) && spec_v6_dhcp_mode(c)),
        !(spec_v6_ra_mode(c) && spec_v6_static_mode(c)),
        !(spec_v6_dhcp_mode(c) && spec_v6_static_mode(c)),
        spec_v6_ra_mode(c) || spec_v6_dhcp_mode(c) || spec_v6_static_mode(c) ==> c.ipv6,
        spec_v6_managed(c) ==> (spec_v6_ra_mode(c) || spec_v6_dhcp_mode(c) || spec_v6_static_mode(c)),
{
    reveal_strlit("ra");
    reveal_strlit("static");
    reveal_strlit("off");
    assert("ra"@.len() != "static"@.len());
}

/// Why IPv6 needs attention.
#[derive(Debug, Clone, Copy, PartialEq, Eq, Structural)]
pub enum RefreshKind {
    /// Not one global address on the interface.
    Absent,
    /// The address differs from the modem's, and the mode wants them equal
    /// (static only).
    Mismatch,
}

pub open spec fn spec_needs_refresh(c: Config, modem_v6: Seq<char>, iface_v6: Seq<Seq<char>>) -> Option<RefreshKind> {
    if !spec_v6_managed(c) {
        None
    } else if iface_v6.len() == 0 {
        Some(RefreshKind::Absent)
    } else if spec_v6_static_mode(c) && modem_v6.len() > 0 && !iface_v6.contains(modem_v6) {
        Some(RefreshKind::Mismatch)
    } else {
        None
    }
}

/// Whether IPv6 needs attention; `None` means leave the interface alone.
/// Only static mode compares the interface's addresses with the modem's:
/// under dhcpv6 and ra the interface address is never the one the modem
/// reports, and comparing them restarted the interface every round.
pub fn needs_refresh(cfg: &Config, modem_v6: &str, iface_v6: &[String]) -> (r: Option<RefreshKind>)
    ensures
        r == spec_needs_refresh(*cfg, modem_v6@, strs(iface_v6@)),
{
    if !v6_managed(cfg) {
        return None;
    }
    if iface_v6.len() == 0 {
        return Some(RefreshKind::Absent);
    }
    if v6_static_mode(cfg) && !modem_v6.is_empty() {
        let mut i: usize = 0;
        while i < iface_v6.len()
            invariant
                i <= iface_v6@.len(),
                forall|j: int| 0 <= j < i ==> iface_v6@[j]@ != modem_v6@,
            decreases iface_v6.len() - i,
        {
            if str_eq(iface_v6[i].as_str(), modem_v6) {
                assert(strs(iface_v6@)[i as int] == modem_v6@);
                return None;
            }
            i += 1;
        }
        assert forall|j: int| 0 <= j < strs(iface_v6@).len() implies strs(iface_v6@)[j] != modem_v6@ by {
            assert(strs(iface_v6@)[j] == iface_v6@[j]@);
        }
        return Some(RefreshKind::Mismatch);
    }
    None
}

/// Only static mode ever reports a mismatch.
pub proof fn lemma_mismatch_only_static(c: Config, modem_v6: Seq<char>, iface_v6: Seq<Seq<char>>)
    ensures
        spec_needs_refresh(c, modem_v6, iface_v6) == Some(RefreshKind::Mismatch) ==> spec_v6_static_mode(c),
        !spec_v6_managed(c) ==> spec_needs_refresh(c, modem_v6, iface_v6) is None,
{
}

// ---------------------------------------------------------------- reading kernel state

pub open spec fn ra_route_line(l: Seq<char>) -> bool {
    starts_with(trim(l), "default"@) && contains_str(l, "proto ra"@)
}

pub open spec fn ra_addr_line(l: Seq<char>) -> bool {
    contains_str(l, "inet6 "@) && contains_str(l, "proto kernel_ra"@)
}

pub open spec fn spec_ra_v6_ready(routes: Seq<char>, addrs: Seq<char>) -> bool {
    ||| exists|i: int| 0 <= i < lines(routes).len() && ra_route_line(#[trigger] lines(routes)[i])
    ||| exists|i: int| 0 <= i < lines(addrs).len() && ra_addr_line(#[trigger] lines(addrs)[i])
}

fn ra_line_range(v: &Vec<char>, a: usize, b: usize, route: bool) -> (r: bool)
    requires
        a <= b <= v@.len(),
    ensures
        route ==> r == ra_route_line(v@.subrange(a as int, b as int)),
        !route ==> r == ra_addr_line(v@.subrange(a as int, b as int)),
{
    if route {
        let (a1, b1) = trim_range(&v, a, b);
        range_starts_with_str(&v, a1, b1, "default") && range_contains_str(&v, a, b, "proto ra")
    } else {
        range_contains_str(&v, a, b, "inet6 ") && range_contains_str(&v, a, b, "proto kernel_ra")
    }
}

/// Whether some line of `s` satisfies the RA route (`route`) or the RA
/// address (`!route`) test.
fn any_ra_line(s: &str, route: bool) -> (b: bool)
    ensures
        route ==> b == exists|i: int| 0 <= i < lines(s@).len() && ra_route_line(#[trigger] lines(s@)[i]),
        !route ==> b == exists|i: int| 0 <= i < lines(s@).len() && ra_addr_line(#[trigger] lines(s@)[i]),
{
    let v = chars_of(s);
    assert(v@.subrange(0, v@.len() as int) == v@);
    let ls = lines_range(&v, 0, v.len());
    let mut k: usize = 0;
    while k < ls.len()
        invariant
            v@ == s@,
            ls@.len() == lines(v@).len(),
            forall|j: int|
                0 <= j < ls@.len() ==> 0 <= (#[trigger] ls@[j]).0 <= ls@[j].1 <= v@.len()
                    && v@.subrange(ls@[j].0 as int, ls@[j].1 as int) == lines(v@)[j],
            k <= ls@.len(),
            route ==> forall|j: int| 0 <= j < k ==> !ra_route_line(#[trigger] lines(v@)[j]),
            !route ==> forall|j: int| 0 <= j < k ==> !ra_addr_line(#[trigger] lines(v@)[j]),
        decreases ls.len() - k,
    {
        let (a, b) = ls[k];
        let hit = ra_line_range(&v, a, b, route);
        if hit {
            assert(route ==> ra_route_line(lines(s@)[k as int]));
            assert(!route ==> ra_addr_line(lines(s@)[k as int]));
            return true;
        }
        k += 1;
    }
    false
}

/// Whether the kernel got IPv6 from an RA: a `proto ra` default route in
/// `ip -6 route show default dev <dev>`, or a `proto kernel_ra` address in
/// `ip -o -6 addr show dev <dev>`.
pub fn ra_v6_ready(routes: &str, addrs: &str) -> (b: bool)
    ensures
        b == spec_ra_v6_ready(routes@, addrs@),
{
    any_ra_line(routes, true) || any_ra_line(addrs, false)
}

#[verifier::opaque]
pub open spec fn global_v6_line(l: Seq<char>) -> bool {
    contains_str(l, "inet6 "@) && spec_usable_global_v6(l) is Some
}

pub open spec fn spec_has_global_v6(out: Seq<char>) -> bool {
    exists|i: int| 0 <= i < lines(out).len() && global_v6_line(#[trigger] lines(out)[i])
}

fn global_line_range(v: &Vec<char>, a: usize, b: usize) -> (r: bool)
    requires
        a <= b <= v@.len(),
    ensures
        r == global_v6_line(v@.subrange(a as int, b as int)),
{
    let r = range_contains_str(v, a, b, "inet6 ") && usable_global_in(v, a, b).is_some();
    proof {
        reveal(global_v6_line);
    }
    r
}

/// Whether `ip -o -6 addr show dev <dev>` lists a still-valid global IPv6.
pub fn has_global_v6(out: &str) -> (b: bool)
    ensures
        b == spec_has_global_v6(out@),
{
    let v = chars_of(out);
    assert(v@.subrange(0, v@.len() as int) == v@);
    let ls = lines_range(&v, 0, v.len());
    let mut k: usize = 0;
    while k < ls.len()
        invariant
            v@ == out@,
            ls@.len() == lines(v@).len(),
            forall|j: int|
                0 <= j < ls@.len() ==> 0 <= (#[trigger] ls@[j]).0 <= ls@[j].1 <= v@.len()
                    && v@.subrange(ls@[j].0 as int, ls@[j].1 as int) == lines(v@)[j],
            k <= ls@.len(),
            forall|j: int| 0 <= j < k ==> !global_v6_line(#[trigger] lines(v@)[j]),
        decreases ls.len() - k,
    {
        let (a, b) = ls[k];
        if global_line_range(&v, a, b) {
            assert(global_v6_line(lines(out@)[k as int]));
            return true;
        }
        k += 1;
    }
    false
}

// ---------------------------------------------------------------- commands

/// Appends `a + x + b` to a command list.
pub fn push_cmd(v: &mut Vec<String>, a: &str, x: &str, b: &str)
    ensures
        strs(final(v)@) == strs(old(v)@).push(a@ + x@ + b@),
{
    let mut s = String::new();
    push_str(&mut s, a);
    push_str(&mut s, x);
    push_str(&mut s, b);
    let ghost before = v@;
    v.push(s);
    proof {
        assert(Seq::<char>::empty() + a@ == a@);
        assert(strs(v@) =~= strs(before).push(a@ + x@ + b@));
    }
}

/// Appends `a + x` to a command list.
pub fn push_cmd2(v: &mut Vec<String>, a: &str, x: &str)
    ensures
        strs(final(v)@) == strs(old(v)@).push(a@ + x@),
{
    let mut s = String::new();
    push_str(&mut s, a);
    push_str(&mut s, x);
    let ghost before = v@;
    v.push(s);
    proof {
        assert(Seq::<char>::empty() + a@ == a@);
        assert(strs(v@) =~= strs(before).push(a@ + x@));
    }
}

/// Appends `a + x + b + y` to a command list.
pub fn push_cmd4(v: &mut Vec<String>, a: &str, x: &str, b: &str, y: &str)
    ensures
        strs(final(v)@) == strs(old(v)@).push(a@ + x@ + b@ + y@),
{
    let mut s = String::new();
    push_str(&mut s, a);
    push_str(&mut s, x);
    push_str(&mut s, b);
    push_str(&mut s, y);
    let ghost before = v@;
    v.push(s);
    proof {
        assert(Seq::<char>::empty() + a@ == a@);
        assert(strs(v@) =~= strs(before).push(a@ + x@ + b@ + y@));
    }
}

/// Appends `a + x + b + y + z` to a command list.
pub fn push_cmd5(v: &mut Vec<String>, a: &str, x: &str, b: &str, y: &str, z: &str)
    ensures
        strs(final(v)@) == strs(old(v)@).push(a@ + x@ + b@ + y@ + z@),
{
    let mut s = String::new();
    push_str(&mut s, a);
    push_str(&mut s, x);
    push_str(&mut s, b);
    push_str(&mut s, y);
    push_str(&mut s, z);
    let ghost before = v@;
    v.push(s);
    proof {
        assert(Seq::<char>::empty() + a@ == a@);
        assert(strs(v@) =~= strs(before).push(a@ + x@ + b@ + y@ + z@));
    }
}

/// Whether `s`, trimmed, reads exactly `lit`.
pub fn trimmed_is(s: &str, lit: &str) -> (b: bool)
    ensures
        b == (trim(s@) == lit@),
{
    let v = chars_of(s);
    assert(v@.subrange(0, v@.len() as int) == v@);
    let (a, e) = trim_range(&v, 0, v.len());
    range_eq_str(&v, a, e, lit)
}

/// Whether `s`, trimmed, is not empty.
pub fn trimmed_nonempty(s: &str) -> (b: bool)
    ensures
        b == (trim(s@).len() > 0),
{
    let v = chars_of(s);
    assert(v@.subrange(0, v@.len() as int) == v@);
    let (a, e) = trim_range(&v, 0, v.len());
    a < e
}

pub open spec fn sysctl_ra(dev: Seq<char>, key_val: Seq<char>) -> Seq<char> {
    "sysctl -w net.ipv6.conf."@ + dev + key_val
}

pub open spec fn spec_enable_v6_ra(dev: Seq<char>) -> Seq<Seq<char>> {
    seq![
        sysctl_ra(dev, ".accept_ra=2 >/dev/null 2>&1 || true"@),
        sysctl_ra(dev, ".accept_ra_defrtr=1 >/dev/null 2>&1 || true"@),
        sysctl_ra(dev, ".accept_ra_pinfo=1 >/dev/null 2>&1 || true"@),
    ]
}

/// The commands that make the data card accept RAs. `accept_ra` must be 2:
/// once the cellular interface is in the WAN zone, forwarding is on and the
/// default (1) drops every RA.
pub fn enable_v6_ra(dev: &str) -> (r: Vec<String>)
    ensures
        strs(r@) == spec_enable_v6_ra(dev@),
{
    let mut r: Vec<String> = Vec::new();
    push_cmd(&mut r, "sysctl -w net.ipv6.conf.", dev, ".accept_ra=2 >/dev/null 2>&1 || true");
    push_cmd(&mut r, "sysctl -w net.ipv6.conf.", dev, ".accept_ra_defrtr=1 >/dev/null 2>&1 || true");
    push_cmd(&mut r, "sysctl -w net.ipv6.conf.", dev, ".accept_ra_pinfo=1 >/dev/null 2>&1 || true");
    assert(strs(r@) =~= spec_enable_v6_ra(dev@));
    r
}

pub open spec fn spec_trigger_rs(dev: Seq<char>) -> Seq<char> {
    "echo 1 > /proc/sys/net/ipv6/conf/"@ + dev + "/router_solicitations 2>/dev/null || true"@
}

/// The command that makes the kernel send a router solicitation at once,
/// instead of waiting for the next periodic RA.
pub fn trigger_rs(dev: &str) -> (r: String)
    ensures
        r@ == spec_trigger_rs(dev@),
{
    let mut s = String::new();
    push_str(&mut s, "echo 1 > /proc/sys/net/ipv6/conf/");
    push_str(&mut s, dev);
    push_str(&mut s, "/router_solicitations 2>/dev/null || true");
    assert(Seq::<char>::empty() + "echo 1 > /proc/sys/net/ipv6/conf/"@ == "echo 1 > /proc/sys/net/ipv6/conf/"@);
    s
}

/// RA reception first, then a solicitation (the vendor's order).
pub fn enable_and_solicit_v6_ra(dev: &str) -> (r: Vec<String>)
    ensures
        strs(r@) == spec_enable_v6_ra(dev@).push(spec_trigger_rs(dev@)),
{
    let mut r = enable_v6_ra(dev);
    let t = trigger_rs(dev);
    let ghost before = r@;
    r.push(t);
    assert(strs(r@) =~= strs(before).push(t@));
    r
}

pub open spec fn uci_set_cmd(iface6: Seq<char>, opt_val: Seq<char>) -> Seq<char> {
    "uci -q set network."@ + iface6 + opt_val
}

pub open spec fn delete_ip6addr_cmd(iface6: Seq<char>) -> Seq<char> {
    "uci -q delete network."@ + iface6 + ".ip6addr 2>/dev/null || true"@
}

pub open spec fn with_commit(cmds: Seq<Seq<char>>) -> Seq<Seq<char>> {
    if cmds.len() > 0 {
        cmds.push("uci commit network"@)
    } else {
        cmds
    }
}

pub open spec fn spec_ra_proto_cmds(iface6: Seq<char>, proto_ok: bool, proto: Seq<char>, ip6addr: Seq<char>) -> Seq<Seq<char>> {
    let a: Seq<Seq<char>> = if !proto_ok || trim(proto) != "none"@ {
        seq![uci_set_cmd(iface6, ".proto=none"@)]
    } else {
        seq![]
    };
    let b: Seq<Seq<char>> = if trim(ip6addr).len() > 0 {
        seq![delete_ip6addr_cmd(iface6)]
    } else {
        seq![]
    };
    with_commit(a + b)
}

/// RA mode shape of the v6 interface, from what UCI holds now (`proto`
/// with its exit status, and `ip6addr`): `proto=none` so that netifd only
/// raises the device, and no static address. Returns the commands to run;
/// none when the shape is already right.
pub fn ensure_v6_ra_proto(cfg: &Config, proto_ok: bool, proto: &str, ip6addr: &str) -> (r: Vec<String>)
    ensures
        strs(r@) == spec_ra_proto_cmds(cfg.iface_v6@, proto_ok, proto@, ip6addr@),
{
    let x = cfg.iface_v6.as_str();
    let mut r: Vec<String> = Vec::new();
    if !proto_ok || !trimmed_is(proto, "none") {
        push_cmd(&mut r, "uci -q set network.", x, ".proto=none");
    }
    if trimmed_nonempty(ip6addr) {
        push_cmd(&mut r, "uci -q delete network.", x, ".ip6addr 2>/dev/null || true");
    }
    if r.len() > 0 {
        let ghost before = r@;
        r.push(String::from_str("uci commit network"));
        assert(strs(r@) =~= strs(before).push("uci commit network"@));
    }
    assert(strs(r@) =~= spec_ra_proto_cmds(cfg.iface_v6@, proto_ok, proto@, ip6addr@));
    r
}

pub open spec fn spec_dhcpv6_proto_cmds(
    iface6: Seq<char>,
    proto_ok: bool,
    proto: Seq<char>,
    ext_ok: bool,
    ext: Seq<char>,
    ip6addr: Seq<char>,
) -> Seq<Seq<char>> {
    let a: Seq<Seq<char>> = if !proto_ok || trim(proto) != "dhcpv6"@ {
        seq![uci_set_cmd(iface6, ".proto=dhcpv6"@)]
    } else {
        seq![]
    };
    let b: Seq<Seq<char>> = if !ext_ok || trim(ext) != "1"@ {
        seq![uci_set_cmd(iface6, ".extendprefix=1"@)]
    } else {
        seq![]
    };
    let c: Seq<Seq<char>> = if trim(ip6addr).len() > 0 {
        seq![delete_ip6addr_cmd(iface6)]
    } else {
        seq![]
    };
    with_commit(a + b + c)
}

/// DHCPv6 mode shape of the v6 interface: `proto=dhcpv6`,
/// `extendprefix=1`, and no static address left from older versions.
/// Returns the commands to run; none when the shape is already right (the
/// caller then must not restart the interface, that would break the lease).
pub fn ensure_v6_dhcpv6_proto(
    cfg: &Config,
    proto_ok: bool,
    proto: &str,
    ext_ok: bool,
    ext: &str,
    ip6addr: &str,
) -> (r: Vec<String>)
    ensures
        strs(r@) == spec_dhcpv6_proto_cmds(cfg.iface_v6@, proto_ok, proto@, ext_ok, ext@, ip6addr@),
{
    let x = cfg.iface_v6.as_str();
    let mut r: Vec<String> = Vec::new();
    if !proto_ok || !trimmed_is(proto, "dhcpv6") {
        push_cmd(&mut r, "uci -q set network.", x, ".proto=dhcpv6");
    }
    if !ext_ok || !trimmed_is(ext, "1") {
        push_cmd(&mut r, "uci -q set network.", x, ".extendprefix=1");
    }
    if trimmed_nonempty(ip6addr) {
        push_cmd(&mut r, "uci -q delete network.", x, ".ip6addr 2>/dev/null || true");
    }
    if r.len() > 0 {
        let ghost before = r@;
        r.push(String::from_str("uci commit network"));
        assert(strs(r@) =~= strs(before).push("uci commit network"@));
    }
    assert(strs(r@) =~= spec_dhcpv6_proto_cmds(cfg.iface_v6@, proto_ok, proto@, ext_ok, ext@, ip6addr@));
    r
}

// ---------------------------------------------------------------- refresh and apply

/// What a refresh of the v6 interface does.
#[derive(Debug, Clone, Copy, PartialEq, Eq, Structural)]
pub enum V6Refresh {
    /// IPv6 is not managed: nothing, and the refresh reports `false`.
    NotManaged,
    /// Shape unchanged and a global address present: leave it (an `ifup`
    /// would break the odhcp6c lease or the SLAAC state).
    Keep,
    /// Bring the interface up again.
    Ifup,
}

pub open spec fn spec_refresh_ipv6_iface(c: Config, reshaped: bool, has_global: bool) -> V6Refresh {
    if !spec_v6_managed(c) {
        V6Refresh::NotManaged
    } else if !reshaped && has_global {
        V6Refresh::Keep
    } else {
        V6Refresh::Ifup
    }
}

/// Decision of the v6 self-recovery after the mode's shape was ensured:
/// `reshaped` tells whether that wrote anything, `has_global` whether the
/// data card (when found) holds a valid global IPv6.
pub fn refresh_ipv6_iface(cfg: &Config, reshaped: bool, has_global: bool) -> (r: V6Refresh)
    ensures
        r == spec_refresh_ipv6_iface(*cfg, reshaped, has_global),
{
    if !v6_managed(cfg) {
        V6Refresh::NotManaged
    } else if !reshaped && has_global {
        V6Refresh::Keep
    } else {
        V6Refresh::Ifup
    }
}

/// Which path writing the modem's IPv6 takes.
#[derive(Debug, Clone, Copy, PartialEq, Eq, Structural)]
pub enum V6Apply {
    /// Not managed, no address, or no data card: nothing is written.
    Skip,
    /// Only the dhcpv6 shape is ensured.
    Dhcp,
    /// RA reception, shape and solicitation; never a static `/128`.
    Ra,
    /// The address is written as a `/128` with a device route.
    Static,
}

pub open spec fn spec_apply_ipv6_path(c: Config, ipv6: Seq<char>, dev_found: bool) -> V6Apply {
    if !spec_v6_managed(c) || ipv6.len() == 0 || !dev_found {
        V6Apply::Skip
    } else if spec_v6_dhcp_mode(c) {
        V6Apply::Dhcp
    } else if spec_v6_ra_mode(c) {
        V6Apply::Ra
    } else {
        V6Apply::Static
    }
}

/// The path of [`apply_ipv6_addr`] for this configuration and address.
pub fn apply_ipv6_path(cfg: &Config, ipv6: &str, dev_found: bool) -> (r: V6Apply)
    ensures
        r == spec_apply_ipv6_path(*cfg, ipv6@, dev_found),
{
    if !v6_managed(cfg) || ipv6.is_empty() || !dev_found {
        V6Apply::Skip
    } else if v6_dhcp_mode(cfg) {
        V6Apply::Dhcp
    } else if v6_ra_mode(cfg) {
        V6Apply::Ra
    } else {
        V6Apply::Static
    }
}

pub open spec fn stale_v6_opts() -> Seq<Seq<char>> {
    seq!["reqaddress"@, "reqprefix"@, "peerdns"@, "extendprefix"@]
}

/// The UCI subcommands of static mode, from what UCI holds now: the
/// section, its `proto` and its `device` (each with its exit status).
pub open spec fn spec_static_v6_cmds(
    c: Config,
    ipv6: Seq<char>,
    sec_ok: bool,
    sec: Seq<char>,
    proto_ok: bool,
    proto: Seq<char>,
    dev_ok: bool,
    cur_dev: Seq<char>,
) -> Seq<Seq<char>> {
    let x = c.iface_v6@;
    let a: Seq<Seq<char>> = if !sec_ok || trim(sec) != "interface"@ {
        seq!["set network."@ + x + "=interface"@]
    } else {
        seq![]
    };
    let b: Seq<Seq<char>> = if !proto_ok || trim(proto) != "static"@ {
        seq!["set network."@ + x + ".proto=static"@]
    } else {
        seq![]
    };
    let d: Seq<Seq<char>> = stale_v6_opts().map_values(|o: Seq<char>| "delete network."@ + x + "."@ + o);
    let e: Seq<Seq<char>> = if !dev_ok || trim(cur_dev) != seq!['@'] + c.iface@ {
        seq!["set network."@ + x + ".device=@"@ + c.iface@]
    } else {
        seq![]
    };
    a + b + d + e + seq![
        "set network."@ + x + ".ip6addr="@ + ipv6 + "/128"@,
        "set network."@ + x + ".auto=1"@,
    ]
}

/// Whether `s`, trimmed, reads `@` followed by `name`.
fn trimmed_is_ref(s: &str, name: &str) -> (b: bool)
    ensures
        b == (trim(s@) == seq!['@'] + name@),
{
    let mut want = String::new();
    crate::text::push_char(&mut want, '@');
    push_str(&mut want, name);
    trimmed_is(s, want.as_str())
}

/// Static mode: the section exists, `proto=static`, the dhcpv6-era options
/// are gone, the device refers to the main interface, the address is the
/// modem's as a `/128`, and the interface starts at boot.
pub fn static_v6_cmds(
    cfg: &Config,
    ipv6: &str,
    sec_ok: bool,
    sec: &str,
    proto_ok: bool,
    proto: &str,
    dev_ok: bool,
    cur_dev: &str,
) -> (r: Vec<String>)
    ensures
        strs(r@) == spec_static_v6_cmds(*cfg, ipv6@, sec_ok, sec@, proto_ok, proto@, dev_ok, cur_dev@),
{
    let x = cfg.iface_v6.as_str();
    let mut r: Vec<String> = Vec::new();
    if !sec_ok || !trimmed_is(sec, "interface") {
        push_cmd(&mut r, "set network.", x, "=interface");
    }
    if !proto_ok || !trimmed_is(proto, "static") {
        push_cmd(&mut r, "set network.", x, ".proto=static");
    }
    let ghost before_d = strs(r@);
    push_cmd4(&mut r, "delete network.", x, ".", "reqaddress");
    push_cmd4(&mut r, "delete network.", x, ".", "reqprefix");
    push_cmd4(&mut r, "delete network.", x, ".", "peerdns");
    push_cmd4(&mut r, "delete network.", x, ".", "extendprefix");
    proof {
        let d = stale_v6_opts().map_values(|o: Seq<char>| "delete network."@ + x@ + "."@ + o);
        assert(d.len() == 4);
        assert(d[0] == "delete network."@ + x@ + "."@ + "reqaddress"@);
        assert(d[1] == "delete network."@ + x@ + "."@ + "reqprefix"@);
        assert(d[2] == "delete network."@ + x@ + "."@ + "peerdns"@);
        assert(d[3] == "delete network."@ + x@ + "."@ + "extendprefix"@);
        assert(strs(r@) =~= before_d + d);
    }
    if !dev_ok || !trimmed_is_ref(cur_dev, cfg.iface.as_str()) {
        push_cmd4(&mut r, "set network.", x, ".device=@", cfg.iface.as_str());
    }
    let mut addr = String::new();
    push_str(&mut addr, ipv6);
    push_str(&mut addr, "/128");
    push_cmd4(&mut r, "set network.", x, ".ip6addr=", addr.as_str());
    proof {
        assert(Seq::<char>::empty() + ipv6@ == ipv6@);
        assert("set network."@ + x@ + ".ip6addr="@ + addr@ =~= "set network."@ + x@ + ".ip6addr="@ + ipv6@
            + "/128"@);
    }
    push_cmd(&mut r, "set network.", x, ".auto=1");
    assert(strs(r@) =~= spec_static_v6_cmds(*cfg, ipv6@, sec_ok, sec@, proto_ok, proto@, dev_ok, cur_dev@));
    r
}

} // verus!
