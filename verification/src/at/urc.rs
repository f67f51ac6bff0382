//! Passive consumption of the `+GT*` unsolicited reports that an AT proxy on
//! the modem may insert into the AT stream.
//!
//! The reports only speed the daemon up: devices without the proxy never
//! send them and everything keeps working. Every byte the port delivers goes
//! through a [`LineGate`]: complete `+GT` lines are taken out of the stream
//! and turned into events (malformed ones are dropped and counted, never
//! passed on); every other line goes on to the command response untouched.
//! A line cut across two reads waits in the buffer until its end arrives.
use crate::text::{
    chars_of, is_digit, is_hex, strs, parse_i64_range, parse_int, parse_uint, parse_uint_range, push_str,
    split_char, split_range, starts_with, string_of_range, trim, trim_range, occurs_at, str_eq,
    range_starts_with_str, range_eq_str,
};
use std::collections::VecDeque;
use vstd::prelude::*;
use vstd::utf8::encode_utf8;

verus! {

/// Capacity of the event queue; when full the oldest event is dropped.
pub const QUEUE_CAP: usize = 64;

/// How many addresses of each family the state remembers.
pub const ADDR_KEEP: usize = 8;

/// One `+GT*` event.
#[derive(Debug, Clone, PartialEq, Eq)]
pub enum GtEvent {
    /// Router advertisement missing (`initial` or `refresh`).
    Nora(&'static str),
    /// MTU change.
    IfMtu(u64),
    /// Interface state change (the cause as reported).
    IfSt(i64),
    /// Address event summary.
    IfAddr { reason: String, cause: i64, v4cnt: u32, v6cnt: u32 },
    /// One IPv4 address.
    Addr4(String),
    /// One IPv6 address.
    Addr6(String),
    /// Any other event.
    Evt { reason: String, cause: i64 },
}

/// The mathematical value of an event.
pub enum GtEventView {
    Nora(Seq<char>),
    IfMtu(u64),
    IfSt(i64),
    IfAddr { reason: Seq<char>, cause: i64, v4cnt: u32, v6cnt: u32 },
    Addr4(Seq<char>),
    Addr6(Seq<char>),
    Evt { reason: Seq<char>, cause: i64 },
}

impl View for GtEvent {
    type V = GtEventView;

    open spec fn view(&self) -> GtEventView {
        match self {
            GtEvent::Nora(k) => GtEventView::Nora(k@),
            GtEvent::IfMtu(m) => GtEventView::IfMtu(*m),
            GtEvent::IfSt(c) => GtEventView::IfSt(*c),
            GtEvent::IfAddr { reason, cause, v4cnt, v6cnt } => GtEventView::IfAddr {
                reason: reason@,
                cause: *cause,
                v4cnt: *v4cnt,
                v6cnt: *v6cnt,
            },
            GtEvent::Addr4(a) => GtEventView::Addr4(a@),
            GtEvent::Addr6(a) => GtEventView::Addr6(a@),
            GtEvent::Evt { reason, cause } => GtEventView::Evt { reason: reason@, cause: *cause },
        }
    }
}

/// The view of an optional event.
pub open spec fn opt_event(r: Option<GtEvent>) -> Option<GtEventView> {
    match r {
        Some(e) => Some(e@),
        None => None,
    }
}

// ---------------------------------------------------------------- parsing

/// `+GTNORA: initial|refresh`
pub open spec fn spec_parse_nora(rest: Seq<char>) -> Option<GtEventView> {
    if trim(rest) == "initial"@ {
        Some(GtEventView::Nora("initial"@))
    } else if trim(rest) == "refresh"@ {
        Some(GtEventView::Nora("refresh"@))
    } else {
        None
    }
}

/// The value of the first `cause=` part of a comma-separated text (parsed
/// as `i64` after trimming; `None` when it does not parse or is absent).
pub open spec fn cause_kv(parts: Seq<Seq<char>>) -> Option<int>
    decreases parts.len(),
{
    if parts.len() == 0 {
        None
    } else if starts_with(trim(parts[0]), "cause="@) {
        parse_int(trim(trim(parts[0]).skip(6)), i64::MIN as int, i64::MAX as int)
    } else {
        cause_kv(parts.drop_first())
    }
}

/// An event verb: 1 to 32 characters of `[a-z0-9_]`.
pub open spec fn plausible_verb(s: Seq<char>) -> bool {
    &&& 0 < s.len() <= 32
    &&& forall|i: int|
        0 <= i < s.len() ==> ('a' <= #[trigger] s[i] && s[i] <= 'z') || is_digit(s[i]) || s[i] == '_'
}

/// One IPv4 octet of an event: 1 to 3 digits, at most 255.
pub open spec fn plausible_octet(p: Seq<char>) -> bool {
    &&& 0 < p.len() <= 3
    &&& forall|i: int| 0 <= i < p.len() ==> is_digit(#[trigger] p[i])
    &&& parse_uint(p, 65535) matches Some(n) && n <= 255
}

/// An IPv4 of an event: four plausible octets.
pub open spec fn plausible_ipv4(s: Seq<char>) -> bool {
    let ps = split_char(s, '.');
    ps.len() == 4 && forall|k: int| 0 <= k < 4 ==> plausible_octet(#[trigger] ps[k])
}

/// An IPv6 of an event (loosely): at most 45 characters of hex digits and
/// `:`, at least one `:`.
pub open spec fn plausible_ipv6(s: Seq<char>) -> bool {
    &&& s.len() <= 45
    &&& s.contains(':')
    &&& forall|i: int| 0 <= i < s.len() ==> is_hex(#[trigger] s[i]) || s[i] == ':'
}

/// The `cause=`, `v4cnt=` and `v6cnt=` arguments of `+GTIFADDR` (later ones
/// win; unknown keys are ignored; a value that does not parse rejects the
/// line).
pub open spec fn ifaddr_args(ps: Seq<Seq<char>>, cause: int, v4: int, v6: int) -> Option<(int, int, int)>
    decreases ps.len(),
{
    if ps.len() == 0 {
        Some((cause, v4, v6))
    } else {
        let p = ps[0];
        if starts_with(p, "cause="@) {
            match parse_int(p.skip(6), i64::MIN as int, i64::MAX as int) {
                Some(c) => ifaddr_args(ps.drop_first(), c, v4, v6),
                None => None,
            }
        } else if starts_with(p, "v4cnt="@) {
            match parse_uint(p.skip(6), u32::MAX as int) {
                Some(n) => ifaddr_args(ps.drop_first(), cause, n, v6),
                None => None,
            }
        } else if starts_with(p, "v6cnt="@) {
            match parse_uint(p.skip(6), u32::MAX as int) {
                Some(n) => ifaddr_args(ps.drop_first(), cause, v4, n),
                None => None,
            }
        } else {
            ifaddr_args(ps.drop_first(), cause, v4, v6)
        }
    }
}

/// `+GTIFADDR: <reason>,cause=<i>,v4cnt=<n>,v6cnt=<n>`
pub open spec fn spec_parse_ifaddr(rest: Seq<char>) -> Option<GtEventView> {
    let ps = split_char(rest, ',').map_values(|p: Seq<char>| trim(p));
    if !plausible_verb(ps[0]) {
        None
    } else {
        match ifaddr_args(ps.drop_first(), 0, 0, 0) {
            Some((c, a, b)) => Some(
                GtEventView::IfAddr { reason: ps[0], cause: c as i64, v4cnt: a as u32, v6cnt: b as u32 },
            ),
            None => None,
        }
    }
}

/// The last position at or before `n` where `p` occurs in `s`, or `-1`.
pub open spec fn last_occurrence(s: Seq<char>, p: Seq<char>, n: int) -> int
    decreases n + 1,
{
    if n < 0 {
        -1
    } else if occurs_at(s, p, n) {
        n
    } else {
        last_occurrence(s, p, n - 1)
    }
}

/// `+GTIFEVT: <reason>,cause=<i>` (split at the last `,cause=`; a cause
/// that does not parse, or is missing, reads `-1`).
pub open spec fn spec_parse_evt(rest: Seq<char>) -> Option<GtEventView> {
    let i = last_occurrence(rest, ",cause="@, rest.len() - 7);
    let reason = if i >= 0 {
        rest.take(i)
    } else {
        rest
    };
    let cause = if i >= 0 {
        match parse_int(trim(rest.skip(i + 7)), i64::MIN as int, i64::MAX as int) {
            Some(c) => c,
            None => -1,
        }
    } else {
        -1
    };
    if plausible_verb(reason) {
        Some(GtEventView::Evt { reason, cause: cause as i64 })
    } else {
        None
    }
}

/// The event a report line stands for, if it is a well-formed one.
pub open spec fn spec_parse_line(line: Seq<char>) -> Option<GtEventView> {
    let l = trim(line);
    if starts_with(l, "+GTNORA: "@) {
        spec_parse_nora(l.skip(9))
    } else if starts_with(l, "+GTIFMTU: "@) {
        match parse_uint(trim(l.skip(10)), u64::MAX as int) {
            Some(m) => Some(GtEventView::IfMtu(m as u64)),
            None => None,
        }
    } else if starts_with(l, "+GTIFST: "@) {
        match cause_kv(split_char(l.skip(9), ',')) {
            Some(c) => Some(GtEventView::IfSt(c as i64)),
            None => None,
        }
    } else if starts_with(l, "+GTIFADDR: "@) {
        spec_parse_ifaddr(l.skip(11))
    } else if starts_with(l, "+GTIFADDR4: "@) {
        if plausible_ipv4(trim(l.skip(12))) {
            Some(GtEventView::Addr4(trim(l.skip(12))))
        } else {
            None
        }
    } else if starts_with(l, "+GTIFADDR6: "@) {
        if plausible_ipv6(trim(l.skip(12))) {
            Some(GtEventView::Addr6(trim(l.skip(12))))
        } else {
            None
        }
    } else if starts_with(l, "+GTIFEVT: "@) {
        spec_parse_evt(l.skip(10))
    } else {
        None
    }
}

fn parse_nora(v: &Vec<char>, a: usize, b: usize) -> (r: Option<GtEvent>)
    requires
        a <= b <= v@.len(),
    ensures
        opt_event(r) == spec_parse_nora(v@.subrange(a as int, b as int)),
{
    let (x, y) = trim_range(v, a, b);
    if range_eq_str(v, x, y, "initial") {
        Some(GtEvent::Nora("initial"))
    } else if range_eq_str(v, x, y, "refresh") {
        Some(GtEvent::Nora("refresh"))
    } else {
        None
    }
}

fn parse_cause_kv(v: &Vec<char>, a: usize, b: usize) -> (r: Option<i64>)
    requires
        a <= b <= v@.len(),
    ensures
        match r {
            Some(c) => cause_kv(split_char(v@.subrange(a as int, b as int), ',')) == Some(c as int),
            None => cause_kv(split_char(v@.subrange(a as int, b as int), ',')) is None,
        },
{
    let ps = split_range(v, a, b, ',');
    let ghost all = split_char(v@.subrange(a as int, b as int), ',');
    let mut k: usize = 0;
    assert(all.skip(0) == all);
    proof {
        reveal_strlit("cause=");
    }
    while k < ps.len()
        invariant
            all == split_char(v@.subrange(a as int, b as int), ','),
            ps@.len() == all.len(),
            forall|j: int|
                0 <= j < ps@.len() ==> a <= (#[trigger] ps@[j]).0 <= ps@[j].1 <= b && v@.subrange(
                    ps@[j].0 as int,
                    ps@[j].1 as int,
                ) == all[j],
            a <= b <= v@.len(),
            k <= ps@.len(),
            cause_kv(all) == cause_kv(all.skip(k as int)),
            "cause="@.len() == 6,
        decreases ps.len() - k,
    {
        let ghost rest = all.skip(k as int);
        assert(rest[0] == all[k as int]);
        assert(rest.drop_first() == all.skip(k + 1));
        let (s, e) = ps[k];
        let (x, y) = trim_range(v, s, e);
        if range_starts_with_str(v, x, y, "cause=") {
            assert(v@.subrange(x as int, y as int).skip(6) == v@.subrange(x + 6, y as int));
            let (p, q) = trim_range(v, x + 6, y);
            return parse_i64_range(v, p, q);
        }
        k += 1;
    }
    None
}

fn is_plausible_verb(v: &Vec<char>, a: usize, b: usize) -> (r: bool)
    requires
        a <= b <= v@.len(),
    ensures
        r == plausible_verb(v@.subrange(a as int, b as int)),
{
    if a == b || b - a > 32 {
        return false;
    }
    let ghost t = v@.subrange(a as int, b as int);
    let mut i = a;
    while i < b
        invariant
            a <= i <= b <= v@.len(),
            t == v@.subrange(a as int, b as int),
            forall|j: int|
                0 <= j < i - a ==> ('a' <= #[trigger] t[j] && t[j] <= 'z') || is_digit(t[j]) || t[j]
                    == '_',
        decreases b - i,
    {
        let c = v[i];
        assert(t[i - a] == c);
        if !(('a' <= c && c <= 'z') || ('0' <= c && c <= '9') || c == '_') {
            return false;
        }
        i += 1;
    }
    true
}

fn is_plausible_ipv4(v: &Vec<char>, a: usize, b: usize) -> (r: bool)
    requires
        a <= b <= v@.len(),
    ensures
        r == plausible_ipv4(v@.subrange(a as int, b as int)),
{
    let ps = split_range(v, a, b, '.');
    let ghost all = split_char(v@.subrange(a as int, b as int), '.');
    if ps.len() != 4 {
        return false;
    }
    let mut k: usize = 0;
    while k < 4
        invariant
            all == split_char(v@.subrange(a as int, b as int), '.'),
            ps@.len() == 4,
            all.len() == 4,
            forall|j: int|
                0 <= j < 4 ==> a <= (#[trigger] ps@[j]).0 <= ps@[j].1 <= b && v@.subrange(
                    ps@[j].0 as int,
                    ps@[j].1 as int,
                ) == all[j],
            a <= b <= v@.len(),
            k <= 4,
            forall|j: int| 0 <= j < k ==> plausible_octet(#[trigger] all[j]),
        decreases 4 - k,
    {
        let (s, e) = ps[k];
        if s == e || e - s > 3 || !crate::text::all_digits_range(v, s, e) {
            return false;
        }
        match parse_uint_range(v, s, e, 65535) {
            Some(n) => {
                if n > 255 {
                    return false;
                }
            },
            None => {
                return false;
            },
        }
        k += 1;
    }
    true
}

fn is_plausible_ipv6(v: &Vec<char>, a: usize, b: usize) -> (r: bool)
    requires
        a <= b <= v@.len(),
    ensures
        r == plausible_ipv6(v@.subrange(a as int, b as int)),
{
    let ghost t = v@.subrange(a as int, b as int);
    if b - a > 45 || !crate::text::contains_char_range(v, a, b, ':') {
        return false;
    }
    let mut i = a;
    while i < b
        invariant
            a <= i <= b <= v@.len(),
            t == v@.subrange(a as int, b as int),
            forall|j: int| 0 <= j < i - a ==> is_hex(#[trigger] t[j]) || t[j] == ':',
        decreases b - i,
    {
        let c = v[i];
        assert(t[i - a] == c);
        if !(crate::text::is_hex_exec(c) || c == ':') {
            return false;
        }
        i += 1;
    }
    true
}

fn parse_ifaddr(v: &Vec<char>, a: usize, b: usize) -> (r: Option<GtEvent>)
    requires
        a <= b <= v@.len(),
    ensures
        opt_event(r) == spec_parse_ifaddr(v@.subrange(a as int, b as int)),
{
    let ps = split_range(v, a, b, ',');
    let ghost raw = split_char(v@.subrange(a as int, b as int), ',');
    let ghost all = raw.map_values(|p: Seq<char>| trim(p));
    let (r0, r1) = ps[0];
    let (ra, rb) = trim_range(v, r0, r1);
    assert(v@.subrange(ra as int, rb as int) == all[0]);
    if !is_plausible_verb(v, ra, rb) {
        return None;
    }
    proof {
        reveal_strlit("cause=");
        reveal_strlit("v4cnt=");
        reveal_strlit("v6cnt=");
    }
    let mut cause: i64 = 0;
    let mut v4: u32 = 0;
    let mut v6: u32 = 0;
    let mut k: usize = 1;
    assert(all.drop_first().skip(0) == all.drop_first());
    while k < ps.len()
        invariant
            raw == split_char(v@.subrange(a as int, b as int), ','),
            all == raw.map_values(|p: Seq<char>| trim(p)),
            ps@.len() == raw.len(),
            forall|j: int|
                0 <= j < ps@.len() ==> a <= (#[trigger] ps@[j]).0 <= ps@[j].1 <= b && v@.subrange(
                    ps@[j].0 as int,
                    ps@[j].1 as int,
                ) == raw[j],
            a <= b <= v@.len(),
            1 <= k <= ps@.len(),
            ifaddr_args(all.drop_first(), 0, 0, 0) == ifaddr_args(
                all.drop_first().skip(k - 1),
                cause as int,
                v4 as int,
                v6 as int,
            ),
            "cause="@.len() == 6,
            "v4cnt="@.len() == 6,
            "v6cnt="@.len() == 6,
        decreases ps.len() - k,
    {
        let ghost rest = all.drop_first().skip(k - 1);
        assert(rest[0] == all[k as int]);
        assert(rest.drop_first() == all.drop_first().skip(k as int));
        let (s, e) = ps[k];
        let (x, y) = trim_range(v, s, e);
        assert(v@.subrange(x as int, y as int) == all[k as int]);
        let st = range_starts_with_str(v, x, y, "cause=") || range_starts_with_str(v, x, y, "v4cnt=")
            || range_starts_with_str(v, x, y, "v6cnt=");
        if st {
            assert(v@.subrange(x as int, y as int).skip(6) =~= v@.subrange(x + 6, y as int));
        }
        if range_starts_with_str(v, x, y, "cause=") {
            match parse_i64_range(v, x + 6, y) {
                Some(c) => {
                    cause = c;
                },
                None => {
                    return None;
                },
            }
        } else if range_starts_with_str(v, x, y, "v4cnt=") {
            match parse_uint_range(v, x + 6, y, 4294967295) {
                Some(n) => {
                    v4 = n as u32;
                },
                None => {
                    return None;
                },
            }
        } else if range_starts_with_str(v, x, y, "v6cnt=") {
            match parse_uint_range(v, x + 6, y, 4294967295) {
                Some(n) => {
                    v6 = n as u32;
                },
                None => {
                    return None;
                },
            }
        }
        k += 1;
    }
    assert(all.drop_first().skip(ps@.len() - 1).len() == 0);
    Some(GtEvent::IfAddr { reason: string_of_range(v, ra, rb), cause, v4cnt: v4, v6cnt: v6 })
}

fn parse_evt(v: &Vec<char>, a: usize, b: usize) -> (r: Option<GtEvent>)
    requires
        a <= b <= v@.len(),
    ensures
        opt_event(r) == spec_parse_evt(v@.subrange(a as int, b as int)),
{
    let ghost t = v@.subrange(a as int, b as int);
    let pat = chars_of(",cause=");
    proof {
        reveal_strlit(",cause=");
    }
    // the last ",cause=" of the range
    let mut found: Option<usize> = None;
    if b - a >= 7 {
        let mut i: usize = b - a - 7;
        loop
            invariant_except_break
                found is None,
            invariant
                a <= b <= v@.len(),
                t == v@.subrange(a as int, b as int),
                pat@ == ",cause="@,
                pat@.len() == 7,
                t.len() >= 7,
                i <= t.len() - 7,
                last_occurrence(t, pat@, t.len() - 7) == last_occurrence(t, pat@, i as int),
            ensures
                match found {
                    Some(j) => j <= t.len() - 7 && last_occurrence(t, pat@, t.len() - 7) == j,
                    None => last_occurrence(t, pat@, t.len() - 7) == -1,
                },
            decreases i,
        {
            if crate::text::range_eq_str(v, a + i, a + i + 7, ",cause=") {
                assert(t.subrange(i as int, i + 7) == v@.subrange(a + i, a + i + 7));
                found = Some(i);
                break;
            }
            assert(t.subrange(i as int, i + 7) == v@.subrange(a + i, a + i + 7));
            if i == 0 {
                assert(last_occurrence(t, pat@, -1) == -1);
                break;
            }
            i -= 1;
        }
    } else {
        assert(last_occurrence(t, ",cause="@, t.len() - 7) == -1);
    }
    let (ra, rb, cause): (usize, usize, i64) = match found {
        Some(j) => {
            assert(t.take(j as int) == v@.subrange(a as int, a + j));
            assert(t.skip(j + 7) == v@.subrange(a + j + 7, b as int));
            let (p, q) = trim_range(v, a + j + 7, b);
            let c: i64 = match parse_i64_range(v, p, q) {
                Some(c) => c,
                None => -1,
            };
            (a, a + j, c)
        },
        None => (a, b, -1),
    };
    if is_plausible_verb(v, ra, rb) {
        Some(GtEvent::Evt { reason: string_of_range(v, ra, rb), cause })
    } else {
        None
    }
}

/// Parses one report line; `None` when it is not a well-formed `+GT*`
/// report.
pub fn parse_line(line: &str) -> (r: Option<GtEvent>)
    ensures
        opt_event(r) == spec_parse_line(line@),
{
    let v = chars_of(line);
    assert(v@.subrange(0, v@.len() as int) == v@);
    let (a, b) = trim_range(&v, 0, v.len());
    let ghost l = v@.subrange(a as int, b as int);
    proof {
        reveal_strlit("+GTNORA: ");
        reveal_strlit("+GTIFMTU: ");
        reveal_strlit("+GTIFST: ");
        reveal_strlit("+GTIFADDR: ");
        reveal_strlit("+GTIFADDR4: ");
        reveal_strlit("+GTIFADDR6: ");
        reveal_strlit("+GTIFEVT: ");
    }
    if range_starts_with_str(&v, a, b, "+GTNORA: ") {
        assert(l.skip(9) == v@.subrange(a + 9, b as int));
        return parse_nora(&v, a + 9, b);
    }
    if range_starts_with_str(&v, a, b, "+GTIFMTU: ") {
        assert(l.skip(10) == v@.subrange(a + 10, b as int));
        let (x, y) = trim_range(&v, a + 10, b);
        return match parse_uint_range(&v, x, y, 18446744073709551615) {
            Some(m) => Some(GtEvent::IfMtu(m)),
            None => None,
        };
    }
    if range_starts_with_str(&v, a, b, "+GTIFST: ") {
        assert(l.skip(9) == v@.subrange(a + 9, b as int));
        return match parse_cause_kv(&v, a + 9, b) {
            Some(c) => Some(GtEvent::IfSt(c)),
            None => None,
        };
    }
    if range_starts_with_str(&v, a, b, "+GTIFADDR: ") {
        assert(l.skip(11) == v@.subrange(a + 11, b as int));
        return parse_ifaddr(&v, a + 11, b);
    }
    if range_starts_with_str(&v, a, b, "+GTIFADDR4: ") {
        assert(l.skip(12) == v@.subrange(a + 12, b as int));
        let (x, y) = trim_range(&v, a + 12, b);
        return if is_plausible_ipv4(&v, x, y) {
            Some(GtEvent::Addr4(string_of_range(&v, x, y)))
        } else {
            None
        };
    }
    if range_starts_with_str(&v, a, b, "+GTIFADDR6: ") {
        assert(l.skip(12) == v@.subrange(a + 12, b as int));
        let (x, y) = trim_range(&v, a + 12, b);
        return if is_plausible_ipv6(&v, x, y) {
            Some(GtEvent::Addr6(string_of_range(&v, x, y)))
        } else {
            None
        };
    }
    if range_starts_with_str(&v, a, b, "+GTIFEVT: ") {
        assert(l.skip(10) == v@.subrange(a + 10, b as int));
        return parse_evt(&v, a + 10, b);
    }
    None
}

// ---------------------------------------------------------------- event queue and state

/// The state the daemon reads through [`snapshot`] (`/api/eif`).
#[derive(Debug, Clone, Default)]
pub struct GtState {
    /// Events captured so far.
    pub events: u64,
    /// Events dropped because the queue was full.
    pub dropped: u64,
    /// Malformed `+GT` lines swallowed.
    pub malformed: u64,
    /// Verb of the latest event (empty: none yet).
    pub last_reason: String,
    pub last_cause: i64,
    /// Time of the latest event, in unix seconds (0: none yet).
    pub last_at: u64,
    /// The latest IPv4 addresses reported (display only).
    pub v4: Vec<String>,
    pub v6: Vec<String>,
    /// Accelerated rounds triggered.
    pub refreshes: u64,
}

/// The mathematical value of a [`GtState`].
pub struct GtStateView {
    pub events: u64,
    pub dropped: u64,
    pub malformed: u64,
    pub last_reason: Seq<char>,
    pub last_cause: i64,
    pub last_at: u64,
    pub v4: Seq<Seq<char>>,
    pub v6: Seq<Seq<char>>,
    pub refreshes: u64,
}

impl View for GtState {
    type V = GtStateView;

    open spec fn view(&self) -> GtStateView {
        GtStateView {
            events: self.events,
            dropped: self.dropped,
            malformed: self.malformed,
            last_reason: self.last_reason@,
            last_cause: self.last_cause,
            last_at: self.last_at,
            v4: strs(self.v4@),
            v6: strs(self.v6@),
            refreshes: self.refreshes,
        }
    }
}

/// The event queue and the state the reports feed.
pub struct UrcFeed {
    pub queue: VecDeque<GtEvent>,
    /// Events dropped because the queue was full.
    pub dropped: u64,
    /// Malformed `+GT` lines swallowed.
    pub malformed: u64,
    pub state: GtState,
}

/// The mathematical value of a [`UrcFeed`].
pub struct UrcFeedView {
    pub queue: Seq<GtEventView>,
    pub dropped: u64,
    pub malformed: u64,
    pub state: GtStateView,
}

/// The views of a sequence of events.
pub open spec fn events_view(q: Seq<GtEvent>) -> Seq<GtEventView> {
    q.map_values(|e: GtEvent| e@)
}

impl View for UrcFeed {
    type V = UrcFeedView;

    open spec fn view(&self) -> UrcFeedView {
        UrcFeedView {
            queue: events_view(self.queue@),
            dropped: self.dropped,
            malformed: self.malformed,
            state: self.state@,
        }
    }
}

/// A counter one step on (wrapping, as release builds of the daemon do).
pub open spec fn bump(x: u64) -> u64 {
    if x == u64::MAX {
        0
    } else {
        (x + 1) as u64
    }
}

fn bump_exec(x: u64) -> (r: u64)
    ensures
        r == bump(x),
{
    if x == u64::MAX {
        0
    } else {
        x + 1
    }
}

/// An address list after a report of `a`: unchanged when `a` is known,
/// else `a` appended and the oldest dropped beyond eight.
pub open spec fn remember(l: Seq<Seq<char>>, a: Seq<char>) -> Seq<Seq<char>> {
    if l.contains(a) {
        l
    } else if l.len() + 1 > ADDR_KEEP {
        l.push(a).drop_first()
    } else {
        l.push(a)
    }
}

/// The state after an event at `now`.
pub open spec fn state_after(s: GtStateView, e: GtEventView, now: u64) -> GtStateView {
    let s1 = GtStateView { events: bump(s.events), last_at: now, ..s };
    match e {
        GtEventView::Nora(k) => GtStateView { last_reason: "no_ra_"@ + k, ..s1 },
        GtEventView::IfMtu(_) => GtStateView { last_reason: "mtu"@, ..s1 },
        GtEventView::IfSt(_) => GtStateView { last_reason: "ifst"@, ..s1 },
        GtEventView::IfAddr { reason, cause, .. } => GtStateView {
            last_reason: reason,
            last_cause: cause,
            ..s1
        },
        GtEventView::Addr4(a) => GtStateView { v4: remember(s1.v4, a), ..s1 },
        GtEventView::Addr6(a) => GtStateView { v6: remember(s1.v6, a), ..s1 },
        GtEventView::Evt { reason, cause } => GtStateView {
            last_reason: reason,
            last_cause: cause,
            ..s1
        },
    }
}

/// The feed after an event at `now`: queued (the oldest dropped when the
/// queue is full) and the state updated.
pub open spec fn pushed(f: UrcFeedView, e: GtEventView, now: u64) -> UrcFeedView {
    let full = f.queue.len() >= QUEUE_CAP;
    UrcFeedView {
        queue: if full {
            f.queue.drop_first().push(e)
        } else {
            f.queue.push(e)
        },
        dropped: if full {
            bump(f.dropped)
        } else {
            f.dropped
        },
        malformed: f.malformed,
        state: state_after(f.state, e, now),
    }
}

/// Capturing a line at `now`: lines not starting with `+GT` pass (`false`);
/// a well-formed report is pushed, a malformed one counted, and both are
/// swallowed (`true`).
pub open spec fn spec_capture(f: UrcFeedView, line: Seq<char>, now: u64) -> (UrcFeedView, bool) {
    if !starts_with(line, "+GT"@) {
        (f, false)
    } else {
        match spec_parse_line(line) {
            Some(e) => (pushed(f, e, now), true),
            None => (UrcFeedView { malformed: bump(f.malformed), ..f }, true),
        }
    }
}

impl UrcFeed {
    /// An empty feed.
    pub fn new() -> (r: UrcFeed)
        ensures
            r@.queue.len() == 0,
            r@.dropped == 0,
            r@.malformed == 0,
            r@.state.events == 0,
            r@.state.dropped == 0,
            r@.state.malformed == 0,
            r@.state.last_reason.len() == 0,
            r@.state.last_cause == 0,
            r@.state.v4.len() == 0,
            r@.state.v6.len() == 0,
            r@.state.refreshes == 0,
            r@.state.last_at == 0,
            feed_bounded(r@),
            r@ == empty_feed(),
    {
        let r = UrcFeed {
            queue: VecDeque::new(),
            dropped: 0,
            malformed: 0,
            state: GtState {
                events: 0,
                dropped: 0,
                malformed: 0,
                last_reason: String::new(),
                last_cause: 0,
                last_at: 0,
                v4: Vec::new(),
                v6: Vec::new(),
                refreshes: 0,
            },
        };
        assert(strs(r.state.v4@).len() == 0);
        assert(r@.queue =~= Seq::<GtEventView>::empty());
        assert(r@.state.last_reason =~= Seq::<char>::empty());
        assert(r@.state.v4 =~= Seq::<Seq<char>>::empty());
        assert(r@.state.v6 =~= Seq::<Seq<char>>::empty());
        r
    }
}

/// Whether `l` holds a string equal to `a`.
fn contains_string(l: &Vec<String>, a: &str) -> (r: bool)
    ensures
        r == strs(l@).contains(a@),
{
    let mut i: usize = 0;
    while i < l.len()
        invariant
            i <= l@.len(),
            forall|j: int| 0 <= j < i ==> l@[j]@ != a@,
        decreases l.len() - i,
    {
        if str_eq(l[i].as_str(), a) {
            assert(strs(l@)[i as int] == a@);
            return true;
        }
        i += 1;
    }
    proof {
        if strs(l@).contains(a@) {
            let k = choose|k: int| 0 <= k < strs(l@).len() && strs(l@)[k] == a@;
            assert(l@[k]@ == a@);
        }
    }
    false
}

fn remember_exec(l: &mut Vec<String>, a: &str)
    ensures
        strs(final(l)@) == remember(strs(old(l)@), a@),
{
    if contains_string(l, a) {
        return;
    }
    l.push(a.to_owned());
    assert(strs(l@) =~= strs(old(l)@).push(a@));
    if l.len() > ADDR_KEEP {
        l.remove(0);
        assert(strs(l@) =~= strs(old(l)@).push(a@).drop_first());
    }
}

/// Queues an event captured at `now` and updates the state.
pub fn push_event(feed: &mut UrcFeed, ev: GtEvent, now: u64)
    ensures
        final(feed)@ == pushed(old(feed)@, ev@, now),
{
    let ghost f0 = feed@;
    feed.state.events = bump_exec(feed.state.events);
    feed.state.last_at = now;
    match &ev {
        GtEvent::Nora(k) => {
            let mut s = String::new();
            push_str(&mut s, "no_ra_");
            push_str(&mut s, k);
            feed.state.last_reason = s;
        },
        GtEvent::IfMtu(_) => {
            feed.state.last_reason = String::from_str("mtu");
        },
        GtEvent::IfSt(_) => {
            feed.state.last_reason = String::from_str("ifst");
        },
        GtEvent::IfAddr { reason, cause, .. } => {
            feed.state.last_reason = reason.clone();
            feed.state.last_cause = *cause;
        },
        GtEvent::Addr4(a) => {
            remember_exec(&mut feed.state.v4, a.as_str());
        },
        GtEvent::Addr6(a) => {
            remember_exec(&mut feed.state.v6, a.as_str());
        },
        GtEvent::Evt { reason, cause } => {
            feed.state.last_reason = reason.clone();
            feed.state.last_cause = *cause;
        },
    }
    assert(feed.state@ == state_after(f0.state, ev@, now));
    if feed.queue.len() >= QUEUE_CAP {
        let _ = feed.queue.pop_front();
        feed.dropped = bump_exec(feed.dropped);
    }
    let ghost q1 = feed.queue@;
    feed.queue.push_back(ev);
    assert(events_view(feed.queue@) =~= events_view(q1).push(ev@));
    assert(f0.queue.len() >= QUEUE_CAP ==> events_view(q1) =~= f0.queue.drop_first());
    assert(f0.queue.len() < QUEUE_CAP ==> events_view(q1) =~= f0.queue);
}

/// Offers a complete line (taken from the stream at `now`) to the report
/// layer; `true` when the line is swallowed and must not reach the command
/// response.
pub fn capture_line(feed: &mut UrcFeed, line: &str, now: u64) -> (taken: bool)
    ensures
        (final(feed)@, taken) == spec_capture(old(feed)@, line@, now),
{
    let v = chars_of(line);
    assert(v@.subrange(0, v@.len() as int) == v@);
    if !range_starts_with_str(&v, 0, v.len(), "+GT") {
        return false;
    }
    match parse_line(line) {
        Some(ev) => {
            push_event(feed, ev, now);
            true
        },
        None => {
            feed.malformed = bump_exec(feed.malformed);
            true
        },
    }
}

/// Takes every queued event, oldest first.
pub fn take_events(feed: &mut UrcFeed) -> (r: Vec<GtEvent>)
    ensures
        events_view(r@) == old(feed)@.queue,
        final(feed)@ == (UrcFeedView { queue: Seq::empty(), ..old(feed)@ }),
{
    let ghost all = feed.queue@;
    let ghost f0 = feed@;
    let mut q: Vec<GtEvent> = Vec::new();
    while feed.queue.len() > 0
        invariant
            q@ + feed.queue@ == all,
            feed.dropped == f0.dropped,
            feed.malformed == f0.malformed,
            feed.state@ == f0.state,
        decreases feed.queue@.len(),
    {
        let ghost before = feed.queue@;
        match feed.queue.pop_front() {
            Some(e) => {
                q.push(e);
                assert(q@ + feed.queue@ =~= all);
            },
            None => {},
        }
    }
    assert(feed.queue@ =~= Seq::<GtEvent>::empty());
    assert(q@ =~= all);
    assert(events_view(feed.queue@) =~= Seq::<GtEventView>::empty());
    q
}

fn copy_strings(l: &Vec<String>) -> (r: Vec<String>)
    ensures
        strs(r@) == strs(l@),
{
    let mut r: Vec<String> = Vec::new();
    let mut i: usize = 0;
    while i < l.len()
        invariant
            i <= l@.len(),
            strs(r@) == strs(l@.take(i as int)),
        decreases l.len() - i,
    {
        let ghost r0 = r@;
        let c = l[i].clone();
        assert(c@ == l@[i as int]@);
        r.push(c);
        assert(strs(r@) =~= strs(r0).push(c@));
        assert(strs(l@.take(i + 1)) =~= strs(l@.take(i as int)).push(l@[i as int]@));
        i += 1;
    }
    assert(l@.take(l@.len() as int) == l@);
    r
}

/// The state, with the queue's drop and malformed counts.
pub fn snapshot(feed: &UrcFeed) -> (r: GtState)
    ensures
        r@ == (GtStateView { dropped: feed.dropped, malformed: feed.malformed, ..feed.state@ }),
{
    GtState {
        events: feed.state.events,
        dropped: feed.dropped,
        malformed: feed.malformed,
        last_reason: feed.state.last_reason.clone(),
        last_cause: feed.state.last_cause,
        last_at: feed.state.last_at,
        v4: copy_strings(&feed.state.v4),
        v6: copy_strings(&feed.state.v6),
        refreshes: feed.state.refreshes,
    }
}

/// Counts one accelerated round.
pub fn note_refresh(feed: &mut UrcFeed)
    ensures
        final(feed)@ == (UrcFeedView {
            state: GtStateView { refreshes: bump(old(feed)@.state.refreshes), ..old(feed)@.state },
            ..old(feed)@
        }),
{
    feed.state.refreshes = bump_exec(feed.state.refreshes);
}

// ---------------------------------------------------------------- line gate

/// What `String::from_utf8_lossy` makes of a byte string.
pub uninterp spec fn lossy_of(b: Seq<u8>) -> Seq<char>;

/// `String::from_utf8_lossy` (std): the result is named; valid UTF-8
/// comes back as the text it encodes, as the documentation says. How
/// invalid sequences are replaced (U+FFFD) is not restated here.
#[verifier::external_body]
pub(crate) fn lossy(b: &[u8]) -> (s: String)
    ensures
        s@ == lossy_of(b@),
        forall|t: Seq<char>| #[trigger] encode_utf8(t) == b@ ==> s@ == t,
{
    String::from_utf8_lossy(b).into_owned()
}

/// Index of the first `\n` byte, or `-1`.
pub open spec fn find_nl(b: Seq<u8>) -> int
    decreases b.len(),
{
    if b.len() == 0 {
        -1
    } else if b[0] == 10 {
        0
    } else {
        let r = find_nl(b.drop_first());
        if r < 0 {
            -1
        } else {
            r + 1
        }
    }
}

/// The text of a complete line (which ends with `\n`): without the line
/// end (and a `\r` before it), decoded, trimmed.
pub open spec fn gate_text(line: Seq<u8>) -> Seq<char> {
    let n = line.len() - 1;
    let end = if n > 0 && line[n - 1] == 13 {
        n - 1
    } else {
        n
    };
    trim(lossy_of(line.take(end)))
}

/// The line filter over a buffer: every complete line is offered to the
/// report layer (blank lines are not); lines it does not swallow go to the
/// output, with their line end. Returns the output, the unterminated
/// residue, and the feed afterwards.
pub open spec fn gate_run(b: Seq<u8>, f: UrcFeedView, now: u64) -> (Seq<u8>, Seq<u8>, UrcFeedView)
    decreases b.len(),
{
    let i = find_nl(b);
    if i < 0 || i >= b.len() {
        (seq![], b, f)
    } else {
        let line = b.take(i + 1);
        let t = gate_text(line);
        let (f1, taken) = if t.len() == 0 {
            (f, false)
        } else {
            spec_capture(f, t, now)
        };
        let (o, r, f2) = gate_run(b.skip(i + 1), f1, now);
        (
            if taken {
                o
            } else {
                line + o
            },
            r,
            f2,
        )
    }
}

pub proof fn lemma_find_nl(s: Seq<u8>)
    ensures
        -1 <= find_nl(s) < s.len(),
        find_nl(s) >= 0 ==> s[find_nl(s)] == 10,
        forall|j: int| 0 <= j < find_nl(s) ==> s[j] != 10,
        find_nl(s) == -1 ==> forall|j: int| 0 <= j < s.len() ==> s[j] != 10,
    decreases s.len(),
{
    if s.len() > 0 {
        lemma_find_nl(s.drop_first());
        if s[0] != 10 {
            assert forall|j: int| 0 <= j < find_nl(s) implies s[j] != 10 by {
                if j > 0 {
                    assert(s[j] == s.drop_first()[j - 1]);
                }
            }
            if find_nl(s.drop_first()) < 0 {
                assert forall|j: int| 0 <= j < s.len() implies s[j] != 10 by {
                    if j > 0 {
                        assert(s[j] == s.drop_first()[j - 1]);
                    }
                }
            }
        }
    }
}

proof fn lemma_find_nl_at(s: Seq<u8>, k: int)
    requires
        0 <= k < s.len(),
        s[k] == 10,
        forall|j: int| 0 <= j < k ==> s[j] != 10,
    ensures
        find_nl(s) == k,
{
    lemma_find_nl(s);
    let r = find_nl(s);
    if r == -1 {
        assert(s[k] != 10);
    }
}

proof fn lemma_find_nl_none(s: Seq<u8>)
    requires
        forall|j: int| 0 <= j < s.len() ==> s[j] != 10,
    ensures
        find_nl(s) == -1,
{
    lemma_find_nl(s);
    if find_nl(s) >= 0 {
        assert(s[find_nl(s)] == 10);
    }
}

/// A `\n` in `x` is found at the same place in `x + y`.
proof fn lemma_find_nl_append(x: Seq<u8>, y: Seq<u8>)
    requires
        find_nl(x) >= 0,
    ensures
        find_nl(x + y) == find_nl(x),
{
    lemma_find_nl(x);
    let k = find_nl(x);
    assert forall|j: int| 0 <= j < k implies (x + y)[j] != 10 by {
        assert((x + y)[j] == x[j]);
    }
    assert((x + y)[k] == x[k]);
    lemma_find_nl_at(x + y, k);
}

/// Two chunks `x` and `y` fed one after the other give what `x + y` fed at
/// once gives: the same output (in two parts), residue and feed. Where the
/// stream breaks between reads changes nothing that passes or is captured.
pub proof fn lemma_gate_chunking(x: Seq<u8>, y: Seq<u8>, f: UrcFeedView, now: u64)
    ensures
        ({
            let (o1, r1, f1) = gate_run(x, f, now);
            let (o2, r2, f2) = gate_run(r1 + y, f1, now);
            gate_run(x + y, f, now) == (o1 + o2, r2, f2)
        }),
    decreases x.len(),
{
    lemma_find_nl(x);
    let i = find_nl(x);
    if i < 0 {
        assert(seq![] + gate_run(x + y, f, now).0 == gate_run(x + y, f, now).0);
    } else {
        lemma_find_nl_append(x, y);
        let line = x.take(i + 1);
        assert((x + y).take(i + 1) == line);
        assert((x + y).skip(i + 1) == x.skip(i + 1) + y);
        let t = gate_text(line);
        let (f1, taken) = if t.len() == 0 {
            (f, false)
        } else {
            spec_capture(f, t, now)
        };
        lemma_gate_chunking(x.skip(i + 1), y, f1, now);
        let (o1, r1, g1) = gate_run(x.skip(i + 1), f1, now);
        let (o2, r2, g2) = gate_run(r1 + y, g1, now);
        if !taken {
            assert(line + (o1 + o2) == (line + o1) + o2);
        }
    }
}

// ---------------------------------------------------------------- what passes

/// `o` is made of some of the complete (`\n`-terminated) lines of `b`, each
/// whole and byte for byte, in the order they stand in `b`; nothing else.
pub open spec fn whole_lines_of(o: Seq<u8>, b: Seq<u8>) -> bool
    decreases b.len(),
{
    let i = find_nl(b);
    if i < 0 || i >= b.len() {
        o.len() == 0
    } else {
        let line = b.take(i + 1);
        ||| whole_lines_of(o, b.skip(i + 1))
        ||| (o.len() >= line.len() && o.take(line.len() as int) == line && whole_lines_of(
            o.skip(line.len() as int),
            b.skip(i + 1),
        ))
    }
}

/// The line gate lets through only whole lines of its input, each with its
/// line end, byte for byte and in input order, never a fragment; what it
/// keeps is the input's unterminated tail.
pub proof fn lemma_gate_passes_whole_lines(b: Seq<u8>, f: UrcFeedView, now: u64)
    ensures
        whole_lines_of(gate_run(b, f, now).0, b),
        gate_run(b, f, now).1.len() <= b.len(),
        b.skip(b.len() - gate_run(b, f, now).1.len()) == gate_run(b, f, now).1,
        forall|j: int| 0 <= j < gate_run(b, f, now).1.len() ==> #[trigger] gate_run(b, f, now).1[j] != 10,
    decreases b.len(),
{
    lemma_find_nl(b);
    let i = find_nl(b);
    if i < 0 || i >= b.len() {
        assert(b.skip(0) == b);
    } else {
        let line = b.take(i + 1);
        let t = gate_text(line);
        let (f1, taken) = if t.len() == 0 {
            (f, false)
        } else {
            spec_capture(f, t, now)
        };
        let rest = b.skip(i + 1);
        lemma_gate_passes_whole_lines(rest, f1, now);
        let (o, r, f2) = gate_run(rest, f1, now);
        assert(rest.skip(rest.len() - r.len()) =~= b.skip(b.len() - r.len()));
        if !taken {
            let w = line + o;
            assert(w.take(line.len() as int) =~= line);
            assert(w.skip(line.len() as int) =~= o);
        }
    }
}

// ---------------------------------------------------------------- bounds

/// An address list as the state keeps it: at most [`ADDR_KEEP`] pairwise
/// distinct addresses.
pub open spec fn addrs_bounded(l: Seq<Seq<char>>) -> bool {
    l.len() <= ADDR_KEEP && l.no_duplicates()
}

/// The bounds of a feed: at most [`QUEUE_CAP`] queued events, and the
/// address lists of both families bounded.
pub open spec fn feed_bounded(f: UrcFeedView) -> bool {
    &&& f.queue.len() <= QUEUE_CAP
    &&& addrs_bounded(f.state.v4)
    &&& addrs_bounded(f.state.v6)
}

proof fn lemma_remember_bounded(l: Seq<Seq<char>>, a: Seq<char>)
    requires
        addrs_bounded(l),
    ensures
        addrs_bounded(remember(l, a)),
{
    if !l.contains(a) {
        let m = l.push(a);
        assert(m.no_duplicates()) by {
            assert forall|i: int, j: int| 0 <= i < m.len() && 0 <= j < m.len() && i != j implies m[i] != m[j] by {
                if i < l.len() && j < l.len() {
                    assert(m[i] == l[i] && m[j] == l[j]);
                } else if i < l.len() {
                    assert(m[i] == l[i] && m[j] == a);
                    assert(l.contains(l[i]));
                } else {
                    assert(m[j] == l[j] && m[i] == a);
                    assert(l.contains(l[j]));
                }
            }
        }
        if l.len() + 1 > ADDR_KEEP {
            let d = m.drop_first();
            assert forall|i: int, j: int| 0 <= i < d.len() && 0 <= j < d.len() && i != j implies d[i] != d[j] by {
                assert(d[i] == m[i + 1] && d[j] == m[j + 1]);
            }
        }
    }
}

proof fn lemma_pushed_bounded(f: UrcFeedView, e: GtEventView, now: u64)
    requires
        feed_bounded(f),
    ensures
        feed_bounded(pushed(f, e, now)),
{
    match e {
        GtEventView::Addr4(a) => lemma_remember_bounded(f.state.v4, a),
        GtEventView::Addr6(a) => lemma_remember_bounded(f.state.v6, a),
        _ => {},
    }
}

proof fn lemma_gate_run_bounded(b: Seq<u8>, f: UrcFeedView, now: u64)
    requires
        feed_bounded(f),
    ensures
        feed_bounded(gate_run(b, f, now).2),
    decreases b.len(),
{
    lemma_find_nl(b);
    let i = find_nl(b);
    if 0 <= i < b.len() {
        let t = gate_text(b.take(i + 1));
        if t.len() > 0 {
            let line = t;
            if starts_with(line, "+GT"@) {
                match spec_parse_line(line) {
                    Some(e) => lemma_pushed_bounded(f, e, now),
                    None => {},
                }
            }
            lemma_gate_run_bounded(b.skip(i + 1), spec_capture(f, t, now).0, now);
        } else {
            lemma_gate_run_bounded(b.skip(i + 1), f, now);
        }
    }
}

/// The feed keeps its bounds through every operation on it: an event
/// pushed (the oldest dropped and counted when the queue holds
/// [`QUEUE_CAP`]; the event count one up), a line captured, a chunk fed
/// through the line gate, the queue taken, an accelerated round noted. With
/// [`UrcFeed::new`] starting bounded, no sequence of calls queues more than
/// [`QUEUE_CAP`] events (so [`take_events`] hands out at most that many) or
/// keeps more than [`ADDR_KEEP`] distinct addresses of a family.
pub proof fn lemma_feed_stays_bounded(f: UrcFeedView, e: GtEventView, line: Seq<char>, chunk: Seq<u8>, now: u64)
    requires
        feed_bounded(f),
    ensures
        feed_bounded(pushed(f, e, now)),
        pushed(f, e, now).state.events == bump(f.state.events),
        pushed(f, e, now).dropped == (if f.queue.len() >= QUEUE_CAP {
            bump(f.dropped)
        } else {
            f.dropped
        }),
        feed_bounded(spec_capture(f, line, now).0),
        feed_bounded(gate_run(chunk, f, now).2),
        feed_bounded(UrcFeedView { queue: Seq::empty(), ..f }),
        feed_bounded(
            UrcFeedView { state: GtStateView { refreshes: bump(f.state.refreshes), ..f.state }, ..f },
        ),
{
    lemma_pushed_bounded(f, e, now);
    if starts_with(line, "+GT"@) {
        match spec_parse_line(line) {
            Some(e2) => lemma_pushed_bounded(f, e2, now),
            None => {},
        }
    }
    lemma_gate_run_bounded(chunk, f, now);
}

/// One operation on a feed, for laws over sequences of calls.
pub enum FeedOp {
    /// A line offered at a time ([`capture_line`]).
    Capture(Seq<char>, u64),
    /// An event queued at a time ([`push_event`]).
    Push(GtEventView, u64),
    /// Input read from the port, with what the line gate held, split into
    /// lines at a time ([`LineGate::feed`]).
    Gate(Seq<u8>, u64),
    /// The queue taken ([`take_events`]).
    Take,
    /// An accelerated round noted ([`note_refresh`]).
    Refresh,
}

/// The feed after one operation, as the operation's contract states it.
pub open spec fn feed_step(f: UrcFeedView, op: FeedOp) -> UrcFeedView {
    match op {
        FeedOp::Capture(line, now) => spec_capture(f, line, now).0,
        FeedOp::Push(e, now) => pushed(f, e, now),
        FeedOp::Gate(b, now) => gate_run(b, f, now).2,
        FeedOp::Take => UrcFeedView { queue: Seq::empty(), ..f },
        FeedOp::Refresh => UrcFeedView {
            state: GtStateView { refreshes: bump(f.state.refreshes), ..f.state },
            ..f
        },
    }
}

/// The feed after a sequence of operations.
pub open spec fn feed_after(f: UrcFeedView, ops: Seq<FeedOp>) -> UrcFeedView
    decreases ops.len(),
{
    if ops.len() == 0 {
        f
    } else {
        feed_after(feed_step(f, ops[0]), ops.drop_first())
    }
}

/// The feed [`UrcFeed::new`] makes.
pub open spec fn empty_feed() -> UrcFeedView {
    UrcFeedView {
        queue: Seq::empty(),
        dropped: 0,
        malformed: 0,
        state: GtStateView {
            events: 0,
            dropped: 0,
            malformed: 0,
            last_reason: Seq::empty(),
            last_cause: 0,
            last_at: 0,
            v4: Seq::empty(),
            v6: Seq::empty(),
            refreshes: 0,
        },
    }
}

proof fn lemma_feed_after_bounded(f: UrcFeedView, ops: Seq<FeedOp>)
    requires
        feed_bounded(f),
    ensures
        feed_bounded(feed_after(f, ops)),
    decreases ops.len(),
{
    if ops.len() > 0 {
        match ops[0] {
            FeedOp::Capture(line, now) => lemma_feed_stays_bounded(f, GtEventView::IfMtu(0), line, seq![], now),
            FeedOp::Push(e, now) => lemma_feed_stays_bounded(f, e, seq![], seq![], now),
            FeedOp::Gate(b, now) => lemma_feed_stays_bounded(f, GtEventView::IfMtu(0), seq![], b, now),
            _ => lemma_feed_stays_bounded(f, GtEventView::IfMtu(0), seq![], seq![], 0),
        }
        lemma_feed_after_bounded(feed_step(f, ops[0]), ops.drop_first());
    }
}

/// Over any sequence of calls on a new feed (lines captured, events pushed,
/// chunks through the line gate, the queue taken, refreshes noted), the
/// queue never holds more than [`QUEUE_CAP`] events (so [`take_events`]
/// never hands out more) and each family keeps at most [`ADDR_KEEP`]
/// pairwise distinct addresses.
pub proof fn lemma_feed_bounded_always(ops: Seq<FeedOp>)
    ensures
        feed_bounded(feed_after(empty_feed(), ops)),
{
    lemma_feed_after_bounded(empty_feed(), ops);
}

/// Splits complete lines off a byte stream that may be cut anywhere:
/// `+GT` report lines are captured, every other complete line goes on to
/// the command response, and an unterminated residue waits for the next
/// chunk.
pub struct LineGate {
    pub buf: Vec<u8>,
}

/// A copy of `v[lo..hi]`.
fn bytes_range(v: &Vec<u8>, lo: usize, hi: usize) -> (r: Vec<u8>)
    requires
        lo <= hi <= v@.len(),
    ensures
        r@ == v@.subrange(lo as int, hi as int),
{
    let mut r: Vec<u8> = Vec::new();
    let mut i = lo;
    while i < hi
        invariant
            lo <= i <= hi <= v@.len(),
            r@ == v@.subrange(lo as int, i as int),
        decreases hi - i,
    {
        r.push(v[i]);
        i += 1;
        assert(r@ =~= v@.subrange(lo as int, i as int));
    }
    r
}

impl LineGate {
    /// A gate with nothing buffered.
    pub fn new() -> (g: LineGate)
        ensures
            g.buf@.len() == 0,
    {
        LineGate { buf: Vec::new() }
    }

    /// Feeds a chunk read at `now` (see [`gate_run`]).
    pub fn feed(&mut self, urc: &mut UrcFeed, chunk: &[u8], out: &mut Vec<u8>, now: u64)
        ensures
            ({
                let (o, r, f) = gate_run(old(self).buf@ + chunk@, old(urc)@, now);
                &&& final(out)@ == old(out)@ + o
                &&& final(self).buf@ == r
                &&& final(urc)@ == f
            }),
    {
        let ghost whole = self.buf@ + chunk@;
        let ghost f0 = urc@;
        let ghost out0 = out@;
        self.buf.extend_from_slice(chunk);
        assert(self.buf@ == whole);
        loop
            invariant
                ({
                    let (o, r, f) = gate_run(whole, f0, now);
                    let (o2, r2, f2) = gate_run(self.buf@, urc@, now);
                    &&& out0.len() <= out@.len()
                    &&& o == out@.skip(out0.len() as int) + o2
                    &&& r == r2
                    &&& f == f2
                    &&& out@.take(out0.len() as int) == out0
                }),
            ensures
                ({
                    let (o, r, f) = gate_run(whole, f0, now);
                    &&& out@ == out0 + o
                    &&& self.buf@ == r
                    &&& urc@ == f
                }),
            decreases self.buf@.len(),
        {
            // the first line end
            let mut pos: usize = 0;
            while pos < self.buf.len() && self.buf[pos] != 10
                invariant
                    pos <= self.buf@.len(),
                    forall|j: int| 0 <= j < pos ==> self.buf@[j] != 10,
                decreases self.buf@.len() - pos,
            {
                pos += 1;
            }
            if pos == self.buf.len() {
                proof {
                    lemma_find_nl_none(self.buf@);
                    assert(out@ =~= out0 + out@.skip(out0.len() as int));
                }
                break;
            }
            proof {
                lemma_find_nl_at(self.buf@, pos as int);
            }
            let ghost b = self.buf@;
            let mut line: Vec<u8> = Vec::new();
            std::mem::swap(&mut line, &mut self.buf);
            let rest = line.split_off(pos + 1);
            self.buf = rest;
            assert(line@ == b.take(pos + 1));
            assert(self.buf@ == b.skip(pos + 1));
            let mut end = pos;
            if end > 0 && line[end - 1] == 13 {
                end -= 1;
            }
            let body = bytes_range(&line, 0, end);
            assert(body@ == line@.take(end as int));
            let text = lossy(body.as_slice());
            let t = crate::at::port::trimmed(text.as_str());
            assert(t@ == gate_text(line@));
            let ghost out_before = out@;
            if t.as_str().is_empty() {
                out.extend_from_slice(line.as_slice());
            } else if !capture_line(urc, t.as_str(), now) {
                out.extend_from_slice(line.as_slice());
            }
            proof {
                assert(out@.take(out0.len() as int) =~= out0);
                assert(out_before.skip(out0.len() as int) + line@ =~= out@.skip(out0.len() as int)
                    || out_before == out@);
            }
        }
    }
}

} // verus!
