//! IPv4 gateway planning.
//!
//! The FM350's RNDIS channel offers no DHCP, so IPv4 is configured
//! statically: the address comes from `AT+CGPADDR`, the DNS servers from
//! `AT+GTDNS`, and netmask and gateway from `gateway_mode` (default `auto`).
//!
//! Without a gateway the host ARPs for every public address and depends on
//! the modem answering as a proxy; some firmwares answer only for their own
//! gateway, and the link then sends nothing at all. Planning is pure
//! ([`plan_gateway`]); the ARP check ([`probe_gateway`] judges its output)
//! may only run once the address is in the kernel.
use crate::addr::{is_valid_ipv4, spec_is_valid_ipv4};
use crate::config::Config;
use crate::modem::pdp::opt_view;
use crate::net::shell::{spec_sq, sq};
use crate::net::v6::{push_cmd, push_cmd2, push_cmd4};
use crate::text::{
    all_digits, all_digits_range, chars_of, dec_str, dec_value, dec_value_bounded, join,
    join_strings, parse_uint, parse_uint_range, push_char, push_dec, push_str, split_char,
    split_range, str_eq, string_of_range, strs, trim, trim_range, words, words_of, words_range,
};
use vstd::prelude::*;

verus! {

// ---------------------------------------------------------------- private / CGNAT

/// The pieces that parse as a `u8` (the others are skipped, as `filter_map`
/// does), as numbers.
pub open spec fn u8_octets(parts: Seq<Seq<char>>) -> Seq<int>
    decreases parts.len(),
{
    if parts.len() == 0 {
        seq![]
    } else {
        let rest = u8_octets(parts.drop_last());
        match parse_uint(parts.last(), 255) {
            Some(n) => rest.push(n),
            None => rest,
        }
    }
}

/// 10/8, 172.16/12, 192.168/16 or 100.64/10, judged on exactly four octets.
pub open spec fn private_or_cgnat_octets(o: Seq<int>) -> bool {
    &&& o.len() == 4
    &&& {
        ||| o[0] == 10
        ||| (o[0] == 172 && 16 <= o[1] <= 31)
        ||| (o[0] == 192 && o[1] == 168)
        ||| (o[0] == 100 && 64 <= o[1] <= 127)
    }
}

pub open spec fn spec_is_private_or_cgnat(ip: Seq<char>) -> bool {
    private_or_cgnat_octets(u8_octets(split_char(ip, '.')))
}

/// Whether the dotted IPv4 lies in a range where the gateway can safely be
/// guessed as `.1` of the same /24 (private and carrier-grade NAT ranges).
/// Public addresses are never guessed: a wrong gateway would block the
/// working onlink route.
pub fn is_private_or_cgnat(ip: &str) -> (b: bool)
    ensures
        b == spec_is_private_or_cgnat(ip@),
{
    let v = chars_of(ip);
    assert(v@.subrange(0, v@.len() as int) == v@);
    let parts = split_range(&v, 0, v.len(), '.');
    let ghost ps = split_char(v@, '.');
    let mut oct: Vec<u64> = Vec::new();
    let mut k: usize = 0;
    while k < parts.len()
        invariant
            v@ == ip@,
            ps == split_char(v@, '.'),
            parts@.len() == ps.len(),
            forall|j: int|
                0 <= j < parts@.len() ==> 0 <= (#[trigger] parts@[j]).0 <= parts@[j].1 <= v@.len()
                    && v@.subrange(parts@[j].0 as int, parts@[j].1 as int) == ps[j],
            k <= parts@.len(),
            oct@.len() == u8_octets(ps.take(k as int)).len(),
            forall|j: int| 0 <= j < oct@.len() ==> oct@[j] as int == #[trigger] u8_octets(ps.take(k as int))[j],
        decreases parts.len() - k,
    {
        let (a, b) = parts[k];
        proof {
            assert(ps.take(k + 1).drop_last() == ps.take(k as int));
            assert(ps.take(k + 1).last() == ps[k as int]);
        }
        match parse_uint_range(&v, a, b, 255) {
            Some(n) => {
                oct.push(n);
            },
            None => {},
        }
        k += 1;
    }
    assert(ps.take(ps.len() as int) == ps);
    if oct.len() != 4 {
        return false;
    }
    let o0 = oct[0];
    let o1 = oct[1];
    o0 == 10 || (o0 == 172 && 16 <= o1 && o1 <= 31) || (o0 == 192 && o1 == 168) || (o0 == 100 && 64
        <= o1 && o1 <= 127)
}

// ---------------------------------------------------------------- derived gateway

pub open spec fn spec_derive_gateway(ip: Seq<char>) -> Option<Seq<char>> {
    let ps = split_char(ip, '.');
    if spec_is_private_or_cgnat(ip) && ps.len() == 4 {
        Some(join(ps.update(3, seq!['1']), seq!['.']))
    } else {
        None
    }
}

/// Four pieces joined by a separator.
pub proof fn lemma_join4(p: Seq<Seq<char>>, sep: Seq<char>)
    requires
        p.len() == 4,
    ensures
        join(p, sep) == p[0] + sep + p[1] + sep + p[2] + sep + p[3],
{
    let p3 = p.drop_last();
    let p2 = p3.drop_last();
    let p1 = p2.drop_last();
    assert(join(p1, sep) == p[0]);
    assert(join(p2, sep) == p[0] + sep + p[1]);
    assert(join(p3, sep) == p[0] + sep + p[1] + sep + p[2]);
}

// ---------------------------------------------------------------- the ranges, by prefix

/// The 32-bit value of the address `a.b.c.d`.
pub open spec fn ipv4_value(a: nat, b: nat, c: nat, d: nat) -> nat {
    a * 16777216 + b * 65536 + c * 256 + d
}

/// `v` lies in the prefix `net/len` (of 32 bits).
pub open spec fn in_prefix(v: nat, net: nat, len: nat) -> bool {
    v / vstd::arithmetic::power2::pow2((32 - len) as nat) == net / vstd::arithmetic::power2::pow2(
        (32 - len) as nat,
    )
}

/// The canonical dotted text of `a.b.c.d`.
pub open spec fn dotted(a: nat, b: nat, c: nat, d: nat) -> Seq<char> {
    dec_str(a) + seq!['.'] + dec_str(b) + seq!['.'] + dec_str(c) + seq!['.'] + dec_str(d)
}

/// Splitting `x.rest` at the first `.` when `x` holds none.
proof fn lemma_split_dot_head(x: Seq<char>, rest: Seq<char>)
    requires
        forall|j: int| 0 <= j < x.len() ==> x[j] != '.',
    ensures
        split_char(x + seq!['.'] + rest, '.') == seq![x] + split_char(rest, '.'),
{
    let s = x + seq!['.'] + rest;
    crate::text::lemma_find_char_at(s, '.', x.len() as int);
    assert(s.take(x.len() as int) =~= x);
    assert(s.skip(x.len() as int + 1) =~= rest);
}

/// Decimal text holds no `.`, and reads back as a `u8` below 256.
proof fn lemma_dec_octet(n: nat)
    requires
        n < 256,
    ensures
        forall|j: int| 0 <= j < dec_str(n).len() ==> dec_str(n)[j] != '.',
        parse_uint(dec_str(n), 255) == Some(n as int),
{
    crate::text::lemma_dec_str_value(n);
    crate::text::lemma_dec_str_len(n);
    assert(crate::text::is_digit(dec_str(n)[0]));
}

/// The dotted text splits into its four decimal octets, which read back.
proof fn lemma_dotted_parts(a: nat, b: nat, c: nat, d: nat)
    requires
        a < 256,
        b < 256,
        c < 256,
        d < 256,
    ensures
        split_char(dotted(a, b, c, d), '.') == seq![dec_str(a), dec_str(b), dec_str(c), dec_str(d)],
        u8_octets(split_char(dotted(a, b, c, d), '.')) == seq![a as int, b as int, c as int, d as int],
{
    lemma_dec_octet(a);
    lemma_dec_octet(b);
    lemma_dec_octet(c);
    lemma_dec_octet(d);
    let sa = dec_str(a);
    let sb = dec_str(b);
    let sc = dec_str(c);
    let sd = dec_str(d);
    crate::text::lemma_find_char_none(sd, '.');
    assert(split_char(sd, '.') == seq![sd]);
    lemma_split_dot_head(sc, sd);
    lemma_split_dot_head(sb, sc + seq!['.'] + sd);
    lemma_split_dot_head(sa, sb + seq!['.'] + sc + seq!['.'] + sd);
    assert(dotted(a, b, c, d) =~= sa + seq!['.'] + (sb + seq!['.'] + sc + seq!['.'] + sd));
    assert(sb + seq!['.'] + sc + seq!['.'] + sd =~= sb + seq!['.'] + (sc + seq!['.'] + sd));
    let ps = seq![sa, sb, sc, sd];
    assert(split_char(dotted(a, b, c, d), '.') =~= ps);
    assert(ps.drop_last() =~= seq![sa, sb, sc]);
    assert(ps.drop_last().drop_last() =~= seq![sa, sb]);
    assert(ps.drop_last().drop_last().drop_last() =~= seq![sa]);
    assert(seq![sa].drop_last() =~= Seq::<Seq<char>>::empty());
    assert(u8_octets(Seq::<Seq<char>>::empty()) == Seq::<int>::empty());
    assert(seq![sa].last() == sa);
    assert(u8_octets(seq![sa]) =~= seq![a as int]);
    assert(seq![sa, sb].last() == sb);
    assert(u8_octets(seq![sa, sb]) =~= seq![a as int, b as int]);
    assert(seq![sa, sb, sc].last() == sc);
    assert(u8_octets(seq![sa, sb, sc]) =~= seq![a as int, b as int, c as int]);
    assert(ps.last() == sd);
    assert(u8_octets(ps) =~= seq![a as int, b as int, c as int, d as int]);
}

proof fn lemma_prefix_octets(a: nat, b: nat, c: nat, d: nat)
    requires
        a < 256,
        b < 256,
        c < 256,
        d < 256,
    ensures
        in_prefix(ipv4_value(a, b, c, d), ipv4_value(10, 0, 0, 0), 8) <==> a == 10,
        in_prefix(ipv4_value(a, b, c, d), ipv4_value(172, 16, 0, 0), 12) <==> (a == 172 && 16 <= b <= 31),
        in_prefix(ipv4_value(a, b, c, d), ipv4_value(192, 168, 0, 0), 16) <==> (a == 192 && b == 168),
        in_prefix(ipv4_value(a, b, c, d), ipv4_value(100, 64, 0, 0), 10) <==> (a == 100 && 64 <= b <= 127),
{
    vstd::arithmetic::power2::lemma2_to64();
    assert(vstd::arithmetic::power2::pow2(24) == 16777216);
    assert(vstd::arithmetic::power2::pow2(20) == 1048576);
    assert(vstd::arithmetic::power2::pow2(16) == 65536);
    assert(vstd::arithmetic::power2::pow2(22) == 4194304);
    assert(ipv4_value(10, 0, 0, 0) / 16777216 == 10);
    assert(ipv4_value(172, 16, 0, 0) / 1048576 == 2753);
    assert(ipv4_value(192, 168, 0, 0) / 65536 == 49320);
    assert(ipv4_value(100, 64, 0, 0) / 4194304 == 401);
    let v = ipv4_value(a, b, c, d);
    let low = b * 65536 + c * 256 + d;
    assert(0 <= low < 16777216) by (nonlinear_arith)
        requires
            b < 256,
            c < 256,
            d < 256,
            low == b * 65536 + c * 256 + d,
    ;
    assert(v / 16777216 == a) by (nonlinear_arith)
        requires
            v == a * 16777216 + low,
            0 <= low < 16777216,
    ;
    let low2 = c * 256 + d;
    assert(0 <= low2 < 65536) by (nonlinear_arith)
        requires
            c < 256,
            d < 256,
            low2 == c * 256 + d,
    ;
    assert(v / 65536 == a * 256 + b) by (nonlinear_arith)
        requires
            v == (a * 256 + b) * 65536 + low2,
            0 <= low2 < 65536,
    ;
    assert(v / 1048576 == a * 16 + b / 16) by (nonlinear_arith)
        requires
            v == (a * 256 + b) * 65536 + low2,
            0 <= low2 < 65536,
            b < 256,
    ;
    assert(v / 4194304 == a * 4 + b / 64) by (nonlinear_arith)
        requires
            v == (a * 256 + b) * 65536 + low2,
            0 <= low2 < 65536,
            b < 256,
    ;
}

/// The `.1` gateway is guessed exactly for the private and carrier-grade
/// NAT prefixes 10.0.0.0/8, 172.16.0.0/12, 192.168.0.0/16 and
/// 100.64.0.0/10: an address in one of them gets the `.1` of its /24, and
/// every other (public) address gets none.
pub proof fn lemma_gateway_by_prefix(a: nat, b: nat, c: nat, d: nat)
    requires
        a < 256,
        b < 256,
        c < 256,
        d < 256,
    ensures
        ({
            let v = ipv4_value(a, b, c, d);
            let private = in_prefix(v, ipv4_value(10, 0, 0, 0), 8) || in_prefix(v, ipv4_value(172, 16, 0, 0), 12)
                || in_prefix(v, ipv4_value(192, 168, 0, 0), 16) || in_prefix(v, ipv4_value(100, 64, 0, 0), 10);
            &&& spec_is_private_or_cgnat(dotted(a, b, c, d)) == private
            &&& spec_derive_gateway(dotted(a, b, c, d)) == if private {
                Some(dec_str(a) + seq!['.'] + dec_str(b) + seq!['.'] + dec_str(c) + seq!['.', '1'])
            } else {
                None
            }
        }),
{
    lemma_dotted_parts(a, b, c, d);
    lemma_prefix_octets(a, b, c, d);
    let ps = split_char(dotted(a, b, c, d), '.');
    lemma_join4(ps.update(3, seq!['1']), seq!['.']);
    assert(ps.update(3, seq!['1'])[3] == seq!['1']);
    assert(dec_str(c) + seq!['.'] + seq!['1'] =~= dec_str(c) + seq!['.', '1']);
}

/// The `.1` gateway of the same /24, only for private and CGNAT addresses.
pub fn derive_gateway(ipv4: &str) -> (r: Option<String>)
    ensures
        opt_view(r) == spec_derive_gateway(ipv4@),
{
    if !is_private_or_cgnat(ipv4) {
        return None;
    }
    let v = chars_of(ipv4);
    assert(v@.subrange(0, v@.len() as int) == v@);
    let parts = split_range(&v, 0, v.len(), '.');
    if parts.len() != 4 {
        return None;
    }
    let ghost ps = split_char(v@, '.');
    let mut r = string_of_range(&v, parts[0].0, parts[0].1);
    let mut k: usize = 1;
    while k < 3
        invariant
            v@ == ipv4@,
            ps == split_char(v@, '.'),
            parts@.len() == 4,
            ps.len() == 4,
            forall|j: int|
                0 <= j < parts@.len() ==> 0 <= (#[trigger] parts@[j]).0 <= parts@[j].1 <= v@.len()
                    && v@.subrange(parts@[j].0 as int, parts@[j].1 as int) == ps[j],
            1 <= k <= 3,
            k == 1 ==> r@ == ps[0],
            k == 2 ==> r@ == ps[0] + seq!['.'] + ps[1],
            k == 3 ==> r@ == ps[0] + seq!['.'] + ps[1] + seq!['.'] + ps[2],
        decreases 3 - k,
    {
        push_char(&mut r, '.');
        let p = string_of_range(&v, parts[k].0, parts[k].1);
        push_str(&mut r, p.as_str());
        k += 1;
    }
    push_char(&mut r, '.');
    push_char(&mut r, '1');
    proof {
        let q = ps.update(3, seq!['1']);
        lemma_join4(q, seq!['.']);
        assert(r@ =~= q[0] + seq!['.'] + q[1] + seq!['.'] + q[2] + seq!['.'] + q[3]);
    }
    Some(r)
}

// ---------------------------------------------------------------- netmask and modem gateway

pub open spec fn spec_mask_or(cfg: Config, dflt: Seq<char>) -> Seq<char> {
    if cfg.netmask@.len() == 0 {
        dflt
    } else {
        cfg.netmask@
    }
}

/// The netmask the user configured, or the mode's default when none is set.
pub fn mask_or(cfg: &Config, dflt: &str) -> (r: String)
    ensures
        r@ == spec_mask_or(*cfg, dflt@),
{
    if cfg.netmask.as_str().is_empty() {
        dflt.to_owned()
    } else {
        cfg.netmask.clone()
    }
}

pub open spec fn spec_valid_modem_gw(modem_gw: Seq<char>, ipv4: Seq<char>) -> Option<Seq<char>> {
    if spec_is_valid_ipv4(modem_gw) && modem_gw != ipv4 {
        Some(modem_gw)
    } else {
        None
    }
}

/// The gateway the modem reported, when it is a valid IPv4 other than the
/// host's own address (`AT+CGCONTRDP` now and then answers `0.0.0.0` or the
/// PDP address itself as a placeholder).
pub fn valid_modem_gw(modem_gw: &str, ipv4: &str) -> (r: Option<String>)
    ensures
        opt_view(r) == spec_valid_modem_gw(modem_gw@, ipv4@),
{
    if is_valid_ipv4(modem_gw) && !str_eq(modem_gw, ipv4) {
        Some(modem_gw.to_owned())
    } else {
        None
    }
}

// ---------------------------------------------------------------- same subnet

/// One piece of a dotted quad as [`in_same_subnet`] reads it: one to three
/// decimal digits.
pub open spec fn quad_piece_ok(p: Seq<char>) -> bool {
    0 < p.len() <= 3 && all_digits(p)
}

/// The pieces shifted into a `u32`, eight bits at a time, as the daemon
/// computes it (a piece above 255 spills into the next byte).
pub open spec fn quad_bits(parts: Seq<Seq<char>>) -> u32
    decreases parts.len(),
{
    if parts.len() == 0 {
        0u32
    } else {
        (quad_bits(parts.drop_last()) << 8u32) | (dec_value(parts.last()) as u32)
    }
}

/// A dotted quad as a `u32`, or `None` when it is not four good pieces.
pub open spec fn quad_of(s: Seq<char>) -> Option<u32> {
    let ps = split_char(s, '.');
    if ps.len() == 4 && forall|k: int| 0 <= k < 4 ==> quad_piece_ok(#[trigger] ps[k]) {
        Some(quad_bits(ps))
    } else {
        None
    }
}

pub open spec fn spec_in_same_subnet(ip: Seq<char>, gw: Seq<char>, mask: Seq<char>) -> bool {
    match (quad_of(ip), quad_of(gw), quad_of(mask)) {
        (Some(a), Some(b), Some(m)) => (a & m) == (b & m),
        _ => false,
    }
}

/// The dotted quad of `v` as a `u32`.
fn quad(v: &Vec<char>) -> (r: Option<u32>)
    ensures
        r == quad_of(v@),
{
    assert(v@.subrange(0, v@.len() as int) == v@);
    let parts = split_range(v, 0, v.len(), '.');
    let ghost ps = split_char(v@, '.');
    if parts.len() != 4 {
        return None;
    }
    let mut acc: u32 = 0;
    let mut k: usize = 0;
    while k < 4
        invariant
            ps == split_char(v@, '.'),
            parts@.len() == 4,
            ps.len() == 4,
            forall|j: int|
                0 <= j < parts@.len() ==> 0 <= (#[trigger] parts@[j]).0 <= parts@[j].1 <= v@.len()
                    && v@.subrange(parts@[j].0 as int, parts@[j].1 as int) == ps[j],
            k <= 4,
            forall|j: int| 0 <= j < k ==> quad_piece_ok(#[trigger] ps[j]),
            acc == quad_bits(ps.take(k as int)),
        decreases 4 - k,
    {
        let (a, b) = parts[k];
        if a == b || b - a > 3 || !all_digits_range(v, a, b) {
            assert(!quad_piece_ok(ps[k as int]));
            return None;
        }
        let n = match dec_value_bounded(v, a, b, 999) {
            Some(n) => n,
            None => {
                proof {
                    let p = ps[k as int];
                    assert(p.len() <= 3);
                    lemma_small_dec_value(p);
                }
                return None;
            },
        };
        proof {
            assert(ps.take(k + 1).drop_last() == ps.take(k as int));
            assert(ps.take(k + 1).last() == ps[k as int]);
        }
        acc = (acc << 8u32) | (n as u32);
        k += 1;
    }
    assert(ps.take(4) == ps);
    Some(acc)
}

/// At most three digits are worth at most 999.
proof fn lemma_small_dec_value(p: Seq<char>)
    requires
        p.len() <= 3,
        all_digits(p),
    ensures
        0 <= dec_value(p) <= 999,
    decreases p.len(),
{
    if p.len() > 0 {
        let q = p.drop_last();
        assert(all_digits(q)) by {
            assert forall|i: int| 0 <= i < q.len() implies crate::text::is_digit(#[trigger] q[i]) by {
                assert(q[i] == p[i]);
            }
        }
        lemma_small_dec_value(q);
        assert(crate::text::is_digit(p[p.len() - 1]));
        if q.len() == 0 {
            assert(dec_value(q) == 0);
        } else if q.len() == 1 {
            lemma_small_dec_value_one(q);
        } else {
            lemma_small_dec_value_two(q);
        }
    }
}

proof fn lemma_small_dec_value_one(q: Seq<char>)
    requires
        q.len() == 1,
        all_digits(q),
    ensures
        dec_value(q) <= 9,
{
    assert(crate::text::is_digit(q[0]));
    assert(q.drop_last().len() == 0);
    assert(dec_value(q.drop_last()) == 0);
    assert(q.last() == q[0]);
}

proof fn lemma_small_dec_value_two(q: Seq<char>)
    requires
        q.len() == 2,
        all_digits(q),
    ensures
        dec_value(q) <= 99,
{
    let r = q.drop_last();
    assert(crate::text::is_digit(q[0]));
    assert(crate::text::is_digit(q[1]));
    assert(r[0] == q[0]);
    lemma_small_dec_value_one(r);
}

/// Whether `gw` lies in the subnet of `ip` under `mask`. When any of the
/// three is not a dotted quad of one-to-three-digit pieces the answer is
/// "different subnet": the caller then adds a safer `<gw>/32` host route.
pub fn in_same_subnet(ip: &str, gw: &str, mask: &str) -> (b: bool)
    ensures
        b == spec_in_same_subnet(ip@, gw@, mask@),
{
    let vi = chars_of(ip);
    let vg = chars_of(gw);
    let vm = chars_of(mask);
    match (quad(&vi), quad(&vg), quad(&vm)) {
        (Some(a), Some(b), Some(m)) => (a & m) == (b & m),
        _ => false,
    }
}

// ---------------------------------------------------------------- the plan

pub open spec fn mask_host() -> Seq<char> {
    "255.255.255.255"@
}

pub open spec fn mask_24() -> Seq<char> {
    "255.255.255.0"@
}

/// Netmask and gateway for `gateway_mode`: `off` never sets a gateway,
/// `static` uses the configured one, anything else (`auto`) prefers the
/// modem's report and falls back to the `.1` guess; without a gateway the
/// mask is `/32`, with one `/24`, unless the user set a netmask.
pub open spec fn spec_plan_gateway(cfg: Config, ipv4: Seq<char>, modem_gw: Seq<char>) -> (Seq<char>, Option<Seq<char>>) {
    if cfg.gateway_mode@ == "off"@ {
        (spec_mask_or(cfg, mask_host()), None)
    } else if cfg.gateway_mode@ == "static"@ {
        if cfg.gateway@.len() == 0 {
            (spec_mask_or(cfg, mask_host()), None)
        } else {
            (spec_mask_or(cfg, mask_24()), Some(cfg.gateway@))
        }
    } else {
        let cand = match spec_valid_modem_gw(modem_gw, ipv4) {
            Some(g) => Some(g),
            None => spec_derive_gateway(ipv4),
        };
        match cand {
            Some(g) => (spec_mask_or(cfg, mask_24()), Some(g)),
            None => (spec_mask_or(cfg, mask_host()), None),
        }
    }
}

/// Plans the netmask and gateway of this round; `None` keeps the onlink
/// device route without a gateway.
pub fn plan_gateway(cfg: &Config, ipv4: &str, modem_gw: &str) -> (r: (String, Option<String>))
    ensures
        (r.0@, opt_view(r.1)) == spec_plan_gateway(*cfg, ipv4@, modem_gw@),
{
    if str_eq(cfg.gateway_mode.as_str(), "off") {
        (mask_or(cfg, "255.255.255.255"), None)
    } else if str_eq(cfg.gateway_mode.as_str(), "static") {
        if cfg.gateway.as_str().is_empty() {
            (mask_or(cfg, "255.255.255.255"), None)
        } else {
            (mask_or(cfg, "255.255.255.0"), Some(cfg.gateway.clone()))
        }
    } else {
        let cand = match valid_modem_gw(modem_gw, ipv4) {
            Some(g) => Some(g),
            None => derive_gateway(ipv4),
        };
        match cand {
            Some(g) => (mask_or(cfg, "255.255.255.0"), Some(g)),
            None => (mask_or(cfg, "255.255.255.255"), None),
        }
    }
}

// ---------------------------------------------------------------- reading back

pub open spec fn spec_current_gateway(ok: bool, out: Seq<char>) -> Option<Seq<char>> {
    if ok && trim(out).len() > 0 {
        Some(trim(out))
    } else {
        None
    }
}

/// The gateway UCI holds for the interface, from the answer to
/// `uci -q get network.<iface>.gateway` (`ok` is its exit status).
pub fn current_gateway(ok: bool, out: &str) -> (r: Option<String>)
    ensures
        opt_view(r) == spec_current_gateway(ok, out@),
{
    if !ok {
        return None;
    }
    let v = chars_of(out);
    let (a, b) = trim_range(&v, 0, v.len());
    assert(v@.subrange(0, v@.len() as int) == v@);
    if a == b {
        return None;
    }
    Some(string_of_range(&v, a, b))
}

/// An `ip neigh` state that means the gateway's MAC was resolved.
pub open spec fn neigh_resolved_state(t: Seq<char>) -> bool {
    t == "REACHABLE"@ || t == "STALE"@ || t == "DELAY"@ || t == "PROBE"@
}

pub open spec fn spec_probe_gateway(ok: bool, out: Seq<char>) -> bool {
    ok && exists|i: int| 0 <= i < words(out).len() && neigh_resolved_state(#[trigger] words(out)[i])
}

/// Judges the ARP check of the gateway from `ip neigh show dev <dev> <gw>`:
/// only layer 2 counts (cellular gateways often ignore ICMP), and any of
/// REACHABLE, STALE, DELAY or PROBE means the MAC was resolved; FAILED
/// means no answer.
pub fn probe_gateway(ok: bool, out: &str) -> (b: bool)
    ensures
        b == spec_probe_gateway(ok, out@),
{
    if !ok {
        return false;
    }
    let v = chars_of(out);
    assert(v@.subrange(0, v@.len() as int) == v@);
    let ws = words_range(&v, 0, v.len());
    let mut k: usize = 0;
    while k < ws.len()
        invariant
            ok,
            v@ == out@,
            ws@.len() == words(v@).len(),
            forall|j: int|
                0 <= j < ws@.len() ==> 0 <= (#[trigger] ws@[j]).0 <= ws@[j].1 <= v@.len()
                    && v@.subrange(ws@[j].0 as int, ws@[j].1 as int) == words(v@)[j],
            k <= ws@.len(),
            forall|j: int| 0 <= j < k ==> !neigh_resolved_state(#[trigger] words(v@)[j]),
        decreases ws.len() - k,
    {
        let (a, b) = ws[k];
        if crate::text::range_eq_str(&v, a, b, "REACHABLE") || crate::text::range_eq_str(&v, a, b, "STALE")
            || crate::text::range_eq_str(&v, a, b, "DELAY") || crate::text::range_eq_str(&v, a, b, "PROBE") {
            assert(neigh_resolved_state(words(out@)[k as int]));
            return true;
        }
        k += 1;
    }
    false
}

pub open spec fn spec_configured_dns(ok: bool, out: Seq<char>) -> Seq<Seq<char>> {
    if ok {
        words(out)
    } else {
        seq![]
    }
}

/// The DNS list UCI holds for the interface, from the answer to
/// `uci -q get network.<iface>.dns` (kept as it is when parameters are
/// applied again).
pub fn configured_dns(ok: bool, out: &str) -> (r: Vec<String>)
    ensures
        strs(r@) == spec_configured_dns(ok, out@),
{
    if ok {
        words_of(out)
    } else {
        let r: Vec<String> = Vec::new();
        assert(strs(r@) =~= Seq::<Seq<char>>::empty());
        r
    }
}

/// The wanted entries that `cur` lacks, in order.
pub open spec fn missing_of(want: Seq<Seq<char>>, cur: Seq<Seq<char>>) -> Seq<Seq<char>>
    decreases want.len(),
{
    if want.len() == 0 {
        seq![]
    } else {
        let rest = missing_of(want.drop_last(), cur);
        if cur.contains(want.last()) {
            rest
        } else {
            rest.push(want.last())
        }
    }
}

/// Whether `x` is among `cur`.
fn listed(cur: &Vec<String>, x: &String) -> (b: bool)
    ensures
        b == strs(cur@).contains(x@),
{
    let mut i: usize = 0;
    while i < cur.len()
        invariant
            i <= cur@.len(),
            forall|j: int| 0 <= j < i ==> cur@[j]@ != x@,
        decreases cur.len() - i,
    {
        if str_eq(cur[i].as_str(), x.as_str()) {
            assert(strs(cur@)[i as int] == x@);
            return true;
        }
        i += 1;
    }
    assert forall|j: int| 0 <= j < strs(cur@).len() implies strs(cur@)[j] != x@ by {
        assert(strs(cur@)[j] == cur@[j]@);
    }
    false
}

/// The DNS servers of `dns` that UCI (`cur`) does not hold.
pub fn missing_dns(dns: &[String], cur: &Vec<String>) -> (r: Vec<String>)
    ensures
        strs(r@) == missing_of(strs(dns@), strs(cur@)),
{
    let mut r: Vec<String> = Vec::new();
    let mut i: usize = 0;
    while i < dns.len()
        invariant
            i <= dns@.len(),
            strs(r@) == missing_of(strs(dns@.take(i as int)), strs(cur@)),
        decreases dns.len() - i,
    {
        proof {
            assert(strs(dns@.take(i + 1)).drop_last() =~= strs(dns@.take(i as int)));
            assert(strs(dns@.take(i + 1)).last() == dns@[i as int]@);
        }
        if !listed(cur, &dns[i]) {
            let ghost before = r@;
            r.push(dns[i].clone());
            assert(strs(r@) =~= strs(before).push(dns@[i as int]@));
        }
        i += 1;
    }
    assert(dns@.take(dns@.len() as int) == dns@);
    r
}

/// Debug text of a list of strings, as `{:?}` prints it.
pub uninterp spec fn debug_strings_of(v: Seq<Seq<char>>) -> Seq<char>;

/// Renders a list of strings with `format!("{:?}", ..)` from std; the
/// contract only names the result.
#[verifier::external_body]
pub(crate) fn debug_strings(v: &Vec<String>) -> (r: String)
    ensures
        r@ == debug_strings_of(strs(v@)),
{
    format!("{:?}", v)
}

/// Debug text of a string, as `{:?}` prints it.
pub uninterp spec fn debug_str_of(s: Seq<char>) -> Seq<char>;

/// Renders a string with `format!("{:?}", ..)` from std (quoted, with
/// escapes); the contract only names the result.
#[verifier::external_body]
pub(crate) fn debug_str(s: &str) -> (r: String)
    ensures
        r@ == debug_str_of(s@),
{
    format!("{:?}", s)
}

pub open spec fn dns_mismatch_message(missing: Seq<Seq<char>>, cur: Seq<Seq<char>>) -> Seq<char> {
    "地址已就位但 DNS 配置缺失（期望含 "@ + debug_strings_of(missing) + "，uci 实际 "@
        + debug_strings_of(cur) + "）"@
}

/// Whether the DNS servers really reached UCI (`cur`, read back from it).
/// A list given but not written (a batch silently failing or reverted)
/// is an error: the resolver would otherwise stay on stale servers.
pub fn dns_matches(dns: &[String], cur: &Vec<String>) -> (r: Result<(), String>)
    ensures
        missing_of(strs(dns@), strs(cur@)).len() == 0 <==> r is Ok,
        r matches Err(e) ==> e@ == dns_mismatch_message(missing_of(strs(dns@), strs(cur@)), strs(cur@)),
{
    let missing = missing_dns(dns, cur);
    if missing.len() == 0 {
        return Ok(());
    }
    let mut e = String::new();
    push_str(&mut e, "地址已就位但 DNS 配置缺失（期望含 ");
    let m = debug_strings(&missing);
    push_str(&mut e, m.as_str());
    push_str(&mut e, "，uci 实际 ");
    let c = debug_strings(cur);
    push_str(&mut e, c.as_str());
    push_str(&mut e, "）");
    proof {
        assert(Seq::<char>::empty() + "地址已就位但 DNS 配置缺失（期望含 "@ == "地址已就位但 DNS 配置缺失（期望含 "@);
    }
    Err(e)
}

/// The UCI form of a DNS list: all servers in one single-quoted word.
pub fn dns_value(dns: &[String]) -> (r: String)
    ensures
        r@ == spec_sq(join(strs(dns@), seq![' '])),
{
    let j = join_strings(dns, " ");
    proof {
        reveal_strlit(" ");
    }
    assert(" "@ == seq![' ']);
    sq(j.as_str())
}

// ---------------------------------------------------------------- parameter signature

pub open spec fn bool_text(b: bool) -> Seq<char> {
    if b {
        "true"@
    } else {
        "false"@
    }
}

/// The parameters netifd acts on, in one line.
pub open spec fn spec_config_sig(c: Config) -> Seq<char> {
    "metric="@ + dec_str(c.metric as nat) + "|gw_mode="@ + c.gateway_mode@ + "|gw="@ + c.gateway@
        + "|mask="@ + c.netmask@ + "|dev="@ + c.data_dev@ + "|ipv6="@ + bool_text(c.ipv6)
        + "|v6_mode="@ + c.v6_mode@ + "|iface="@ + c.iface@ + "|iface_v6="@ + c.iface_v6@
}

/// Two configurations with different metrics never share a signature, so a
/// changed metric is always applied again.
pub proof fn lemma_config_sig_tracks_metric(a: Config, b: Config)
    requires
        a.metric != b.metric,
    ensures
        spec_config_sig(a) != spec_config_sig(b),
{
    let d1 = dec_str(a.metric as nat);
    let d2 = dec_str(b.metric as nat);
    crate::text::lemma_dec_str_value(a.metric as nat);
    crate::text::lemma_dec_str_value(b.metric as nat);
    reveal_strlit("metric=");
    reveal_strlit("|gw_mode=");
    let s1 = spec_config_sig(a);
    let s2 = spec_config_sig(b);
    let p1 = "metric="@ + d1 + "|gw_mode="@;
    let p2 = "metric="@ + d2 + "|gw_mode="@;
    assert forall|i: int| 0 <= i < p1.len() implies #[trigger] s1[i] == p1[i] by {}
    assert forall|i: int| 0 <= i < p2.len() implies #[trigger] s2[i] == p2[i] by {}
    if s1 == s2 {
        if d1.len() == d2.len() {
            assert forall|i: int| 0 <= i < d1.len() implies d1[i] == d2[i] by {
                assert(s1[7 + i] == p1[7 + i]);
                assert(s2[7 + i] == p2[7 + i]);
            }
            assert(d1 =~= d2);
        } else if d1.len() < d2.len() {
            let k: int = 7 + d1.len() as int;
            assert(s1[k] == p1[k]);
            assert(s2[k] == p2[k]);
            assert(p1[k] == '|');
            assert(p2[k] == d2[d1.len() as int]);
            assert(crate::text::is_digit(d2[d1.len() as int]));
        } else {
            let k: int = 7 + d2.len() as int;
            assert(s1[k] == p1[k]);
            assert(s2[k] == p2[k]);
            assert(p2[k] == '|');
            assert(p1[k] == d1[d2.len() as int]);
            assert(crate::text::is_digit(d1[d2.len() as int]));
        }
    }
}

/// Signature of the netifd-relevant parameters. A bare `uci set` never
/// makes netifd reread its configuration, so the daemon compares this
/// signature with the one of the last successful apply and applies again
/// when they differ.
pub fn config_sig(cfg: &Config) -> (r: String)
    ensures
        r@ == spec_config_sig(*cfg),
{
    let mut s = String::new();
    push_str(&mut s, "metric=");
    push_dec(&mut s, cfg.metric as u64);
    push_str(&mut s, "|gw_mode=");
    push_str(&mut s, cfg.gateway_mode.as_str());
    push_str(&mut s, "|gw=");
    push_str(&mut s, cfg.gateway.as_str());
    push_str(&mut s, "|mask=");
    push_str(&mut s, cfg.netmask.as_str());
    push_str(&mut s, "|dev=");
    push_str(&mut s, cfg.data_dev.as_str());
    push_str(&mut s, "|ipv6=");
    push_str(&mut s, if cfg.ipv6 { "true" } else { "false" });
    push_str(&mut s, "|v6_mode=");
    push_str(&mut s, cfg.v6_mode.as_str());
    push_str(&mut s, "|iface=");
    push_str(&mut s, cfg.iface.as_str());
    push_str(&mut s, "|iface_v6=");
    push_str(&mut s, cfg.iface_v6.as_str());
    proof {
        assert(Seq::<char>::empty() + "metric="@ == "metric="@);
    }
    s
}

/// Writes the gateway that answered ARP back to the daemon's own section,
/// where `uci show` and the page see it.
pub fn gateway_writeback_cmd(gw: &str) -> (r: String)
    ensures
        r@ == "uci -q set fm350.main.gateway="@ + gw@ + "; uci -q commit fm350"@,
{
    let mut s = String::new();
    push_str(&mut s, "uci -q set fm350.main.gateway=");
    push_str(&mut s, gw);
    push_str(&mut s, "; uci -q commit fm350");
    proof {
        assert(Seq::<char>::empty() + "uci -q set fm350.main.gateway="@ == "uci -q set fm350.main.gateway="@);
    }
    s
}

/// The fallback when the gateway does not answer ARP: every gateway entry
/// goes (the interface's gateway, the `<iface>_gw4` host route, the shown
/// gateway), the netmask becomes /32, an on-link default route
/// `<iface>_def` is set, both packages are committed, the interface is
/// brought up, and the kernel's default route is put on the card.
pub open spec fn spec_onlink_cmds(iface: Seq<char>, dev: Seq<char>, metric: u32) -> Seq<Seq<char>> {
    let def = iface + "_def"@;
    seq![
        "uci -q delete network."@ + iface + ".gateway 2>/dev/null || true"@,
        "uci -q delete network."@ + iface + "_gw4"@ + " 2>/dev/null || true"@,
        "uci -q set network."@ + iface + ".netmask=255.255.255.255"@,
        "uci -q set network."@ + def + "=route"@,
        "uci -q set network."@ + def + ".interface="@ + iface,
        "uci -q set network."@ + def + ".target=0.0.0.0/0"@,
        "uci -q set network."@ + def + ".onlink=1"@,
        "uci -q set network."@ + def + ".metric="@ + dec_str(metric as nat),
        "uci -q delete fm350.main.gateway 2>/dev/null || true"@,
        "uci -q commit network"@,
        "uci -q commit fm350"@,
        "ifup "@ + iface,
        "ip route replace default dev "@ + dev + " metric "@ + dec_str(metric as nat),
    ]
}

fn push_lit(v: &mut Vec<String>, a: &str)
    ensures
        strs(final(v)@) == strs(old(v)@).push(a@),
{
    let ghost before = v@;
    v.push(String::from_str(a));
    assert(strs(v@) =~= strs(before).push(a@));
}

/// The commands of the on-link fallback (see [`spec_onlink_cmds`]).
pub fn onlink_fallback_cmds(cfg: &Config, dev: &str) -> (r: Vec<String>)
    ensures
        strs(r@) == spec_onlink_cmds(cfg.iface@, dev@, cfg.metric),
{
    let x = cfg.iface.as_str();
    let mut def = String::new();
    push_str(&mut def, x);
    push_str(&mut def, "_def");
    proof {
        assert(Seq::<char>::empty() + x@ == x@);
    }
    let d = def.as_str();
    let mut m = String::new();
    push_dec(&mut m, cfg.metric as u64);
    proof {
        assert(Seq::<char>::empty() + dec_str(cfg.metric as nat) == dec_str(cfg.metric as nat));
    }
    let mut r: Vec<String> = Vec::new();
    push_cmd(&mut r, "uci -q delete network.", x, ".gateway 2>/dev/null || true");
    push_cmd4(&mut r, "uci -q delete network.", x, "_gw4", " 2>/dev/null || true");
    push_cmd(&mut r, "uci -q set network.", x, ".netmask=255.255.255.255");
    push_cmd(&mut r, "uci -q set network.", d, "=route");
    push_cmd4(&mut r, "uci -q set network.", d, ".interface=", x);
    push_cmd(&mut r, "uci -q set network.", d, ".target=0.0.0.0/0");
    push_cmd(&mut r, "uci -q set network.", d, ".onlink=1");
    push_cmd4(&mut r, "uci -q set network.", d, ".metric=", m.as_str());
    push_lit(&mut r, "uci -q delete fm350.main.gateway 2>/dev/null || true");
    push_lit(&mut r, "uci -q commit network");
    push_lit(&mut r, "uci -q commit fm350");
    push_cmd2(&mut r, "ifup ", x);
    push_cmd4(&mut r, "ip route replace default dev ", dev, " metric ", m.as_str());
    assert(strs(r@) =~= spec_onlink_cmds(cfg.iface@, dev@, cfg.metric));
    r
}

} // verus!
