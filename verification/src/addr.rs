//! IPv4 / IPv6 address helpers (pure functions, independent of the modem protocol).
//!
//! * [`is_valid_ipv4`] rejects `0.0.0.0`: the FM350 answers that placeholder
//!   while no address is assigned.
//! * [`normalize_ipv6`] rejects the placeholders: all zeros (`::`) and
//!   `::1`, in colon notation and in the dotted
//!   `0.0.0.0.0.0.0.0.0.0.0.0.0.0.0.1` the FM350 reports for "no IPv6".
//! * The colon notation is returned as it is (only checked, with zone id and
//!   brackets removed), never re-compressed.
use crate::text::{
    all_digits, all_digits_range, chars_of, contains_char_range, dec_value, hex_str, hex_val, is_hex,
    is_hex_exec, join, parse_uint, parse_uint_range, push_char, push_hex, split_char, split_range,
    string_of_range, trim, trim_char, trim_char_range, trim_end_char, trim_end_char_range, trim_range,
    trim_start_char, trim_start_char_range,
};
use vstd::prelude::*;

verus! {

// ---------------------------------------------------------------- spec side

/// One octet of a dotted IPv4: digits only, value at most 255
/// (parsed as a `u16` first, as the daemon always did).
pub open spec fn ipv4_octet_ok(p: Seq<char>) -> bool {
    &&& p.len() > 0
    &&& all_digits(p)
    &&& parse_uint(p, 65535) matches Some(n)
    &&& n <= 255
}

pub open spec fn zero_quad() -> Seq<char> {
    seq!['0', '.', '0', '.', '0', '.', '0']
}

/// Dotted-decimal IPv4: four octets of digits, each at most 255, no `:`,
/// and not the placeholder `0.0.0.0`.
pub open spec fn spec_is_valid_ipv4(s: Seq<char>) -> bool {
    let parts = split_char(s, '.');
    &&& s.len() > 0
    &&& !s.contains(':')
    &&& parts.len() == 4
    &&& forall|k: int| 0 <= k < 4 ==> ipv4_octet_ok(#[trigger] parts[k])
    &&& s != zero_quad()
}

/// Value of a string of hexadecimal digits.
pub open spec fn hex_value(s: Seq<char>) -> int
    decreases s.len(),
{
    if s.len() == 0 {
        0
    } else {
        hex_value(s.drop_last()) * 16 + hex_val(s.last())
    }
}

pub open spec fn all_hex(s: Seq<char>) -> bool {
    forall|i: int| 0 <= i < s.len() ==> is_hex(#[trigger] s[i])
}

/// `u16::from_str_radix(s, 16)`: optional `+`, then one or more hex digits,
/// value at most `0xffff`.
pub open spec fn parse_hex_u16(s: Seq<char>) -> Option<int> {
    let d = if s.len() > 0 && s[0] == '+' { s.drop_first() } else { s };
    if d.len() == 0 || !all_hex(d) || hex_value(d) > 0xffff {
        None
    } else {
        Some(hex_value(d))
    }
}

/// Link-local IPv6 (`fe80::/10`): the first group parses as hex and lies in
/// `fe80`..=`febf`.
pub open spec fn spec_is_link_local_v6(ip: Seq<char>) -> bool {
    parse_hex_u16(split_char(ip, ':')[0]) matches Some(v) && 0xfe80 <= v <= 0xfebf
}

/// One group of the colon notation: one to four hex digits.
pub open spec fn v6_group_ok(g: Seq<char>) -> bool {
    0 < g.len() <= 4 && all_hex(g)
}

/// Number of groups in a colon-separated text (the empty text has none);
/// `None` when a group is empty or not one to four hex digits.
pub open spec fn v6_group_count(part: Seq<char>) -> Option<nat> {
    if part.len() == 0 {
        Some(0)
    } else {
        let gs = split_char(part, ':');
        if forall|k: int| 0 <= k < gs.len() ==> v6_group_ok(#[trigger] gs[k]) {
            Some(gs.len())
        } else {
            None
        }
    }
}

/// `s` holds `"::"` at `j`.
pub open spec fn dcolon_at(s: Seq<char>, j: int) -> bool {
    s[j] == ':' && s[j + 1] == ':'
}

/// Index of the first `"::"` in `s`, or `-1`.
pub open spec fn find_dcolon(s: Seq<char>) -> int
    decreases s.len(),
{
    if s.len() < 2 {
        -1
    } else if s[0] == ':' && s[1] == ':' {
        0
    } else {
        let r = find_dcolon(s.drop_first());
        if r < 0 {
            -1
        } else {
            r + 1
        }
    }
}

/// Structure of the colon notation: at most one `::`; without it exactly
/// eight groups, with it fewer than eight explicit groups.
pub open spec fn spec_well_formed_colon_v6(core: Seq<char>) -> bool {
    let i = find_dcolon(core);
    if i < 0 {
        v6_group_count(core) == Some(8nat)
    } else {
        match (v6_group_count(core.take(i)), v6_group_count(core.skip(i + 2))) {
            (Some(a), Some(b)) => a + b < 8,
            _ => false,
        }
    }
}

/// One component of the FM350 dotted IPv6: one to three digits, at most 255.
pub open spec fn dotted_byte_ok(p: Seq<char>) -> bool {
    0 < p.len() <= 3 && all_digits(p) && dec_value(p) <= 255
}

/// The sixteen bytes of a dotted IPv6 (valid only when every piece is ok).
pub open spec fn dotted_bytes(parts: Seq<Seq<char>>) -> Seq<int> {
    Seq::new(16, |i: int| dec_value(parts[i]))
}

/// The eight 16-bit groups of sixteen bytes.
pub open spec fn groups_of_bytes(b: Seq<int>) -> Seq<u16> {
    Seq::new(8, |i: int| (b[2 * i] * 256 + b[2 * i + 1]) as u16)
}

/// Length of the run of zero groups that starts at `i`.
pub open spec fn zero_run(g: Seq<u16>, i: int) -> nat
    decreases g.len() - i,
{
    if 0 <= i < g.len() && g[i] == 0 {
        1 + zero_run(g, i + 1)
    } else {
        0
    }
}

/// Earliest longest run of zero groups among the runs starting before `n`:
/// `(start, length)`.
pub open spec fn best_zero_run(g: Seq<u16>, n: int) -> (int, nat)
    decreases n,
{
    if n <= 0 {
        (0, 0)
    } else {
        let prev = best_zero_run(g, n - 1);
        if zero_run(g, n - 1) > prev.1 {
            (n - 1, zero_run(g, n - 1))
        } else {
            prev
        }
    }
}

/// Groups in lower-case hex joined by `:`.
pub open spec fn hex_groups(g: Seq<u16>) -> Seq<char> {
    join(g.map_values(|x: u16| hex_str(x as nat)), seq![':'])
}

/// RFC 5952 text of eight groups: the earliest longest run of at least two
/// zero groups is compressed to `::`.
pub open spec fn ipv6_text(g: Seq<u16>) -> Seq<char> {
    let (st, ln) = best_zero_run(g, g.len() as int);
    if ln < 2 {
        hex_groups(g)
    } else {
        hex_groups(g.take(st)) + seq![':', ':'] + hex_groups(g.skip(st + ln))
    }
}

/// Decoding of the FM350 dotted IPv6 (sixteen decimal bytes); `None` for
/// malformed text and for the placeholders (all zeros, or `::1`).
pub open spec fn spec_decode_dotted_ipv6(s: Seq<char>) -> Option<Seq<char>> {
    let parts = split_char(s, '.');
    if parts.len() != 16 {
        None
    } else if !(forall|k: int| 0 <= k < 16 ==> dotted_byte_ok(#[trigger] parts[k])) {
        None
    } else {
        let b = dotted_bytes(parts);
        if forall|k: int| 0 <= k < 16 ==> b[k] == 0 {
            None
        } else if (forall|k: int| 0 <= k < 15 ==> b[k] == 0) && b[15] == 1 {
            None
        } else {
            Some(ipv6_text(groups_of_bytes(b)))
        }
    }
}

/// The core of a colon-notation text: trimmed, brackets removed, zone id cut.
pub open spec fn v6_core(s: Seq<char>) -> Seq<char> {
    split_char(trim_end_char(trim_start_char(trim(s), '['), ']'), '%')[0]
}

/// Hex digits of `core` are all `0` (or there are none).
pub open spec fn hex_all_zero(core: Seq<char>) -> bool {
    forall|i: int| 0 <= i < core.len() && is_hex(#[trigger] core[i]) ==> core[i] == '0'
}

/// A well-formed colon core whose value is 1 (`::1`, `0::0001`, ...): the
/// last character, which ends the last group, is `1` and every other hex
/// digit is `0`.
pub open spec fn hex_is_one(core: Seq<char>) -> bool {
    core.len() > 0 && core.last() == '1' && hex_all_zero(core.drop_last())
}

/// Normalized IPv6: the colon notation checked and returned as its core, or
/// the dotted notation decoded; `None` when malformed or a placeholder (all
/// zeros, or `::1`).
pub open spec fn spec_normalize_ipv6(s: Seq<char>) -> Option<Seq<char>> {
    if s.contains(':') {
        let core = v6_core(s);
        if core.len() == 0 || !spec_well_formed_colon_v6(core) || hex_all_zero(core) || hex_is_one(core) {
            None
        } else {
            Some(core)
        }
    } else {
        spec_decode_dotted_ipv6(s)
    }
}

/// "Looks like" IPv6: contains `:`, or has sixteen dot-separated pieces.
pub open spec fn spec_looks_v6(s: Seq<char>) -> bool {
    let t = trim_char(trim(s), '"');
    t.contains(':') || split_char(t, '.').len() == 16
}

// ---------------------------------------------------------------- lemmas

proof fn lemma_find_dcolon(s: Seq<char>)
    ensures
        -1 <= find_dcolon(s) <= s.len() - 2 || find_dcolon(s) == -1,
        find_dcolon(s) >= 0 ==> s[find_dcolon(s)] == ':' && s[find_dcolon(s) + 1] == ':',
        forall|j: int| 0 <= j < find_dcolon(s) ==> !dcolon_at(s, j),
        find_dcolon(s) == -1 ==> forall|j: int| 0 <= j < s.len() - 1 ==> !dcolon_at(s, j),
    decreases s.len(),
{
    if s.len() >= 2 && !(s[0] == ':' && s[1] == ':') {
        let t = s.drop_first();
        lemma_find_dcolon(t);
        assert forall|j: int| 0 <= j < find_dcolon(s) implies !dcolon_at(s, j) by {
            if j > 0 {
                assert(s[j] == t[j - 1] && s[j + 1] == t[j]);
                assert(!dcolon_at(t, j - 1));
            }
        }
        if find_dcolon(t) == -1 {
            assert forall|j: int| 0 <= j < s.len() - 1 implies !dcolon_at(s, j) by {
                if j > 0 {
                    assert(s[j] == t[j - 1] && s[j + 1] == t[j]);
                    assert(!dcolon_at(t, j - 1));
                }
            }
        }
    }
}

proof fn lemma_find_dcolon_at(s: Seq<char>, k: int)
    requires
        0 <= k < s.len() - 1,
        s[k] == ':' && s[k + 1] == ':',
        forall|j: int| 0 <= j < k ==> !dcolon_at(s, j),
    ensures
        find_dcolon(s) == k,
{
    lemma_find_dcolon(s);
    let r = find_dcolon(s);
    assert(dcolon_at(s, k));
    if r >= 0 {
        assert(dcolon_at(s, r));
    }
}

proof fn lemma_hex_value_bound(s: Seq<char>)
    requires
        all_hex(s),
    ensures
        0 <= hex_value(s),
        hex_value(s.take(0)) == 0,
    decreases s.len(),
{
    if s.len() > 0 {
        let t = s.drop_last();
        assert(all_hex(t)) by {
            assert forall|i: int| 0 <= i < t.len() implies is_hex(#[trigger] t[i]) by {
                assert(t[i] == s[i]);
            }
        }
        lemma_hex_value_bound(t);
        assert(is_hex(s[s.len() - 1]));
    }
    assert(s.take(0).len() == 0);
}

proof fn lemma_zero_run_bound(g: Seq<u16>, i: int)
    requires
        0 <= i,
    ensures
        i + zero_run(g, i) <= g.len() || zero_run(g, i) == 0,
        forall|k: int| i <= k < i + zero_run(g, i) ==> g[k] == 0,
        i + zero_run(g, i) < g.len() ==> g[i + zero_run(g, i)] != 0,
    decreases g.len() - i,
{
    if 0 <= i < g.len() && g[i] == 0 {
        lemma_zero_run_bound(g, i + 1);
    }
}

proof fn lemma_best_zero_run(g: Seq<u16>, n: int)
    requires
        0 <= n <= g.len(),
    ensures
        0 <= best_zero_run(g, n).0,
        best_zero_run(g, n).0 + best_zero_run(g, n).1 <= g.len(),
    decreases n,
{
    if n > 0 {
        lemma_best_zero_run(g, n - 1);
        lemma_zero_run_bound(g, n - 1);
    }
}

// ---------------------------------------------------------------- exec side

/// Whether `s` is a dotted-decimal IPv4 other than `0.0.0.0`.
pub fn is_valid_ipv4(s: &str) -> (b: bool)
    ensures
        b == spec_is_valid_ipv4(s@),
{
    let v = chars_of(s);
    assert(v@.subrange(0, v@.len() as int) == v@);
    is_valid_ipv4_chars(&v, 0, v.len())
}

/// [`is_valid_ipv4`] on a range of characters.
pub fn is_valid_ipv4_chars(v: &Vec<char>, lo: usize, hi: usize) -> (b: bool)
    requires
        lo <= hi <= v@.len(),
    ensures
        b == spec_is_valid_ipv4(v@.subrange(lo as int, hi as int)),
{
    let ghost t = v@.subrange(lo as int, hi as int);
    if lo == hi || contains_char_range(v, lo, hi, ':') {
        return false;
    }
    let parts = split_range(v, lo, hi, '.');
    if parts.len() != 4 {
        return false;
    }
    let mut k: usize = 0;
    while k < 4
        invariant
            lo <= hi <= v@.len(),
            t == v@.subrange(lo as int, hi as int),
            parts@.len() == 4,
            split_char(t, '.').len() == 4,
            forall|j: int|
                0 <= j < 4 ==> lo <= (#[trigger] parts@[j]).0 <= parts@[j].1 <= hi && v@.subrange(
                    parts@[j].0 as int,
                    parts@[j].1 as int,
                ) == split_char(t, '.')[j],
            k <= 4,
            forall|j: int| 0 <= j < k ==> ipv4_octet_ok(#[trigger] split_char(t, '.')[j]),
        decreases 4 - k,
    {
        let (a, b) = parts[k];
        if a == b || !all_digits_range(v, a, b) {
            return false;
        }
        match parse_uint_range(v, a, b, 65535) {
            Some(n) => {
                if n > 255 {
                    return false;
                }
            },
            None => {
                return false;
            },
        }
        k += 1;
    }
    // not the placeholder 0.0.0.0
    if hi - lo == 7 && v[lo] == '0' && v[lo + 1] == '.' && v[lo + 2] == '0' && v[lo + 3] == '.'
        && v[lo + 4] == '0' && v[lo + 5] == '.' && v[lo + 6] == '0' {
        assert(t =~= zero_quad());
        return false;
    }
    proof {
        if t == zero_quad() {
            assert(t[0] == '0' && t[1] == '.' && t[2] == '0' && t[3] == '.' && t[4] == '0' && t[5]
                == '.' && t[6] == '0');
        }
    }
    true
}

/// `u16::from_str_radix(_, 16)` on a range.
fn parse_hex_u16_range(v: &Vec<char>, lo: usize, hi: usize) -> (r: Option<u16>)
    requires
        lo <= hi <= v@.len(),
    ensures
        match r {
            Some(x) => parse_hex_u16(v@.subrange(lo as int, hi as int)) == Some(x as int),
            None => parse_hex_u16(v@.subrange(lo as int, hi as int)) is None,
        },
{
    let ghost t = v@.subrange(lo as int, hi as int);
    let a = if lo < hi && v[lo] == '+' {
        lo + 1
    } else {
        lo
    };
    let ghost d = v@.subrange(a as int, hi as int);
    assert(d == (if t.len() > 0 && t[0] == '+' {
        t.drop_first()
    } else {
        t
    }));
    if a == hi {
        return None;
    }
    let mut acc: u32 = 0;
    let mut i = a;
    while i < hi
        invariant
            a <= i <= hi <= v@.len(),
            t == v@.subrange(lo as int, hi as int),
            d == v@.subrange(a as int, hi as int),
            d == (if t.len() > 0 && t[0] == '+' {
                t.drop_first()
            } else {
                t
            }),
            all_hex(d.take(i - a)),
            acc as int == hex_value(d.take(i - a)),
            acc <= 0xffff,
        decreases hi - i,
    {
        let c = v[i];
        if !is_hex_exec(c) {
            assert(!all_hex(d)) by {
                assert(!is_hex(d[i - a]));
            }
            return None;
        }
        let h: u32 = if '0' <= c && c <= '9' {
            (c as u32) - ('0' as u32)
        } else if 'a' <= c && c <= 'f' {
            (c as u32) - ('a' as u32) + 10
        } else {
            (c as u32) - ('A' as u32) + 10
        };
        assert(d.take(i - a + 1).drop_last() == d.take(i - a));
        assert(d.take(i - a + 1).last() == c);
        assert(all_hex(d.take(i - a + 1))) by {
            assert forall|j: int| 0 <= j < i - a + 1 implies is_hex(#[trigger] d.take(i - a + 1)[j]) by {
                if j < i - a {
                    assert(d.take(i - a + 1)[j] == d.take(i - a)[j]);
                }
            }
        }
        let next: u32 = acc * 16 + h;
        if next > 0xffff {
            // the value only grows with more digits; so does any longer prefix
            proof {
                lemma_hex_prefix_mono(d, i - a + 1);
            }
            return None;
        }
        acc = next;
        i += 1;
    }
    assert(d.take(hi - a) == d);
    Some(acc as u16)
}

proof fn lemma_hex_prefix_mono(d: Seq<char>, k: int)
    requires
        0 <= k <= d.len(),
        all_hex(d.take(k)),
    ensures
        all_hex(d) ==> hex_value(d.take(k)) <= hex_value(d),
    decreases d.len() - k,
{
    if k < d.len() && all_hex(d) {
        let t = d.take(k + 1);
        assert(t.drop_last() == d.take(k));
        assert(all_hex(d.take(k + 1))) by {
            assert forall|j: int| 0 <= j < k + 1 implies is_hex(#[trigger] d.take(k + 1)[j]) by {
                assert(d.take(k + 1)[j] == d[j]);
            }
        }
        lemma_hex_prefix_mono(d, k + 1);
        lemma_hex_value_bound(d.take(k));
        assert(is_hex(d[k]));
    } else if k == d.len() {
        assert(d.take(k) == d);
    }
}

/// Whether `ip` is a link-local IPv6 address (`fe80::/10`).
pub fn is_link_local_v6(ip: &str) -> (b: bool)
    ensures
        b == spec_is_link_local_v6(ip@),
{
    let v = chars_of(ip);
    let parts = split_range(&v, 0, v.len(), ':');
    assert(v@.subrange(0, v@.len() as int) == v@);
    let (a, b) = parts[0];
    match parse_hex_u16_range(&v, a, b) {
        Some(x) => 0xfe80 <= x && x <= 0xfebf,
        None => false,
    }
}

/// Whether `v[lo..hi]` holds hex digits only.
fn all_hex_range(v: &Vec<char>, lo: usize, hi: usize) -> (b: bool)
    requires
        lo <= hi <= v@.len(),
    ensures
        b == all_hex(v@.subrange(lo as int, hi as int)),
{
    let mut i = lo;
    while i < hi
        invariant
            lo <= i <= hi <= v@.len(),
            forall|j: int| lo <= j < i ==> is_hex(#[trigger] v@[j]),
        decreases hi - i,
    {
        if !is_hex_exec(v[i]) {
            assert(!is_hex(v@.subrange(lo as int, hi as int)[i - lo]));
            return false;
        }
        i += 1;
    }
    assert forall|j: int| 0 <= j < hi - lo implies is_hex(#[trigger] v@.subrange(lo as int, hi as int)[j]) by {
        assert(v@.subrange(lo as int, hi as int)[j] == v@[lo + j]);
    }
    true
}

/// Number of groups of a colon-separated range (`None` when a group is bad).
fn count_v6_groups(v: &Vec<char>, lo: usize, hi: usize) -> (r: Option<usize>)
    requires
        lo <= hi <= v@.len(),
    ensures
        match r {
            Some(n) => v6_group_count(v@.subrange(lo as int, hi as int)) == Some(n as nat),
            None => v6_group_count(v@.subrange(lo as int, hi as int)) is None,
        },
{
    if lo == hi {
        return Some(0);
    }
    let ghost t = v@.subrange(lo as int, hi as int);
    let gs = split_range(v, lo, hi, ':');
    let mut k: usize = 0;
    while k < gs.len()
        invariant
            lo < hi <= v@.len(),
            t == v@.subrange(lo as int, hi as int),
            gs@.len() == split_char(t, ':').len(),
            forall|j: int|
                0 <= j < gs@.len() ==> lo <= (#[trigger] gs@[j]).0 <= gs@[j].1 <= hi && v@.subrange(
                    gs@[j].0 as int,
                    gs@[j].1 as int,
                ) == split_char(t, ':')[j],
            k <= gs@.len(),
            forall|j: int| 0 <= j < k ==> v6_group_ok(#[trigger] split_char(t, ':')[j]),
        decreases gs@.len() - k,
    {
        let (a, b) = gs[k];
        if a == b || b - a > 4 {
            return None;
        }
        if !all_hex_range(v, a, b) {
            assert(!v6_group_ok(split_char(t, ':')[k as int]));
            return None;
        }
        k += 1;
    }
    Some(gs.len())
}

/// Colon-notation structure check of a range (see [`spec_well_formed_colon_v6`]).
fn well_formed_colon_v6(v: &Vec<char>, lo: usize, hi: usize) -> (b: bool)
    requires
        lo <= hi <= v@.len(),
    ensures
        b == spec_well_formed_colon_v6(v@.subrange(lo as int, hi as int)),
{
    let ghost t = v@.subrange(lo as int, hi as int);
    // locate the first "::"
    let mut i = lo;
    let mut found = false;
    while !found && hi - i > 1
        invariant
            lo <= i <= hi <= v@.len(),
            t == v@.subrange(lo as int, hi as int),
            found ==> i + 1 < hi && dcolon_at(v@, i as int),
            forall|j: int| lo <= j < i ==> !dcolon_at(v@, j),
        decreases (if found { 0int } else { 1int }), hi - i,
    {
        if v[i] == ':' && v[i + 1] == ':' {
            found = true;
        } else {
            i += 1;
        }
    }
    if !found {
        proof {
            assert forall|j: int| 0 <= j < t.len() - 1 implies !dcolon_at(t, j) by {
                assert(t[j] == v@[lo + j] && t[j + 1] == v@[lo + j + 1]);
                assert(!dcolon_at(v@, lo + j));
            }
            lemma_find_dcolon(t);
            if find_dcolon(t) >= 0 {
                let k = find_dcolon(t);
                assert(dcolon_at(t, k));
            }
        }
        return match count_v6_groups(v, lo, hi) {
            Some(n) => n == 8,
            None => false,
        };
    }
    proof {
        assert forall|j: int| 0 <= j < i - lo implies !dcolon_at(t, j) by {
            assert(t[j] == v@[lo + j] && t[j + 1] == v@[lo + j + 1]);
            assert(!dcolon_at(v@, lo + j));
        }
        assert(t[i - lo] == v@[i as int] && t[i - lo + 1] == v@[i + 1]);
        lemma_find_dcolon_at(t, i - lo);
        assert(t.take(i - lo) == v@.subrange(lo as int, i as int));
        assert(t.skip(i - lo + 2) == v@.subrange(i + 2, hi as int));
    }
    match (count_v6_groups(v, lo, i), count_v6_groups(v, i + 2, hi)) {
        (Some(a), Some(b)) => a < 8 && b < 8 && a + b < 8,
        _ => false,
    }
}

/// Sixteen-byte dotted IPv6 as the FM350 writes it, decoded to RFC 5952 text.
fn decode_dotted_ipv6(v: &Vec<char>, lo: usize, hi: usize) -> (r: Option<String>)
    requires
        lo <= hi <= v@.len(),
    ensures
        match r {
            Some(x) => spec_decode_dotted_ipv6(v@.subrange(lo as int, hi as int)) == Some(x@),
            None => spec_decode_dotted_ipv6(v@.subrange(lo as int, hi as int)) is None,
        },
{
    let ghost t = v@.subrange(lo as int, hi as int);
    let parts = split_range(v, lo, hi, '.');
    if parts.len() != 16 {
        return None;
    }
    let ghost ps = split_char(t, '.');
    let mut bytes: Vec<u8> = Vec::new();
    let mut k: usize = 0;
    while k < 16
        invariant
            lo <= hi <= v@.len(),
            t == v@.subrange(lo as int, hi as int),
            ps == split_char(t, '.'),
            parts@.len() == 16,
            ps.len() == 16,
            forall|j: int|
                0 <= j < 16 ==> lo <= (#[trigger] parts@[j]).0 <= parts@[j].1 <= hi && v@.subrange(
                    parts@[j].0 as int,
                    parts@[j].1 as int,
                ) == ps[j],
            k <= 16,
            bytes@.len() == k,
            forall|j: int| 0 <= j < k ==> dotted_byte_ok(#[trigger] ps[j]),
            forall|j: int| 0 <= j < k ==> bytes@[j] as int == dec_value(#[trigger] ps[j]),
        decreases 16 - k,
    {
        let (a, b) = parts[k];
        if a == b || b - a > 3 || !all_digits_range(v, a, b) {
            return None;
        }
        match parse_uint_range(v, a, b, 255) {
            Some(n) => {
                bytes.push(n as u8);
            },
            None => {
                return None;
            },
        }
        k += 1;
    }
    let ghost bs = dotted_bytes(ps);
    assert(forall|j: int| 0 <= j < 16 ==> bytes@[j] as int == bs[j]);
    let mut all_zero = true;
    let mut low_zero = true;
    let mut j: usize = 0;
    while j < 16
        invariant
            j <= 16,
            bytes@.len() == 16,
            forall|m: int| 0 <= m < 16 ==> bytes@[m] as int == bs[m],
            all_zero == (forall|m: int| 0 <= m < j ==> bs[m] == 0),
            low_zero == (forall|m: int| 0 <= m < j && m < 15 ==> bs[m] == 0),
        decreases 16 - j,
    {
        assert(bytes@[j as int] as int == bs[j as int]);
        if bytes[j] != 0 {
            all_zero = false;
            if j < 15 {
                low_zero = false;
            }
        }
        j += 1;
    }
    if all_zero {
        return None;
    }
    if low_zero && bytes[15] == 1 {
        return None;
    }
    let mut groups: Vec<u16> = Vec::new();
    let mut g: usize = 0;
    while g < 8
        invariant
            g <= 8,
            bytes@.len() == 16,
            forall|m: int| 0 <= m < 16 ==> bytes@[m] as int == bs[m],
            groups@.len() == g,
            forall|m: int| 0 <= m < g ==> groups@[m] == groups_of_bytes(bs)[m],
        decreases 8 - g,
    {
        let hi_b = bytes[2 * g] as u16;
        let lo_b = bytes[2 * g + 1] as u16;
        groups.push(hi_b * 256 + lo_b);
        g += 1;
    }
    assert(groups@ =~= groups_of_bytes(bs));
    Some(format_ipv6_groups(&groups))
}

/// Hex groups of `g[lo..hi]` joined by `:`, appended to `s`.
fn push_hex_groups(s: &mut String, g: &Vec<u16>, lo: usize, hi: usize)
    requires
        lo <= hi <= g@.len(),
    ensures
        final(s)@ == old(s)@ + hex_groups(g@.subrange(lo as int, hi as int)),
{
    let ghost s0 = s@;
    let mut i = lo;
    while i < hi
        invariant
            lo <= i <= hi <= g@.len(),
            s@ == s0 + hex_groups(g@.subrange(lo as int, i as int)),
        decreases hi - i,
    {
        let ghost before = g@.subrange(lo as int, i as int);
        let ghost after = g@.subrange(lo as int, i + 1);
        assert(after.drop_last() == before);
        assert(after.map_values(|x: u16| hex_str(x as nat)).drop_last() == before.map_values(
            |x: u16| hex_str(x as nat),
        ));
        if i > lo {
            push_char(s, ':');
        }
        push_hex(s, g[i] as u64);
        proof {
            let m = after.map_values(|x: u16| hex_str(x as nat));
            if i == lo {
                assert(before.len() == 0);
                assert(hex_groups(before) == Seq::<char>::empty());
                assert(m.len() == 1);
                assert(hex_groups(after) == m[0]);
            } else {
                assert(hex_groups(after) == join(m.drop_last(), seq![':']) + seq![':'] + m.last());
            }
        }
        i += 1;
    }
}

/// Eight 16-bit groups as RFC 5952 text (longest zero run compressed).
fn format_ipv6_groups(g: &Vec<u16>) -> (s: String)
    ensures
        s@ == ipv6_text(g@),
{
    let mut best_start: usize = 0;
    let mut best_len: usize = 0;
    let mut i: usize = 0;
    while i < g.len()
        invariant
            i <= g@.len(),
            (best_start as int, best_len as nat) == best_zero_run(g@, i as int),
            best_start + best_len <= g@.len(),
        decreases g.len() - i,
    {
        // length of the zero run starting at i
        let mut l: usize = 0;
        while i + l < g.len() && g[i + l] == 0
            invariant
                i + l <= g@.len(),
                zero_run(g@, i as int) == l + zero_run(g@, (i + l) as int),
            decreases g.len() - i - l,
        {
            l += 1;
        }
        proof {
            lemma_best_zero_run(g@, i as int);
        }
        if l > best_len {
            best_start = i;
            best_len = l;
        }
        i += 1;
    }
    let mut s = String::new();
    if best_len < 2 {
        push_hex_groups(&mut s, g, 0, g.len());
        assert(g@.subrange(0, g@.len() as int) == g@);
    } else {
        push_hex_groups(&mut s, g, 0, best_start);
        push_char(&mut s, ':');
        push_char(&mut s, ':');
        push_hex_groups(&mut s, g, best_start + best_len, g.len());
        assert(g@.subrange(0, best_start as int) == g@.take(best_start as int));
        assert(g@.subrange((best_start + best_len) as int, g@.len() as int) == g@.skip(
            (best_start + best_len) as int,
        ));
    }
    s
}

/// Normalizes an IPv6 reported by the modem to the text written to UCI;
/// `None` when malformed or a placeholder.
pub fn normalize_ipv6(s: &str) -> (r: Option<String>)
    ensures
        match r {
            Some(x) => spec_normalize_ipv6(s@) == Some(x@),
            None => spec_normalize_ipv6(s@) is None,
        },
{
    let v = chars_of(s);
    let n = v.len();
    assert(v@.subrange(0, n as int) == v@);
    if contains_char_range(&v, 0, n, ':') {
        let (a, b) = trim_range(&v, 0, n);
        let a2 = trim_start_char_range(&v, a, b, '[');
        let b2 = trim_end_char_range(&v, a2, b, ']');
        let pieces = split_range(&v, a2, b2, '%');
        let (ca, cb) = pieces[0];
        assert(v@.subrange(ca as int, cb as int) == v6_core(s@));
        if ca == cb || !well_formed_colon_v6(&v, ca, cb) {
            return None;
        }
        let ghost core = v@.subrange(ca as int, cb as int);
        let mut i = ca;
        let mut nonzero = false;
        while i < cb
            invariant
                ca <= i <= cb <= v@.len(),
                core == v@.subrange(ca as int, cb as int),
                nonzero == (exists|j: int| 0 <= j < i - ca && is_hex(core[j]) && core[j] != '0'),
            decreases cb - i,
        {
            if is_hex_exec(v[i]) && v[i] != '0' {
                assert(core[i - ca] == v@[i as int]);
                nonzero = true;
            }
            proof {
                if !nonzero {
                    assert(core[i - ca] == v@[i as int]);
                }
            }
            i += 1;
        }
        if !nonzero {
            return None;
        }
        // The loopback placeholder: `1` at the end, nothing but zeros before.
        if v[cb - 1] == '1' {
            let mut j = ca;
            let mut other = false;
            while j < cb - 1
                invariant
                    ca <= j <= cb - 1,
                    cb <= v@.len(),
                    core == v@.subrange(ca as int, cb as int),
                    other == (exists|k: int| 0 <= k < j - ca && is_hex(core[k]) && core[k] != '0'),
                decreases cb - 1 - j,
            {
                if is_hex_exec(v[j]) && v[j] != '0' {
                    assert(core[j - ca] == v@[j as int]);
                    other = true;
                }
                proof {
                    if !other {
                        assert(core[j - ca] == v@[j as int]);
                    }
                }
                j += 1;
            }
            proof {
                assert(core.last() == v@[cb - 1]);
                if !other {
                    assert forall|i: int| 0 <= i < core.drop_last().len() && is_hex(#[trigger] core.drop_last()[i])
                        implies core.drop_last()[i] == '0' by {
                        assert(core.drop_last()[i] == core[i]);
                    }
                } else {
                    let k = choose|k: int| 0 <= k < cb - 1 - ca && is_hex(core[k]) && core[k] != '0';
                    assert(core.drop_last()[k] == core[k]);
                }
            }
            if !other {
                return None;
            }
        } else {
            proof {
                assert(core.last() == v@[cb - 1]);
            }
        }
        Some(string_of_range(&v, ca, cb))
    } else {
        decode_dotted_ipv6(&v, 0, n)
    }
}

/// Whether `s` looks like an IPv6 (has `:`, or sixteen dotted pieces).
pub fn looks_v6(s: &str) -> (b: bool)
    ensures
        b == spec_looks_v6(s@),
{
    let v = chars_of(s);
    let n = v.len();
    assert(v@.subrange(0, n as int) == v@);
    let (a, b) = trim_range(&v, 0, n);
    let (a2, b2) = trim_char_range(&v, a, b, '"');
    if contains_char_range(&v, a2, b2, ':') {
        return true;
    }
    split_range(&v, a2, b2, '.').len() == 16
}

/// Whether `s` is a valid (non-placeholder) IPv6 in either notation.
pub fn is_valid_ipv6(s: &str) -> (b: bool)
    ensures
        b == spec_normalize_ipv6(s@) is Some,
{
    normalize_ipv6(s).is_some()
}

} // verus!
