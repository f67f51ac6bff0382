//! Decoding of the band and bandwidth codes of `AT+GTCCINFO?`, and the band
//! an ARFCN falls in. When a code cannot be decoded the answer is `None` and
//! the caller keeps the raw code: nothing is guessed.
use crate::text::{all_digits, chars_of, dec_str, parse_uint, push_dec, push_str, str_eq, trim, trim_range, starts_with, parse_uint_range};
use vstd::prelude::*;

verus! {

/// The downlink frequency of an NR-ARFCN in kHz (TS 38.104 global raster:
/// 5 kHz steps below 3 GHz, 15 kHz steps from 3 GHz up to ARFCN 2016666).
pub open spec fn nr_arfcn_khz(arfcn: int) -> Option<int> {
    if 0 <= arfcn <= 599999 {
        Some(arfcn * 5)
    } else if 600000 <= arfcn <= 2016666 {
        Some(3000000 + (arfcn - 600000) * 15)
    } else {
        None
    }
}

/// The NR band of a downlink frequency in kHz (the first matching range;
/// overlapping bands are named together).
pub open spec fn nr_band_of_khz(k: int) -> Option<Seq<char>> {
    if 2110000 <= k <= 2170000 {
        Some("n1"@)
    } else if 1805000 <= k <= 1880000 {
        Some("n3"@)
    } else if 869000 <= k <= 894000 {
        Some("n5"@)
    } else if 925000 <= k <= 960000 {
        Some("n8"@)
    } else if 758000 <= k <= 803000 {
        Some("n28"@)
    } else if 2010000 <= k <= 2025000 {
        Some("n34"@)
    } else if 2570000 <= k <= 2620000 {
        Some("n38/n41"@)
    } else if 1880000 <= k <= 1920000 {
        Some("n39"@)
    } else if 2300000 <= k <= 2400000 {
        Some("n40"@)
    } else if 2496000 <= k <= 2690000 {
        Some("n41"@)
    } else if 3300000 <= k <= 4200000 {
        Some("n77/n78"@)
    } else if 4400000 <= k <= 5000000 {
        Some("n79"@)
    } else {
        None
    }
}

/// The NR band an NR-ARFCN falls in.
pub open spec fn spec_nr_band_from_arfcn(arfcn: int) -> Option<Seq<char>> {
    match nr_arfcn_khz(arfcn) {
        Some(k) => nr_band_of_khz(k),
        None => None,
    }
}

/// The view of an optional string slice.
pub open spec fn opt_str_view(r: Option<&str>) -> Option<Seq<char>> {
    match r {
        Some(s) => Some(s@),
        None => None,
    }
}

/// The view of an optional string.
pub open spec fn opt_string_view(r: Option<String>) -> Option<Seq<char>> {
    match r {
        Some(s) => Some(s@),
        None => None,
    }
}

/// The NR band an NR-ARFCN falls in (`None` outside the local table).
/// The frequency is computed in whole kHz, exactly.
pub fn nr_band_from_arfcn(arfcn: i64) -> (r: Option<&'static str>)
    ensures
        opt_str_view(r) == spec_nr_band_from_arfcn(arfcn as int),
{
    let k: i64 = if 0 <= arfcn && arfcn <= 599999 {
        arfcn * 5
    } else if 600000 <= arfcn && arfcn <= 2016666 {
        3000000 + (arfcn - 600000) * 15
    } else {
        return None;
    };
    if 2110000 <= k && k <= 2170000 {
        Some("n1")
    } else if 1805000 <= k && k <= 1880000 {
        Some("n3")
    } else if 869000 <= k && k <= 894000 {
        Some("n5")
    } else if 925000 <= k && k <= 960000 {
        Some("n8")
    } else if 758000 <= k && k <= 803000 {
        Some("n28")
    } else if 2010000 <= k && k <= 2025000 {
        Some("n34")
    } else if 2570000 <= k && k <= 2620000 {
        Some("n38/n41")
    } else if 1880000 <= k && k <= 1920000 {
        Some("n39")
    } else if 2300000 <= k && k <= 2400000 {
        Some("n40")
    } else if 2496000 <= k && k <= 2690000 {
        Some("n41")
    } else if 3300000 <= k && k <= 4200000 {
        Some("n77/n78")
    } else if 4400000 <= k && k <= 5000000 {
        Some("n79")
    } else {
        None
    }
}

/// The LTE band of an EARFCN (TS 36.101 ranges).
pub open spec fn spec_lte_band_from_earfcn(e: int) -> Option<Seq<char>> {
    if 0 <= e <= 599 {
        Some("B1"@)
    } else if 1200 <= e <= 1949 {
        Some("B3"@)
    } else if 2400 <= e <= 2649 {
        Some("B5"@)
    } else if 3450 <= e <= 3799 {
        Some("B8"@)
    } else if 36200 <= e <= 36349 {
        Some("B34"@)
    } else if 37750 <= e <= 38249 {
        Some("B38"@)
    } else if 38250 <= e <= 38649 {
        Some("B39"@)
    } else if 38650 <= e <= 39649 {
        Some("B40"@)
    } else if 39650 <= e <= 41589 {
        Some("B41"@)
    } else {
        None
    }
}

/// The LTE band of an EARFCN (`None` outside the local table).
pub fn lte_band_from_earfcn(earfcn: i64) -> (r: Option<&'static str>)
    ensures
        opt_str_view(r) == spec_lte_band_from_earfcn(earfcn as int),
{
    let e = earfcn;
    if 0 <= e && e <= 599 {
        Some("B1")
    } else if 1200 <= e && e <= 1949 {
        Some("B3")
    } else if 2400 <= e && e <= 2649 {
        Some("B5")
    } else if 3450 <= e && e <= 3799 {
        Some("B8")
    } else if 36200 <= e && e <= 36349 {
        Some("B34")
    } else if 37750 <= e && e <= 38249 {
        Some("B38")
    } else if 38250 <= e && e <= 38649 {
        Some("B39")
    } else if 38650 <= e && e <= 39649 {
        Some("B40")
    } else if 39650 <= e && e <= 41589 {
        Some("B41")
    } else {
        None
    }
}

/// An NR band number 3GPP has assigned: 1..=105 except 6, 9, 10, 11, 15,
/// 16, 21, 22, 23, 24 and 27, or 256..=269, 510..=512, 670..=710.
pub open spec fn nr_band_assigned(n: int) -> bool {
    if 1 <= n <= 105 {
        !(n == 6 || n == 9 || n == 10 || n == 11 || n == 15 || n == 16 || n == 21 || n == 22 || n
            == 23 || n == 24 || n == 27)
    } else {
        (256 <= n <= 269) || (510 <= n <= 512) || (670 <= n <= 710)
    }
}

pub fn nr_band_no_is_valid(n: i32) -> (b: bool)
    ensures
        b == nr_band_assigned(n as int),
{
    if 1 <= n && n <= 105 {
        !(n == 6 || n == 9 || n == 10 || n == 11 || n == 15 || n == 16 || n == 21 || n == 22 || n
            == 23 || n == 24 || n == 27)
    } else {
        (256 <= n && n <= 269) || (510 <= n && n <= 512) || (670 <= n && n <= 710)
    }
}

/// A band code as the modem writes it: trimmed, one to six digits.
pub open spec fn band_code_ok(c: Seq<char>) -> bool {
    0 < c.len() <= 6 && all_digits(c)
}

/// `prefix` followed by the decimal text of `n`.
pub open spec fn named(prefix: Seq<char>, n: int) -> Seq<char> {
    prefix + dec_str(n as nat)
}

/// The band number a concatenated code gives after `p` (rule 2), if any.
pub open spec fn concat_band(c: Seq<char>, p: Seq<char>) -> Option<int> {
    if starts_with(c, p) && c.len() > p.len() {
        match parse_uint(c.skip(p.len() as int), i32::MAX as int) {
            Some(n) => if nr_band_assigned(n) {
                Some(n)
            } else {
                None
            },
            None => None,
        }
    } else {
        None
    }
}

/// The NR band named by a `<band>` code. Rule 1 (sum): `base + band` for
/// the bases 5000, 500, 100, in that order. Rule 2 (concatenation): the
/// prefixes `500`, `100`, `50` followed by the band number. Every candidate
/// must be an assigned band.
pub open spec fn spec_nr_band_from_code(code: Seq<char>) -> Option<Seq<char>> {
    let c = trim(code);
    if !band_code_ok(c) {
        None
    } else {
        let v = parse_uint(c, i32::MAX as int)->Some_0;
        if v > 5000 && nr_band_assigned(v - 5000) {
            Some(named("n"@, v - 5000))
        } else if v > 500 && nr_band_assigned(v - 500) {
            Some(named("n"@, v - 500))
        } else if v > 100 && nr_band_assigned(v - 100) {
            Some(named("n"@, v - 100))
        } else if concat_band(c, "500"@) is Some {
            Some(named("n"@, concat_band(c, "500"@)->Some_0))
        } else if concat_band(c, "100"@) is Some {
            Some(named("n"@, concat_band(c, "100"@)->Some_0))
        } else if concat_band(c, "50"@) is Some {
            Some(named("n"@, concat_band(c, "50"@)->Some_0))
        } else {
            None
        }
    }
}

proof fn lemma_short_digits_parse(c: Seq<char>)
    requires
        band_code_ok(c),
    ensures
        parse_uint(c, i32::MAX as int) is Some,
        parse_uint(c, i32::MAX as int)->Some_0 < 1000000,
        parse_uint(c, i32::MAX as int)->Some_0 >= 0,
{
    crate::text::lemma_dec_value_nonneg(c);
    lemma_dec_value_below(c);
    reveal_with_fuel(pow10, 7);
    assert(pow10(c.len()) <= 1000000);
    assert(c[0] != '+') by {
        assert(crate::text::is_digit(c[0]));
    }
}

proof fn lemma_dec_value_below(c: Seq<char>)
    requires
        all_digits(c),
    ensures
        crate::text::dec_value(c) < crate::modem::band::pow10(c.len()),
    decreases c.len(),
{
    if c.len() > 0 {
        let d = c.drop_last();
        assert(all_digits(d)) by {
            assert forall|i: int| 0 <= i < d.len() implies crate::text::is_digit(#[trigger] d[i]) by {
                assert(d[i] == c[i]);
            }
        }
        lemma_dec_value_below(d);
        assert(crate::text::is_digit(c[c.len() - 1]));
        assert(crate::text::dec_value(c) == crate::text::dec_value(d) * 10 + crate::text::digit_val(
            c.last(),
        ));
        assert(pow10(c.len()) == pow10(d.len()) * 10);
    }
}

/// 10 to the power `n`.
pub open spec fn pow10(n: nat) -> int
    decreases n,
{
    if n == 0 {
        1
    } else {
        pow10((n - 1) as nat) * 10
    }
}

/// `prefix` followed by the decimal text of `n`, as a string.
fn named_exec(prefix: &str, n: u64) -> (r: String)
    ensures
        r@ == named(prefix@, n as int),
{
    let mut s = String::new();
    push_str(&mut s, prefix);
    push_dec(&mut s, n);
    s
}

/// Rule 2 for one prefix on the trimmed code `v[a..b]`.
fn concat_band_exec(v: &Vec<char>, a: usize, b: usize, p: &str) -> (r: Option<u64>)
    requires
        a <= b <= v@.len(),
    ensures
        match r {
            Some(n) => concat_band(v@.subrange(a as int, b as int), p@) == Some(n as int),
            None => concat_band(v@.subrange(a as int, b as int), p@) is None,
        },
{
    let pv = chars_of(p);
    if !crate::text::starts_with_range(v, a, b, &pv) || b - a <= pv.len() {
        return None;
    }
    let ghost c = v@.subrange(a as int, b as int);
    assert(c.skip(pv@.len() as int) == v@.subrange(a + pv.len(), b as int));
    match parse_uint_range(v, a + pv.len(), b, 2147483647) {
        Some(n) => {
            if nr_band_no_is_valid(n as i32) {
                Some(n)
            } else {
                None
            }
        },
        None => None,
    }
}

/// The NR band name of a `<band>` code (see [`spec_nr_band_from_code`]).
pub fn nr_band_from_code(code: &str) -> (r: Option<String>)
    ensures
        opt_string_view(r) == spec_nr_band_from_code(code@),
{
    let v = chars_of(code);
    assert(v@.subrange(0, v@.len() as int) == v@);
    let (a, b) = trim_range(&v, 0, v.len());
    if a == b || b - a > 6 || !crate::text::all_digits_range(&v, a, b) {
        return None;
    }
    proof {
        lemma_short_digits_parse(v@.subrange(a as int, b as int));
        reveal_strlit("n");
    }
    let val: u64 = match parse_uint_range(&v, a, b, 2147483647) {
        Some(x) => x,
        None => {
            return None;
        },
    };
    if val > 5000 && nr_band_no_is_valid((val - 5000) as i32) {
        return Some(named_exec("n", val - 5000));
    }
    if val > 500 && nr_band_no_is_valid((val - 500) as i32) {
        return Some(named_exec("n", val - 500));
    }
    if val > 100 && nr_band_no_is_valid((val - 100) as i32) {
        return Some(named_exec("n", val - 100));
    }
    match concat_band_exec(&v, a, b, "500") {
        Some(n) => {
            return Some(named_exec("n", n));
        },
        None => {},
    }
    match concat_band_exec(&v, a, b, "100") {
        Some(n) => {
            return Some(named_exec("n", n));
        },
        None => {},
    }
    match concat_band_exec(&v, a, b, "50") {
        Some(n) => {
            return Some(named_exec("n", n));
        },
        None => {},
    }
    None
}

/// An LTE band number in use: 1..=88 except 16.
pub open spec fn lte_band_assigned(n: int) -> bool {
    1 <= n <= 88 && n != 16
}

/// The LTE band named by a `<band>` code: `100 + band` first, then the band
/// number written directly.
pub open spec fn spec_lte_band_from_code(code: Seq<char>) -> Option<Seq<char>> {
    let c = trim(code);
    if !band_code_ok(c) {
        None
    } else {
        let v = parse_uint(c, i32::MAX as int)->Some_0;
        if v > 100 && lte_band_assigned(v - 100) {
            Some(named("B"@, v - 100))
        } else if lte_band_assigned(v) {
            Some(named("B"@, v))
        } else {
            None
        }
    }
}

/// The LTE band name of a `<band>` code (see [`spec_lte_band_from_code`]).
pub fn lte_band_from_code(code: &str) -> (r: Option<String>)
    ensures
        opt_string_view(r) == spec_lte_band_from_code(code@),
{
    let v = chars_of(code);
    assert(v@.subrange(0, v@.len() as int) == v@);
    let (a, b) = trim_range(&v, 0, v.len());
    if a == b || b - a > 6 || !crate::text::all_digits_range(&v, a, b) {
        return None;
    }
    proof {
        lemma_short_digits_parse(v@.subrange(a as int, b as int));
    }
    let val: u64 = match parse_uint_range(&v, a, b, 2147483647) {
        Some(x) => x,
        None => {
            return None;
        },
    };
    if val > 100 && val - 100 <= 88 && val - 100 != 16 {
        return Some(named_exec("B", val - 100));
    }
    if 1 <= val && val <= 88 && val != 16 {
        return Some(named_exec("B", val));
    }
    None
}

/// The readable bandwidth of a `<bandwidth>` code: for NR (`rat` 9) the
/// code is a fifth of the width in MHz (25, 50, 100, 250, 450, 500, 1000,
/// 2000); for LTE (`rat` 4) it is a count of resource blocks.
pub open spec fn spec_bandwidth_text(rat: Seq<char>, code: Seq<char>) -> Option<Seq<char>> {
    match crate::text::parse_int(trim(code), i32::MIN as int, i32::MAX as int) {
        None => None,
        Some(n) => if rat == "9"@ {
            if n == 25 || n == 50 || n == 100 || n == 250 || n == 450 || n == 500 || n == 1000 || n
                == 2000 {
                Some(dec_str((n / 5) as nat) + " MHz"@)
            } else {
                None
            }
        } else if rat == "4"@ {
            if n == 6 {
                Some("1.4 MHz"@)
            } else if n == 15 {
                Some("3 MHz"@)
            } else if n == 25 {
                Some("5 MHz"@)
            } else if n == 50 {
                Some("10 MHz"@)
            } else if n == 75 {
                Some("15 MHz"@)
            } else if n == 100 {
                Some("20 MHz"@)
            } else {
                None
            }
        } else {
            None
        },
    }
}

/// The readable bandwidth of a code, by RAT (see [`spec_bandwidth_text`]).
pub fn bandwidth_text(rat: &str, code: &str) -> (r: Option<String>)
    ensures
        opt_string_view(r) == spec_bandwidth_text(rat@, code@),
{
    let v = chars_of(code);
    assert(v@.subrange(0, v@.len() as int) == v@);
    let (a, b) = trim_range(&v, 0, v.len());
    let n: i64 = match crate::text::parse_int_range(&v, a, b, 2147483648, 2147483647) {
        Some((neg, x)) => if neg {
            -(x as i64)
        } else {
            x as i64
        },
        None => {
            return None;
        },
    };
    if str_eq(rat, "9") {
        if n == 25 || n == 50 || n == 100 || n == 250 || n == 450 || n == 500 || n == 1000 || n
            == 2000 {
            let mut s = String::new();
            push_dec(&mut s, (n / 5) as u64);
            push_str(&mut s, " MHz");
            Some(s)
        } else {
            None
        }
    } else if str_eq(rat, "4") {
        if n == 6 {
            Some(String::from_str("1.4 MHz"))
        } else if n == 15 {
            Some(String::from_str("3 MHz"))
        } else if n == 25 {
            Some(String::from_str("5 MHz"))
        } else if n == 50 {
            Some(String::from_str("10 MHz"))
        } else if n == 75 {
            Some(String::from_str("15 MHz"))
        } else if n == 100 {
            Some(String::from_str("20 MHz"))
        } else {
            None
        }
    } else {
        None
    }
}

/// The carrier a numeric MCC+MNC belongs to (empty when not listed).
pub open spec fn spec_operator_name(code: Seq<char>) -> Seq<char> {
    if code == "46000"@ || code == "46002"@ || code == "46004"@ || code == "46007"@ || code
        == "46008"@ {
        "中国移动"@
    } else if code == "46001"@ || code == "46006"@ || code == "46009"@ {
        "中国联通"@
    } else if code == "46003"@ || code == "46005"@ || code == "46011"@ || code == "46012"@ {
        "中国电信"@
    } else if code == "46015"@ {
        "中国广电"@
    } else if code == "46020"@ {
        "中国铁通"@
    } else {
        ""@
    }
}

/// The carrier name of a numeric MCC+MNC (display only; the numeric code is
/// always kept beside it).
pub fn operator_name(code: &str) -> (r: &'static str)
    ensures
        r@ == spec_operator_name(code@),
{
    if str_eq(code, "46000") || str_eq(code, "46002") || str_eq(code, "46004") || str_eq(
        code,
        "46007",
    ) || str_eq(code, "46008") {
        "中国移动"
    } else if str_eq(code, "46001") || str_eq(code, "46006") || str_eq(code, "46009") {
        "中国联通"
    } else if str_eq(code, "46003") || str_eq(code, "46005") || str_eq(code, "46011") || str_eq(
        code,
        "46012",
    ) {
        "中国电信"
    } else if str_eq(code, "46015") {
        "中国广电"
    } else if str_eq(code, "46020") {
        "中国铁通"
    } else {
        ""
    }
}

} // verus!
