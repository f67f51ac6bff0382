//! Short messages in PDU mode.
//!
//! The FM350 is driven in PDU mode, as the earlier web UI did:
//!   - list: `AT+CMGF=0`, `AT+CSCS="GSM"`, `AT+CMGL=4`
//!   - send: `AT+CMGS=<TPDU length>`, wait for `>`, then the PDU and Ctrl-Z
//!   - delete: `AT+CMGD=<index>`
//!   - storage: `AT+CPMS?` / `AT+CPMS="ME","ME","ME"`
//!
//! Texts are 7-bit (GSM 03.38 as tabled below) or UCS2.
use crate::at::session::fields;
use crate::at::parse::spec_first;
use crate::at::urc::{lossy, lossy_of};
use crate::text::{
    chars_of, dec_str, is_hex, is_hex_exec, is_ws, is_ws_exec, lines, lines_range, parse_int,
    parse_i64_range, push_char, push_dec, push_str, split_range, split_char, starts_with, strs,
    trim, trim_range, range_eq_str, range_starts_with_str,
};
use vstd::arithmetic::div_mod::{
    lemma_div_denominator, lemma_fundamental_div_mod, lemma_hoist_over_denominator,
    lemma_mod_multiples_vanish,
};
use vstd::arithmetic::power2::{lemma2_to64, lemma_pow2_adds, lemma_pow2_pos, pow2};
use vstd::bits::{lemma_u16_shl_is_mul, lemma_u16_shr_is_div};
use vstd::prelude::*;

verus! {

/// Ctrl-Z, the end of a PDU written after `AT+CMGS`.
pub const CTRL_Z: u8 = 0x1A;

/// One received message.
#[derive(Debug, Default, Clone)]
pub struct Sms {
    pub index: i64,
    pub status: i64,
    pub sender: String,
    pub timestamp: String,
    pub text: String,
    pub encoding: String,
    pub raw_pdu: String,
}

/// Message storage and its fill level (`AT+CPMS?`).
#[derive(Debug, Default, Clone)]
pub struct Storage {
    pub mem: String,
    pub used: i64,
    pub total: i64,
}

// ---------------------------------------------------------------- hex

/// Bytes of the UTF-8 encoding of a character.
pub open spec fn utf8_len(c: char) -> nat {
    if (c as u32) < 0x80 {
        1
    } else if (c as u32) < 0x800 {
        2
    } else if (c as u32) < 0x10000 {
        3
    } else {
        4
    }
}

/// Bytes of the UTF-8 encoding of a text (`str::len`).
pub open spec fn utf8_len_of(s: Seq<char>) -> nat
    decreases s.len(),
{
    if s.len() == 0 {
        0
    } else {
        utf8_len_of(s.drop_last()) + utf8_len(s.last())
    }
}

/// The text without its white space.
pub open spec fn no_ws(s: Seq<char>) -> Seq<char>
    decreases s.len(),
{
    if s.len() == 0 {
        seq![]
    } else if is_ws(s.last()) {
        no_ws(s.drop_last())
    } else {
        no_ws(s.drop_last()).push(s.last())
    }
}

pub open spec fn all_hex_chars(s: Seq<char>) -> bool {
    forall|i: int| 0 <= i < s.len() ==> is_hex(#[trigger] s[i])
}

/// The bytes of pairs of hex digits.
pub open spec fn hex_pairs(s: Seq<char>) -> Seq<u8> {
    Seq::new(
        s.len() / 2,
        |k: int| (crate::text::hex_val(s[2 * k]) * 16 + crate::text::hex_val(s[2 * k + 1])) as u8,
    )
}

pub open spec fn spec_hex_decode(s: Seq<char>) -> Result<Seq<u8>, Seq<char>> {
    let t = no_ws(s);
    if utf8_len_of(t) % 2 != 0 {
        Err("PDU 长度为奇数"@)
    } else if !all_hex_chars(t) {
        Err("PDU 含非十六进制字符"@)
    } else {
        Ok(hex_pairs(t))
    }
}

pub open spec fn result_view(r: Result<Vec<u8>, String>) -> Result<Seq<u8>, Seq<char>> {
    match r {
        Ok(v) => Ok(v@),
        Err(e) => Err(e@),
    }
}

fn utf8_len_exec(c: char) -> (n: u8)
    ensures
        n as nat == utf8_len(c),
{
    if (c as u32) < 0x80 {
        1
    } else if (c as u32) < 0x800 {
        2
    } else if (c as u32) < 0x10000 {
        3
    } else {
        4
    }
}

fn hex_val_exec(c: char) -> (d: u8)
    requires
        is_hex(c),
    ensures
        d as int == crate::text::hex_val(c),
        d < 16,
{
    if '0' <= c && c <= '9' {
        ((c as u32) - ('0' as u32)) as u8
    } else if 'a' <= c && c <= 'f' {
        ((c as u32) - ('a' as u32) + 10) as u8
    } else {
        ((c as u32) - ('A' as u32) + 10) as u8
    }
}

/// Decodes a hex PDU (white space ignored). An odd length (counted in
/// UTF-8 bytes, as `str::len` does) and any non-hex character are errors.
pub fn hex_decode(s: &str) -> (r: Result<Vec<u8>, String>)
    ensures
        result_view(r) == spec_hex_decode(s@),
{
    let v = chars_of(s);
    let mut t: Vec<char> = Vec::new();
    let mut odd = false;
    let mut i: usize = 0;
    while i < v.len()
        invariant
            i <= v@.len(),
            v@ == s@,
            t@ == no_ws(v@.take(i as int)),
            odd == (utf8_len_of(t@) % 2 == 1),
        decreases v.len() - i,
    {
        let c = v[i];
        proof {
            assert(v@.take(i + 1).drop_last() == v@.take(i as int));
            assert(v@.take(i + 1).last() == c);
        }
        if !is_ws_exec(c) {
            let ghost before = t@;
            t.push(c);
            assert(t@.drop_last() == before);
            let n = utf8_len_exec(c);
            if n % 2 == 1 {
                odd = !odd;
            }
        }
        i += 1;
    }
    assert(v@.take(v@.len() as int) == v@);
    if odd {
        return Err(String::from_str("PDU 长度为奇数"));
    }
    let mut k: usize = 0;
    while k < t.len()
        invariant
            k <= t@.len(),
            t@ == no_ws(s@),
            utf8_len_of(t@) % 2 == 0,
            forall|j: int| 0 <= j < k ==> is_hex(#[trigger] t@[j]),
        decreases t.len() - k,
    {
        if !is_hex_exec(t[k]) {
            return Err(String::from_str("PDU 含非十六进制字符"));
        }
        k += 1;
    }
    proof {
        lemma_ascii_len(t@);
    }
    let mut out: Vec<u8> = Vec::new();
    let mut j: usize = 0;
    while j + 1 < t.len()
        invariant
            t@.len() % 2 == 0,
            all_hex_chars(t@),
            j % 2 == 0,
            j <= t@.len(),
            out@.len() == j / 2,
            forall|q: int| 0 <= q < out@.len() ==> out@[q] == hex_pairs(t@)[q],
        decreases t.len() - j,
    {
        let hi = hex_val_exec(t[j]);
        let lo = hex_val_exec(t[j + 1]);
        let b: u8 = hi * 16 + lo;
        out.push(b);
        proof {
            let q = (j / 2) as int;
            assert(2 * q == j);
            assert(out@[q] == hex_pairs(t@)[q]);
        }
        j += 2;
    }
    assert(out@ =~= hex_pairs(t@));
    Ok(out)
}

/// An all-hex text is as long in UTF-8 bytes as in characters.
proof fn lemma_ascii_len(t: Seq<char>)
    requires
        all_hex_chars(t),
    ensures
        utf8_len_of(t) == t.len(),
    decreases t.len(),
{
    if t.len() > 0 {
        let d = t.drop_last();
        assert(all_hex_chars(d)) by {
            assert forall|i: int| 0 <= i < d.len() implies is_hex(#[trigger] d[i]) by {
                assert(d[i] == t[i]);
            }
        }
        lemma_ascii_len(d);
        assert(is_hex(t[t.len() - 1]));
    }
}

/// Upper-case hex digit.
pub open spec fn hex_upper(d: int) -> char {
    if d < 10 {
        (d + ('0' as int)) as char
    } else {
        (d - 10 + ('A' as int)) as char
    }
}

/// Upper-case hex of bytes, two digits each (`{:02X}`).
pub open spec fn hex_upper_of(b: Seq<u8>) -> Seq<char>
    decreases b.len(),
{
    if b.len() == 0 {
        seq![]
    } else {
        hex_upper_of(b.drop_last()) + seq![hex_upper(b.last() as int / 16), hex_upper(b.last() as int % 16)]
    }
}

fn hex_upper_exec(d: u8) -> (c: char)
    requires
        d < 16,
    ensures
        c == hex_upper(d as int),
{
    if d < 10 {
        (d + 48) as char
    } else {
        (d - 10 + 65) as char
    }
}

/// Encodes bytes as upper-case hex.
pub fn hex_encode(b: &[u8]) -> (r: String)
    ensures
        r@ == hex_upper_of(b@),
{
    let mut r = String::new();
    let mut i: usize = 0;
    while i < b.len()
        invariant
            i <= b@.len(),
            r@ == hex_upper_of(b@.take(i as int)),
        decreases b.len() - i,
    {
        let x = b[i];
        push_char(&mut r, hex_upper_exec(x / 16));
        push_char(&mut r, hex_upper_exec(x % 16));
        proof {
            assert(b@.take(i + 1).drop_last() == b@.take(i as int));
            assert(b@.take(i + 1).last() == x);
        }
        i += 1;
        assert(r@ =~= hex_upper_of(b@.take(i as int)));
    }
    assert(b@.take(b@.len() as int) == b@);
    r
}

/// Length and digits of the hex of bytes.
proof fn lemma_hex_upper_of(b: Seq<u8>)
    ensures
        hex_upper_of(b).len() == 2 * b.len(),
        forall|k: int|
            0 <= k < b.len() ==> #[trigger] hex_upper_of(b)[2 * k] == hex_upper(b[k] as int / 16)
                && hex_upper_of(b)[2 * k + 1] == hex_upper(b[k] as int % 16),
    decreases b.len(),
{
    if b.len() > 0 {
        let d = b.drop_last();
        lemma_hex_upper_of(d);
        assert forall|k: int| 0 <= k < b.len() implies #[trigger] hex_upper_of(b)[2 * k] == hex_upper(
            b[k] as int / 16,
        ) && hex_upper_of(b)[2 * k + 1] == hex_upper(b[k] as int % 16) by {
            if k < d.len() {
                assert(hex_upper_of(d)[2 * k] == hex_upper(d[k] as int / 16));
                assert(d[k] == b[k]);
            }
        }
    }
}

proof fn lemma_hex_digit_roundtrip(x: u8)
    ensures
        is_hex(hex_upper(x as int / 16)),
        is_hex(hex_upper(x as int % 16)),
        crate::text::hex_val(hex_upper(x as int / 16)) * 16 + crate::text::hex_val(hex_upper(x as int % 16))
            == x as int,
        !is_ws(hex_upper(x as int / 16)),
        !is_ws(hex_upper(x as int % 16)),
{
    let h = x as int / 16;
    let l = x as int % 16;
    assert(0 <= h < 16 && 0 <= l < 16);
    assert(h * 16 + l == x as int);
    assert(((h + ('0' as int)) as char) as int == h + ('0' as int));
    assert(((h - 10 + ('A' as int)) as char) as int == h - 10 + ('A' as int));
    assert(((l + ('0' as int)) as char) as int == l + ('0' as int));
    assert(((l - 10 + ('A' as int)) as char) as int == l - 10 + ('A' as int));
}

proof fn lemma_no_ws_id(s: Seq<char>)
    requires
        forall|i: int| 0 <= i < s.len() ==> !is_ws(#[trigger] s[i]),
    ensures
        no_ws(s) == s,
    decreases s.len(),
{
    if s.len() > 0 {
        let d = s.drop_last();
        assert forall|i: int| 0 <= i < d.len() implies !is_ws(#[trigger] d[i]) by {
            assert(d[i] == s[i]);
        }
        lemma_no_ws_id(d);
        assert(!is_ws(s[s.len() - 1]));
        assert(d.push(s.last()) == s);
    }
}

/// Decoding the hex of bytes gives the bytes back.
pub proof fn lemma_hex_roundtrip(b: Seq<u8>)
    ensures
        spec_hex_decode(hex_upper_of(b)) == Ok::<Seq<u8>, Seq<char>>(b),
{
    let h = hex_upper_of(b);
    lemma_hex_upper_of(b);
    assert forall|i: int| 0 <= i < h.len() implies is_hex(#[trigger] h[i]) && !is_ws(h[i]) by {
        let k = i / 2;
        lemma_hex_digit_roundtrip(b[k]);
        if i % 2 == 0 {
            assert(h[2 * k] == hex_upper(b[k] as int / 16));
            assert(i == 2 * k);
        } else {
            assert(h[2 * k] == hex_upper(b[k] as int / 16));
            assert(h[2 * k + 1] == hex_upper(b[k] as int % 16));
            assert(i == 2 * k + 1);
        }
    }
    lemma_no_ws_id(h);
    lemma_ascii_len(h);
    assert forall|k: int| 0 <= k < b.len() implies hex_pairs(h)[k] == b[k] by {
        lemma_hex_digit_roundtrip(b[k]);
        assert(h[2 * k] == hex_upper(b[k] as int / 16));
    }
    assert(hex_pairs(h) =~= b);
}

// ---------------------------------------------------------------- numbers and time

/// A semi-octet of a packed BCD number as a character.
pub open spec fn spec_to_digit(n: u8) -> char {
    if n <= 9 {
        ((n as int) + ('0' as int)) as char
    } else if n == 0x0A {
        '*'
    } else if n == 0x0B {
        '#'
    } else if n == 0x0C {
        'a'
    } else if n == 0x0D {
        'b'
    } else if n == 0x0E {
        'c'
    } else {
        'F'
    }
}

/// Semi-octet of a packed BCD number as a character (`*`, `#`, `a`-`c`
/// for 10 to 14, `F` for the filler).
pub fn to_digit(n: u8) -> (c: char)
    ensures
        c == spec_to_digit(n),
{
    if n <= 9 {
        (48u8 + n) as char
    } else if n == 0x0A {
        '*'
    } else if n == 0x0B {
        '#'
    } else if n == 0x0C {
        'a'
    } else if n == 0x0D {
        'b'
    } else if n == 0x0E {
        'c'
    } else {
        'F'
    }
}

/// The semi-octets of bytes, low half first.
pub open spec fn nibbles(b: Seq<u8>) -> Seq<u8> {
    Seq::new(2 * b.len(), |j: int| if j % 2 == 0 { b[j / 2] % 16 } else { b[j / 2] / 16 })
}

pub open spec fn spec_swap_digits(b: Seq<u8>, digits: nat) -> Seq<char> {
    let n = nibbles(b);
    let k = if digits < n.len() { digits as int } else { n.len() as int };
    n.take(k).map_values(|x: u8| spec_to_digit(x))
}

/// A packed BCD number (semi-octets swapped) as its first `digits` digits.
pub fn swap_digits(b: &[u8], digits: usize) -> (r: String)
    ensures
        r@ == spec_swap_digits(b@, digits as nat),
{
    let ghost n = nibbles(b@);
    let mut r = String::new();
    let mut j: usize = 0;
    while j < digits && j / 2 < b.len()
        invariant
            n == nibbles(b@),
            j <= digits,
            j <= n.len(),
            r@ == n.take(j as int).map_values(|x: u8| spec_to_digit(x)),
        decreases digits - j,
    {
        let x = b[j / 2];
        let d = if j % 2 == 0 {
            x % 16
        } else {
            x / 16
        };
        push_char(&mut r, to_digit(d));
        assert(n[j as int] == d);
        j += 1;
        assert(r@ =~= n.take(j as int).map_values(|x: u8| spec_to_digit(x)));
    }
    r
}

/// Number prefix of an address type: `+` for international (0x91).
pub fn ton_prefix(t: u8) -> (r: &'static str)
    ensures
        r@ == (if t == 0x91 {
            "+"@
        } else {
            ""@
        }),
{
    if t == 0x91 {
        "+"
    } else {
        ""
    }
}

/// A timestamp field: low semi-octet, then high, each in decimal.
pub open spec fn ts_pair(x: u8) -> Seq<char> {
    dec_str((x % 16) as nat) + dec_str((x / 16) as nat)
}

pub open spec fn spec_decode_timestamp(b: Seq<u8>) -> Seq<char> {
    if b.len() < 7 {
        seq![]
    } else {
        "20"@ + ts_pair(b[0]) + "-"@ + ts_pair(b[1]) + "-"@ + ts_pair(b[2]) + " "@ + ts_pair(b[3]) + ":"@
            + ts_pair(b[4]) + ":"@ + ts_pair(b[5])
    }
}

fn push_ts_pair(s: &mut String, x: u8)
    ensures
        final(s)@ == old(s)@ + ts_pair(x),
{
    push_dec(s, (x % 16) as u64);
    push_dec(s, (x / 16) as u64);
}

/// The service-centre timestamp (seven semi-octet-swapped bytes) as
/// `20YY-MM-DD HH:MM:SS`; empty when fewer than seven bytes.
pub fn decode_timestamp(b: &[u8]) -> (r: String)
    ensures
        r@ == spec_decode_timestamp(b@),
{
    let mut s = String::new();
    if b.len() < 7 {
        return s;
    }
    push_str(&mut s, "20");
    push_ts_pair(&mut s, b[0]);
    push_str(&mut s, "-");
    push_ts_pair(&mut s, b[1]);
    push_str(&mut s, "-");
    push_ts_pair(&mut s, b[2]);
    push_str(&mut s, " ");
    push_ts_pair(&mut s, b[3]);
    push_str(&mut s, ":");
    push_ts_pair(&mut s, b[4]);
    push_str(&mut s, ":");
    push_ts_pair(&mut s, b[5]);
    proof {
        assert(Seq::<char>::empty() + "20"@ == "20"@);
    }
    s
}

// ---------------------------------------------------------------- 7-bit alphabet

/// The GSM 03.38 basic character set, indexed by septet. Its slot 0x1B is
/// the escape to the extension table: it holds the ESC control character,
/// which is never encoded or decoded as a basic character.
pub const GSM7_BASIC: &'static str = "@£$¥èéùìòÇ\nØø\rÅåΔ_ΦΓΛΩΠΨΣΘΞ\u{1b}ÆæßÉ !\"#¤%&'()*+,-./0123456789:;<=>?¡ABCDEFGHIJKLMNOPQRSTUVWXYZÄÖÑÜ§¿abcdefghijklmnopqrstuvwxyzäöñüà";

pub open spec fn gsm7_basic() -> Seq<char> {
    GSM7_BASIC@
}

/// Escape code of the extension table.
pub const GSM7_ESC: u8 = 0x1B;

/// A septet as a basic character; outside the table, `?`.
pub open spec fn basic_char(v: u8) -> char {
    if (v as int) < gsm7_basic().len() {
        gsm7_basic()[v as int]
    } else {
        '?'
    }
}

/// A septet after the escape code, as a character of the extension table.
pub open spec fn ext_char(v: u8) -> char {
    if v == 0x0A {
        '\u{000C}'
    } else if v == 0x14 {
        '^'
    } else if v == 0x28 {
        '{'
    } else if v == 0x29 {
        '}'
    } else if v == 0x2F {
        '\\'
    } else if v == 0x3C {
        '['
    } else if v == 0x3D {
        '~'
    } else if v == 0x3E {
        ']'
    } else if v == 0x40 {
        '|'
    } else if v == 0x65 {
        '€'
    } else {
        '?'
    }
}

/// Septets read left to right: the text so far and whether an escape is
/// pending.
pub open spec fn gsm7_dec(sep: Seq<u8>) -> (Seq<char>, bool)
    decreases sep.len(),
{
    if sep.len() == 0 {
        (seq![], false)
    } else {
        let (t, esc) = gsm7_dec(sep.drop_last());
        let v = sep.last();
        if esc {
            (t.push(ext_char(v)), false)
        } else if v == GSM7_ESC {
            (t, true)
        } else {
            (t.push(basic_char(v)), false)
        }
    }
}

pub open spec fn spec_gsm7_to_string(sep: Seq<u8>) -> Seq<char> {
    gsm7_dec(sep).0
}

fn ext_char_exec(v: u8) -> (c: char)
    ensures
        c == ext_char(v),
{
    if v == 0x0A {
        '\u{000C}'
    } else if v == 0x14 {
        '^'
    } else if v == 0x28 {
        '{'
    } else if v == 0x29 {
        '}'
    } else if v == 0x2F {
        '\\'
    } else if v == 0x3C {
        '['
    } else if v == 0x3D {
        '~'
    } else if v == 0x3E {
        ']'
    } else if v == 0x40 {
        '|'
    } else if v == 0x65 {
        '€'
    } else {
        '?'
    }
}

/// Septets as text: the basic table, and after the escape code the
/// extension table; unknown codes become `?`.
pub fn gsm7_to_string(septets: &[u8]) -> (r: String)
    ensures
        r@ == spec_gsm7_to_string(septets@),
{
    let basic = chars_of(GSM7_BASIC);
    let mut r = String::new();
    let mut esc = false;
    let mut i: usize = 0;
    while i < septets.len()
        invariant
            i <= septets@.len(),
            basic@ == gsm7_basic(),
            (r@, esc) == gsm7_dec(septets@.take(i as int)),
        decreases septets.len() - i,
    {
        let v = septets[i];
        proof {
            assert(septets@.take(i + 1).drop_last() == septets@.take(i as int));
            assert(septets@.take(i + 1).last() == v);
        }
        if esc {
            push_char(&mut r, ext_char_exec(v));
            esc = false;
        } else if v == GSM7_ESC {
            esc = true;
        } else {
            let c = if (v as usize) < basic.len() {
                basic[v as usize]
            } else {
                '?'
            };
            push_char(&mut r, c);
        }
        i += 1;
    }
    assert(septets@.take(septets@.len() as int) == septets@);
    r
}

/// Index of the first `c` in `t`, or `-1`.
pub open spec fn first_pos(t: Seq<char>, c: char) -> int
    decreases t.len(),
{
    if t.len() == 0 {
        -1
    } else if t[0] == c {
        0
    } else {
        let r = first_pos(t.drop_first(), c);
        if r < 0 {
            -1
        } else {
            r + 1
        }
    }
}

proof fn lemma_first_pos(t: Seq<char>, c: char)
    ensures
        -1 <= first_pos(t, c) < t.len(),
        first_pos(t, c) >= 0 ==> t[first_pos(t, c)] == c,
        first_pos(t, c) < 0 ==> !t.contains(c),
        forall|j: int| 0 <= j < first_pos(t, c) ==> t[j] != c,
    decreases t.len(),
{
    if t.len() > 0 && t[0] != c {
        lemma_first_pos(t.drop_first(), c);
        let r = first_pos(t.drop_first(), c);
        if r >= 0 {
            assert(t[r + 1] == t.drop_first()[r]);
            assert forall|j: int| 0 <= j < r + 1 implies t[j] != c by {
                if j > 0 {
                    assert(t[j] == t.drop_first()[j - 1]);
                }
            }
        } else {
            assert forall|j: int| 0 <= j < t.len() implies t[j] != c by {
                if j > 0 {
                    assert(t[j] == t.drop_first()[j - 1]);
                }
            }
        }
    }
}

/// Extension-table code of a character, if it has one.
pub open spec fn ext_code(c: char) -> Option<u8> {
    if c == '{' {
        Some(0x28u8)
    } else if c == '}' {
        Some(0x29u8)
    } else if c == '[' {
        Some(0x3Cu8)
    } else if c == ']' {
        Some(0x3Eu8)
    } else if c == '^' {
        Some(0x14u8)
    } else if c == '\\' {
        Some(0x2Fu8)
    } else if c == '~' {
        Some(0x3Du8)
    } else if c == '|' {
        Some(0x40u8)
    } else if c == '€' {
        Some(0x65u8)
    } else {
        None
    }
}

/// The septets of one character: its place in the basic table (the escape
/// code's slot excepted), else the escape code and its extension code;
/// `None` when it has neither.
pub open spec fn gsm7_piece(c: char) -> Option<Seq<u8>> {
    let p = first_pos(gsm7_basic(), c);
    if p >= 0 && p != GSM7_ESC as int {
        Some(seq![p as u8])
    } else {
        match ext_code(c) {
            Some(e) => Some(seq![GSM7_ESC, e]),
            None => None,
        }
    }
}

pub open spec fn spec_string_to_gsm7(text: Seq<char>) -> Option<Seq<u8>>
    decreases text.len(),
{
    if text.len() == 0 {
        Some(seq![])
    } else {
        match (spec_string_to_gsm7(text.drop_last()), gsm7_piece(text.last())) {
            (Some(a), Some(p)) => Some(a + p),
            _ => None,
        }
    }
}

fn ext_code_exec(c: char) -> (r: Option<u8>)
    ensures
        r == ext_code(c),
{
    if c == '{' {
        Some(0x28u8)
    } else if c == '}' {
        Some(0x29u8)
    } else if c == '[' {
        Some(0x3Cu8)
    } else if c == ']' {
        Some(0x3Eu8)
    } else if c == '^' {
        Some(0x14u8)
    } else if c == '\\' {
        Some(0x2Fu8)
    } else if c == '~' {
        Some(0x3Du8)
    } else if c == '|' {
        Some(0x40u8)
    } else if c == '€' {
        Some(0x65u8)
    } else {
        None
    }
}

fn basic_position(basic: &Vec<char>, c: char) -> (r: Option<usize>)
    ensures
        match r {
            Some(p) => first_pos(basic@, c) == p as int,
            None => first_pos(basic@, c) == -1,
        },
{
    proof {
        lemma_first_pos(basic@, c);
    }
    let mut i: usize = 0;
    while i < basic.len()
        invariant
            i <= basic@.len(),
            forall|j: int| 0 <= j < i ==> basic@[j] != c,
            -1 <= first_pos(basic@, c) < basic@.len(),
            first_pos(basic@, c) >= 0 ==> basic@[first_pos(basic@, c)] == c,
            first_pos(basic@, c) < 0 ==> !basic@.contains(c),
            forall|j: int| 0 <= j < first_pos(basic@, c) ==> basic@[j] != c,
        decreases basic.len() - i,
    {
        if basic[i] == c {
            return Some(i);
        }
        i += 1;
    }
    proof {
        if first_pos(basic@, c) >= 0 {
            assert(basic@[first_pos(basic@, c)] == c);
        }
    }
    None
}

/// The basic table has 128 characters, the ESC control character at the
/// escape code and `Æ` right after it (GSM 03.38).
pub proof fn lemma_gsm7_table()
    ensures
        gsm7_basic().len() == 128,
        gsm7_basic()[27] == '\u{1b}',
        gsm7_basic()[28] == 'Æ',
{
    reveal_strlit("@£$¥èéùìòÇ\nØø\rÅåΔ_ΦΓΛΩΠΨΣΘΞ\u{1b}ÆæßÉ !\"#¤%&'()*+,-./0123456789:;<=>?¡ABCDEFGHIJKLMNOPQRSTUVWXYZÄÖÑÜ§¿abcdefghijklmnopqrstuvwxyzäöñüà");
}

/// Text as septets, or `None` when a character is in neither table.
pub fn string_to_gsm7(text: &str) -> (r: Option<Vec<u8>>)
    ensures
        match r {
            Some(v) => spec_string_to_gsm7(text@) == Some(v@),
            None => spec_string_to_gsm7(text@) is None,
        },
{
    let basic = chars_of(GSM7_BASIC);
    proof {
        lemma_gsm7_table();
    }
    let t = chars_of(text);
    let mut out: Vec<u8> = Vec::new();
    let mut i: usize = 0;
    while i < t.len()
        invariant
            i <= t@.len(),
            t@ == text@,
            basic@ == gsm7_basic(),
            basic@.len() == 128,
            spec_string_to_gsm7(t@.take(i as int)) == Some(out@),
        decreases t.len() - i,
    {
        let c = t[i];
        proof {
            assert(t@.take(i + 1).drop_last() == t@.take(i as int));
            assert(t@.take(i + 1).last() == c);
        }
        let pos = match basic_position(&basic, c) {
            Some(p) => if p != 0x1B {
                Some(p)
            } else {
                None
            },
            None => None,
        };
        match pos {
            Some(p) => {
                out.push(p as u8);
            },
            None => match ext_code_exec(c) {
                Some(e) => {
                    out.push(GSM7_ESC);
                    out.push(e);
                    assert(out@ =~= spec_string_to_gsm7(t@.take(i as int))->0 + seq![GSM7_ESC, e]);
                },
                None => {
                    proof {
                        lemma_none_stays(t@, i as int);
                    }
                    return None;
                },
            },
        }
        i += 1;
    }
    assert(t@.take(t@.len() as int) == t@);
    Some(out)
}

/// Once a prefix cannot be encoded, no longer text can.
proof fn lemma_none_stays(t: Seq<char>, i: int)
    requires
        0 <= i < t.len(),
        gsm7_piece(t[i]) is None,
    ensures
        spec_string_to_gsm7(t) is None,
    decreases t.len(),
{
    if i == t.len() - 1 {
        assert(t.last() == t[i]);
    } else {
        let d = t.drop_last();
        assert(d[i] == t[i]);
        lemma_none_stays(d, i);
    }
}

/// Decoding the septets of a text gives the text back, for every text that
/// can be encoded.
pub proof fn lemma_gsm7_roundtrip(text: Seq<char>)
    requires
        spec_string_to_gsm7(text) is Some,
    ensures
        gsm7_dec(spec_string_to_gsm7(text)->0) == (text, false),
    decreases text.len(),
{
    lemma_gsm7_table();
    if text.len() > 0 {
        let d = text.drop_last();
        let c = text.last();
        lemma_gsm7_roundtrip(d);
        let a = spec_string_to_gsm7(d)->0;
        let p = first_pos(gsm7_basic(), c);
        lemma_first_pos(gsm7_basic(), c);
        assert(d.push(c) =~= text);
        if p >= 0 && p != 27 {
            let s = a + seq![p as u8];
            assert(spec_string_to_gsm7(text) == Some(s));
            assert(s.drop_last() == a);
            assert((p as u8) as int == p);
            assert(s.last() == p as u8);
            assert(basic_char(p as u8) == c);
            assert(gsm7_dec(s) == (d.push(c), false));
        } else {
            let e = ext_code(c)->0;
            let s = a + seq![GSM7_ESC, e];
            assert(spec_string_to_gsm7(text) == Some(s));
            assert(s.drop_last() == a.push(GSM7_ESC));
            assert(a.push(GSM7_ESC).drop_last() == a);
            assert(a.push(GSM7_ESC).last() == GSM7_ESC);
            assert(gsm7_dec(a.push(GSM7_ESC)) == (d, true));
            assert(s.last() == e);
            assert(ext_char(e) == c);
            assert(gsm7_dec(s) == (d.push(c), false));
        }
    }
}

// ---------------------------------------------------------------- 7-bit packing

/// Septets as one number, the first septet lowest (each taken modulo 128).
pub open spec fn septets_value(s: Seq<u8>) -> int
    decreases s.len(),
{
    if s.len() == 0 {
        0
    } else {
        (s[0] % 128) as int + 128 * septets_value(s.drop_first())
    }
}

/// Bytes as one number, the first byte lowest.
pub open spec fn bytes_value(b: Seq<u8>) -> int
    decreases b.len(),
{
    if b.len() == 0 {
        0
    } else {
        b[0] as int + 256 * bytes_value(b.drop_first())
    }
}

/// The bytes of the packed septets: `ceil(7n/8)` bytes of their number.
pub open spec fn spec_pack7(s: Seq<u8>) -> Seq<u8> {
    Seq::new(
        ((7 * s.len() + 7) / 8) as nat,
        |j: int| ((septets_value(s) / (pow2((8 * j) as nat) as int)) % 256) as u8,
    )
}

/// The first `n` septets of the bytes (fewer when the bytes hold fewer).
pub open spec fn spec_unpack7(data: Seq<u8>, n: nat) -> Seq<u8> {
    let m = if n < (8 * data.len()) / 7 { n } else { (8 * data.len()) / 7 };
    Seq::new(m, |k: int| ((bytes_value(data) / (pow2((7 * k) as nat) as int)) % 128) as u8)
}

proof fn lemma_value_nonneg(s: Seq<u8>, septets: bool)
    ensures
        septets ==> septets_value(s) >= 0,
        !septets ==> bytes_value(s) >= 0,
    decreases s.len(),
{
    if s.len() > 0 {
        lemma_value_nonneg(s.drop_first(), septets);
    }
}

/// `t == a + 2^b * r` with `b >= w`: the low `w` bits of `t` are those of
/// `a`, and `t >> w` is `a >> w` plus the rest moved down.
proof fn lemma_split_low(t: int, a: int, b: nat, r: int, w: nat)
    requires
        t == a + pow2(b) * r,
        b >= w,
        a >= 0,
        r >= 0,
    ensures
        t % (pow2(w) as int) == a % (pow2(w) as int),
        t / (pow2(w) as int) == a / (pow2(w) as int) + pow2((b - w) as nat) * r,
{
    lemma_pow2_adds(w, (b - w) as nat);
    lemma_pow2_pos(w);
    let m = pow2(w) as int;
    let q = pow2((b - w) as nat) * r;
    assert(pow2(b) * r == m * q) by (nonlinear_arith)
        requires
            pow2(b) == pow2(w) * pow2((b - w) as nat),
            m == pow2(w),
            q == pow2((b - w) as nat) * r,
    ;
    lemma_mod_multiples_vanish(q, a, m);
    lemma_hoist_over_denominator(a, q, m as nat);
    assert(q * m == m * q) by (nonlinear_arith);
}

/// Adding `x` at bit `b` of the accumulator.
proof fn lemma_acc_step(acc: int, x: int, b: nat, r: int, w: nat)
    ensures
        acc + pow2(b) * (x + pow2(w) * r) == (acc + x * pow2(b)) + pow2(b + w) * r,
{
    lemma_pow2_adds(b, w);
    assert(acc + pow2(b) * (x + pow2(w) * r) == (acc + x * pow2(b)) + (pow2(b) * pow2(w)) * r)
        by (nonlinear_arith);
}

/// `acc < 2^b` gives `acc / 2^w < 2^(b-w)`.
proof fn lemma_shift_bound(acc: int, b: nat, w: nat)
    requires
        0 <= acc < pow2(b),
        b >= w,
    ensures
        acc / (pow2(w) as int) < pow2((b - w) as nat),
        acc / (pow2(w) as int) >= 0,
{
    lemma_pow2_adds(w, (b - w) as nat);
    lemma_pow2_pos(w);
    let m = pow2(w) as int;
    lemma_fundamental_div_mod(acc, m);
    let q = acc / m;
    assert(q >= 0) by (nonlinear_arith)
        requires
            acc == m * q + acc % m,
            0 <= acc % m < m,
            acc >= 0,
            m > 0,
    ;
    assert(q < pow2((b - w) as nat)) by (nonlinear_arith)
        requires
            acc == m * q + acc % m,
            0 <= acc % m,
            acc < pow2(b),
            pow2(b) == m * pow2((b - w) as nat),
            m > 0,
    ;
}

/// Dividing by `2^a` then by `2^b` is dividing by `2^(a+b)`.
proof fn lemma_div_pow2_twice(x: int, a: nat, b: nat)
    requires
        x >= 0,
    ensures
        (x / (pow2(a) as int)) / (pow2(b) as int) == x / (pow2(a + b) as int),
{
    lemma_pow2_pos(a);
    lemma_pow2_pos(b);
    lemma_pow2_adds(a, b);
    lemma_div_denominator(x, pow2(a) as int, pow2(b) as int);
}

/// Septets packed seven bits each into bytes, the first septet in the low
/// bits (only the low seven bits of each value are used).
pub fn pack7(septets: &[u8]) -> (r: Vec<u8>)
    ensures
        r@ == spec_pack7(septets@),
{
    let ghost s = septets@;
    let ghost sv = septets_value(s);
    proof {
        lemma_value_nonneg(s, true);
        lemma2_to64();
    }
    let mut out: Vec<u8> = Vec::new();
    let mut acc: u16 = 0;
    let mut bits: u8 = 0;
    let mut k: usize = 0;
    assert(s.skip(0) == s);
    while k < septets.len()
        invariant
            s == septets@,
            sv == septets_value(s),
            sv >= 0,
            k <= s.len(),
            7 * k == 8 * out@.len() + bits,
            bits < 8,
            acc < pow2(bits as nat),
            sv / (pow2((8 * out@.len()) as nat) as int) == acc + pow2(bits as nat) * septets_value(s.skip(k as int)),
            forall|q: int| 0 <= q < out@.len() ==> out@[q] == ((sv / (pow2((8 * q) as nat) as int)) % 256) as u8,
        decreases septets.len() - k,
    {
        let ghost j = out@.len();
        let sk: u8 = septets[k];
        let x: u8 = sk & 0x7F;
        assert(x == sk % 128) by (bit_vector)
            requires
                x == sk & 0x7F,
        ;
        proof {
            assert(s.skip(k as int).drop_first() == s.skip(k + 1));
            assert(s.skip(k as int)[0] == s[k as int]);
            lemma_value_nonneg(s.skip(k + 1), true);
            assert(pow2(7) == 128) by {
                lemma2_to64();
            }
            if bits < 7 {
                vstd::arithmetic::power2::lemma_pow2_strictly_increases(bits as nat, 7);
            }
            assert(pow2(bits as nat) <= 128);
            assert(x * pow2(bits as nat) <= 127 * 128) by (nonlinear_arith)
                requires
                    x < 128,
                    pow2(bits as nat) <= 128,
            ;
            lemma_u16_shl_is_mul(x as u16, bits as u16);
            lemma_u16_shl_is_mul(1u16, bits as u16);
            lemma_pow2_adds(bits as nat, 7);
            assert(pow2(7) == 128) by {
                lemma2_to64();
            }
            lemma_acc_step(acc as int, x as int, bits as nat, septets_value(s.skip(k + 1)), 7);
        }
        let y: u16 = (x as u16) << (bits as u16);
        let old_acc = acc;
        let b16 = bits as u16;
        assert((old_acc | y) == old_acc + y) by (bit_vector)
            requires
                old_acc < (1u16 << b16),
                y == ((x as u16) << b16),
                x < 128,
                b16 < 8,
        ;
        proof {
            assert(old_acc + y < pow2((b16 + 7) as nat)) by (nonlinear_arith)
                requires
                    old_acc < pow2(b16 as nat),
                    y == x * pow2(b16 as nat),
                    x < 128,
                    pow2((b16 + 7) as nat) == pow2(b16 as nat) * 128,
            ;
        }
        acc = acc | y;
        bits = bits + 7;
        if bits >= 8 {
            proof {
                lemma_split_low(
                    sv / (pow2((8 * j) as nat) as int),
                    acc as int,
                    bits as nat,
                    septets_value(s.skip(k + 1)),
                    8,
                );
                assert(pow2(8) == 256) by {
                    lemma2_to64();
                }
                lemma_div_pow2_twice(sv, (8 * j) as nat, 8);
                assert((8 * j + 8) as nat == (8 * (j + 1)) as nat);
                lemma_shift_bound(acc as int, bits as nat, 8);
                lemma_u16_shr_is_div(acc, 8);
            }
            let a2 = acc;
            assert((a2 & 0xFF) as int == a2 % 256) by (bit_vector);
            out.push((acc & 0xFF) as u8);
            acc = acc >> 8;
            bits = bits - 8;
        }
        k += 1;
    }
    if bits > 0 {
        proof {
            assert(s.skip(k as int).len() == 0);
            lemma_u16_shl_is_mul(1u16, bits as u16);
            assert(pow2(8) == 256) by {
                lemma2_to64();
            }
            lemma_pow2_adds(bits as nat, (8 - bits) as nat);
            lemma_pow2_pos((8 - bits) as nat);
        }
        let a3 = acc;
        assert((a3 & 0xFF) as int == a3 % 256) by (bit_vector);
        out.push((acc & 0xFF) as u8);
    }
    proof {
        assert(out@.len() == (7 * s.len() + 7) / 8);
    }
    assert(out@ =~= spec_pack7(s));
    out
}

/// The first `septets` septets packed in `data` (fewer when the bytes
/// hold fewer).
pub fn unpack7(data: &[u8], septets: usize) -> (r: Vec<u8>)
    ensures
        r@ == spec_unpack7(data@, septets as nat),
{
    let ghost d = data@;
    let ghost bv = bytes_value(d);
    proof {
        lemma_value_nonneg(d, false);
        lemma2_to64();
    }
    let mut out: Vec<u8> = Vec::new();
    let mut acc: u16 = 0;
    let mut bits: u8 = 0;
    let mut i: usize = 0;
    assert(d.skip(0) == d);
    while i < data.len() && out.len() < septets
        invariant
            d == data@,
            bv == bytes_value(d),
            bv >= 0,
            i <= d.len(),
            out@.len() <= septets,
            8 * i == 7 * out@.len() + bits,
            bits < 7 || out@.len() >= septets,
            bits <= 14,
            acc < pow2(bits as nat),
            bv / (pow2((7 * out@.len()) as nat) as int) == acc + pow2(bits as nat) * bytes_value(d.skip(i as int)),
            forall|q: int| 0 <= q < out@.len() ==> out@[q] == ((bv / (pow2((7 * q) as nat) as int)) % 128) as u8,
        decreases data.len() - i,
    {
        let b: u8 = data[i];
        proof {
            assert(d.skip(i as int).drop_first() == d.skip(i + 1));
            assert(d.skip(i as int)[0] == d[i as int]);
            lemma_value_nonneg(d.skip(i + 1), false);
            assert(pow2(6) == 64 && pow2(8) == 256) by {
                lemma2_to64();
            }
            if bits < 6 {
                vstd::arithmetic::power2::lemma_pow2_strictly_increases(bits as nat, 6);
            }
            assert(pow2(bits as nat) <= 64);
            assert(b * pow2(bits as nat) <= 255 * 64) by (nonlinear_arith)
                requires
                    b < 256,
                    pow2(bits as nat) <= 64,
            ;
            lemma_u16_shl_is_mul(b as u16, bits as u16);
            lemma_u16_shl_is_mul(1u16, bits as u16);
            lemma_pow2_adds(bits as nat, 8);
            lemma_acc_step(acc as int, b as int, bits as nat, bytes_value(d.skip(i + 1)), 8);
        }
        let b16 = bits as u16;
        let y: u16 = (b as u16) << b16;
        let old_acc = acc;
        assert((old_acc | y) == old_acc + y) by (bit_vector)
            requires
                old_acc < (1u16 << b16),
                y == ((b as u16) << b16),
                b16 < 7,
        ;
        proof {
            assert(old_acc + y < pow2((b16 + 8) as nat)) by (nonlinear_arith)
                requires
                    old_acc < pow2(b16 as nat),
                    y == b * pow2(b16 as nat),
                    b < 256,
                    pow2((b16 + 8) as nat) == pow2(b16 as nat) * 256,
            ;
        }
        acc = acc | y;
        bits = bits + 8;
        while bits >= 7 && out.len() < septets
            invariant
                d == data@,
                bv == bytes_value(d),
                bv >= 0,
                i < d.len(),
                out@.len() <= septets,
                8 * (i + 1) == 7 * out@.len() + bits,
                bits <= 14,
                acc < pow2(bits as nat),
                bytes_value(d.skip(i + 1)) >= 0,
                bv / (pow2((7 * out@.len()) as nat) as int) == acc + pow2(bits as nat) * bytes_value(
                    d.skip(i + 1),
                ),
                forall|q: int| 0 <= q < out@.len() ==> out@[q] == ((bv / (pow2((7 * q) as nat) as int)) % 128) as u8,
            decreases bits,
        {
            let ghost m = out@.len();
            proof {
                assert(pow2(7) == 128) by {
                    lemma2_to64();
                }
                lemma_split_low(
                    bv / (pow2((7 * m) as nat) as int),
                    acc as int,
                    bits as nat,
                    bytes_value(d.skip(i + 1)),
                    7,
                );
                lemma_div_pow2_twice(bv, (7 * m) as nat, 7);
                assert((7 * m + 7) as nat == (7 * (m + 1)) as nat);
                lemma_shift_bound(acc as int, bits as nat, 7);
                lemma_u16_shr_is_div(acc, 7);
            }
            let a2 = acc;
            assert((a2 & 0x7F) as int == a2 % 128) by (bit_vector);
            out.push((acc & 0x7F) as u8);
            acc = acc >> 7;
            bits = bits - 7;
        }
        i += 1;
    }
    proof {
        let m = out@.len();
        if m < septets {
            assert(i == d.len());
            assert(m == (8 * d.len()) / 7);
        } else {
            assert(7 * m <= 8 * d.len());
            assert(m <= (8 * d.len()) / 7);
        }
    }
    assert(out@ =~= spec_unpack7(d, septets as nat));
    out
}

proof fn lemma_septets_bound(s: Seq<u8>)
    ensures
        0 <= septets_value(s) < pow2((7 * s.len()) as nat),
    decreases s.len(),
{
    if s.len() == 0 {
        assert(pow2(0) == 1) by {
            lemma2_to64();
        }
    } else {
        let r = s.drop_first();
        lemma_septets_bound(r);
        assert(pow2(7) == 128) by {
            lemma2_to64();
        }
        lemma_pow2_adds(7, (7 * r.len()) as nat);
        assert((7 + 7 * r.len()) as nat == (7 * s.len()) as nat);
        let a = (s[0] % 128) as int;
        assert(septets_value(s) < pow2((7 * s.len()) as nat)) by (nonlinear_arith)
            requires
                septets_value(s) == a + 128 * septets_value(r),
                0 <= a < 128,
                septets_value(r) < pow2((7 * r.len()) as nat),
                pow2((7 * s.len()) as nat) == 128 * pow2((7 * r.len()) as nat),
        ;
    }
}

/// The bytes of a number, low byte first, read back as a number.
proof fn lemma_bytes_of_number(n: int, len: nat)
    requires
        0 <= n < pow2((8 * len) as nat),
    ensures
        bytes_value(Seq::new(len, |j: int| ((n / (pow2((8 * j) as nat) as int)) % 256) as u8)) == n,
    decreases len,
{
    let o = Seq::new(len, |j: int| ((n / (pow2((8 * j) as nat) as int)) % 256) as u8);
    assert(pow2(0) == 1 && pow2(8) == 256) by {
        lemma2_to64();
    }
    if len == 0 {
        assert(n == 0);
    } else {
        let n2 = n / 256;
        lemma_shift_bound(n, (8 * len) as nat, 8);
        assert(((8 * len) - 8) as nat == (8 * (len - 1)) as nat);
        lemma_bytes_of_number(n2, (len - 1) as nat);
        let o2 = Seq::new((len - 1) as nat, |j: int| ((n2 / (pow2((8 * j) as nat) as int)) % 256) as u8);
        assert forall|j: int| 0 <= j < len - 1 implies #[trigger] o.drop_first()[j] == o2[j] by {
            lemma_div_pow2_twice(n, 8, (8 * j) as nat);
            assert((8 + 8 * j) as nat == (8 * (j + 1)) as nat);
        }
        assert(o.drop_first() =~= o2);
        assert((8 * 0int) as nat == 0nat);
        assert(pow2(0nat) == 1);
        assert(n / 1int == n);
        assert(n / (pow2((8 * 0int) as nat) as int) == n);
        assert(o[0] == (n % 256) as u8);
        lemma_fundamental_div_mod(n, 256);
    }
}

/// The `k`-th septet of the number of septets is the `k`-th septet.
proof fn lemma_septet_digit(s: Seq<u8>, k: int)
    requires
        0 <= k < s.len(),
    ensures
        (septets_value(s) / (pow2((7 * k) as nat) as int)) % 128 == (s[k] % 128) as int,
    decreases k,
{
    assert(pow2(0) == 1 && pow2(7) == 128) by {
        lemma2_to64();
    }
    let r = s.drop_first();
    lemma_value_nonneg(r, true);
    let a = (s[0] % 128) as int;
    lemma_mod_multiples_vanish(septets_value(r), a, 128);
    lemma_hoist_over_denominator(a, septets_value(r), 128);
    assert(a / 128 == 0);
    assert(septets_value(r) * 128 == 128 * septets_value(r)) by (nonlinear_arith);
    assert(septets_value(s) == a + 128 * septets_value(r));
    assert(septets_value(s) / 128 == septets_value(r));
    if k > 0 {
        lemma_septet_digit(r, k - 1);
        lemma_value_nonneg(s, true);
        lemma_div_pow2_twice(septets_value(s), 7, (7 * (k - 1)) as nat);
        assert((7 + 7 * (k - 1)) as nat == (7 * k) as nat);
        assert(r[k - 1] == s[k]);
    } else {
        assert((7 * 0int) as nat == 0nat);
        assert(pow2(0nat) == 1);
        assert(septets_value(s) / 1int == septets_value(s));
        assert(septets_value(s) / (pow2((7 * 0int) as nat) as int) == septets_value(s));
        assert(septets_value(s) % 128 == a);
    }
}

/// Unpacking what was packed gives the septets back (their low seven bits,
/// the only ones packed).
pub proof fn lemma_pack7_roundtrip(s: Seq<u8>)
    ensures
        spec_unpack7(spec_pack7(s), s.len()) == s.map_values(|x: u8| x % 128),
{
    let n = s.len();
    let len = ((7 * n + 7) / 8) as nat;
    let sv = septets_value(s);
    lemma_septets_bound(s);
    if 7 * n < 8 * len {
        vstd::arithmetic::power2::lemma_pow2_strictly_increases((7 * n) as nat, (8 * len) as nat);
    }
    lemma_bytes_of_number(sv, len);
    let out = spec_pack7(s);
    assert(out =~= Seq::new(len, |j: int| ((sv / (pow2((8 * j) as nat) as int)) % 256) as u8));
    assert(n <= (8 * out.len()) / 7);
    let u = spec_unpack7(out, n);
    assert forall|k: int| 0 <= k < n implies u[k] == s.map_values(|x: u8| x % 128)[k] by {
        lemma_septet_digit(s, k);
    }
    assert(u =~= s.map_values(|x: u8| x % 128));
}

// ---------------------------------------------------------------- UCS2

/// UTF-16 units of one character.
pub open spec fn utf16_char(c: char) -> Seq<u16> {
    let v = c as u32 as int;
    if v < 0x10000 {
        seq![v as u16]
    } else {
        seq![(0xD800 + (v - 0x10000) / 0x400) as u16, (0xDC00 + (v - 0x10000) % 0x400) as u16]
    }
}

/// UTF-16 encoding of a text (`str::encode_utf16`).
pub open spec fn utf16_enc(s: Seq<char>) -> Seq<u16>
    decreases s.len(),
{
    if s.len() == 0 {
        seq![]
    } else {
        utf16_enc(s.drop_last()) + utf16_char(s.last())
    }
}

/// What `String::from_utf16_lossy` makes of UTF-16 units.
pub uninterp spec fn utf16_lossy_of(u: Seq<u16>) -> Seq<char>;

/// `String::from_utf16_lossy` (std). The contract names the result, and
/// states what std documents for well-formed input: units that encode a
/// text decode to that text (invalid units becoming U+FFFD is not restated).
#[verifier::external_body]
fn from_utf16_lossy(u: &[u16]) -> (r: String)
    ensures
        r@ == utf16_lossy_of(u@),
        forall|t: Seq<char>| #[trigger] utf16_enc(t) == u@ ==> r@ == t,
{
    String::from_utf16_lossy(u)
}

/// Big-endian pairs of bytes as UTF-16 units; an odd last byte gets a zero
/// low byte.
pub open spec fn ucs2_units(b: Seq<u8>) -> Seq<u16> {
    Seq::new(
        ((b.len() + 1) / 2) as nat,
        |k: int| (b[2 * k] as int * 256 + (if 2 * k + 1 < b.len() { b[2 * k + 1] as int } else { 0 })) as u16,
    )
}

pub open spec fn spec_ucs2_to_string(b: Seq<u8>) -> Seq<char> {
    utf16_lossy_of(ucs2_units(b))
}

/// UCS2 bytes as text.
pub fn ucs2_to_string(b: &[u8]) -> (r: String)
    ensures
        r@ == spec_ucs2_to_string(b@),
        forall|t: Seq<char>| #[trigger] utf16_enc(t) == ucs2_units(b@) ==> r@ == t,
{
    let mut units: Vec<u16> = Vec::new();
    let mut q: usize = 0;
    while q < b.len() - q
        invariant
            q <= b@.len() - q + 1,
            units@.len() == q,
            forall|j: int| 0 <= j < units@.len() ==> units@[j] == ucs2_units(b@)[j],
        decreases b.len() - q,
    {
        let k = 2 * q;
        let hi = b[k] as u16;
        let lo: u16 = if k + 1 < b.len() {
            b[k + 1] as u16
        } else {
            0
        };
        let u: u16 = hi * 256 + lo;
        units.push(u);
        q += 1;
    }
    assert(units@ =~= ucs2_units(b@));
    from_utf16_lossy(units.as_slice())
}

/// The units as big-endian byte pairs.
pub open spec fn units_bytes(u: Seq<u16>) -> Seq<u8> {
    Seq::new(2 * u.len(), |j: int| if j % 2 == 0 { (u[j / 2] / 256) as u8 } else { (u[j / 2] % 256) as u8 })
}

pub open spec fn spec_utf8_to_ucs2(s: Seq<char>) -> Seq<u8> {
    units_bytes(utf16_enc(s))
}

/// Text as UCS2 (UTF-16, big-endian) bytes.
pub fn utf8_to_ucs2(s: &str) -> (r: Vec<u8>)
    ensures
        r@ == spec_utf8_to_ucs2(s@),
{
    let v = chars_of(s);
    let mut out: Vec<u8> = Vec::new();
    let mut i: usize = 0;
    while i < v.len()
        invariant
            i <= v@.len(),
            v@ == s@,
            out@ == units_bytes(utf16_enc(v@.take(i as int))),
        decreases v.len() - i,
    {
        let c = v[i];
        let x = c as u32;
        let ghost before = utf16_enc(v@.take(i as int));
        proof {
            assert(v@.take(i + 1).drop_last() == v@.take(i as int));
            assert(v@.take(i + 1).last() == c);
        }
        if x < 0x10000 {
            let u = x as u16;
            out.push((u / 256) as u8);
            out.push((u % 256) as u8);
            proof {
                let e = before + seq![u];
                assert(e == utf16_enc(v@.take(i + 1)));
                assert(out@ =~= units_bytes(e));
            }
        } else {
            let w = x - 0x10000;
            let u1 = (0xD800 + w / 0x400) as u16;
            let u2 = (0xDC00 + w % 0x400) as u16;
            out.push((u1 / 256) as u8);
            out.push((u1 % 256) as u8);
            out.push((u2 / 256) as u8);
            out.push((u2 % 256) as u8);
            proof {
                let e = before + seq![u1, u2];
                assert(e == utf16_enc(v@.take(i + 1)));
                assert(out@ =~= units_bytes(e));
            }
        }
        i += 1;
    }
    assert(v@.take(v@.len() as int) == v@);
    out
}

/// Reading the UCS2 bytes of a text back as units gives its UTF-16
/// encoding, so [`ucs2_to_string`] returns the text itself.
pub proof fn lemma_ucs2_roundtrip(s: Seq<char>)
    ensures
        ucs2_units(spec_utf8_to_ucs2(s)) == utf16_enc(s),
{
    let u = utf16_enc(s);
    let b = units_bytes(u);
    assert forall|k: int| 0 <= k < u.len() implies #[trigger] ucs2_units(b)[k] == u[k] by {
        assert(b[2 * k] == (u[k] / 256) as u8);
        assert(b[2 * k + 1] == (u[k] % 256) as u8);
    }
    assert(ucs2_units(b) =~= u);
}

// ---------------------------------------------------------------- SMS-DELIVER

/// A message as the contracts see it.
pub struct SmsView {
    pub index: i64,
    pub status: i64,
    pub sender: Seq<char>,
    pub timestamp: Seq<char>,
    pub text: Seq<char>,
    pub encoding: Seq<char>,
    pub raw_pdu: Seq<char>,
}

pub open spec fn sms_view(s: Sms) -> SmsView {
    SmsView {
        index: s.index,
        status: s.status,
        sender: s.sender@,
        timestamp: s.timestamp@,
        text: s.text@,
        encoding: s.encoding@,
        raw_pdu: s.raw_pdu@,
    }
}

/// Where the TPDU starts (after the service-centre field).
pub open spec fn tpdu_start(b: Seq<u8>) -> int {
    1 + b[0] as int
}

/// Where the sender address ends.
pub open spec fn addr_end(b: Seq<u8>) -> int {
    tpdu_start(b) + 3 + (b[tpdu_start(b) + 1] as int + 1) / 2
}

/// Index of the user data length byte.
pub open spec fn udl_pos(b: Seq<u8>) -> int {
    addr_end(b) + 9
}

pub open spec fn has_udh(b: Seq<u8>) -> bool {
    (b[tpdu_start(b)] & 0x40u8) != 0 && udl_pos(b) + 1 < b.len()
}

/// Bytes of the user data header (with its length byte), none without UDHI.
pub open spec fn udh_octets(b: Seq<u8>) -> int {
    if has_udh(b) {
        1 + b[udl_pos(b) + 1] as int
    } else {
        0
    }
}

pub open spec fn ud_start(b: Seq<u8>) -> int {
    udl_pos(b) + 1 + udh_octets(b)
}

pub open spec fn byte_or_zero(b: Seq<u8>, i: int) -> u8 {
    if 0 <= i < b.len() {
        b[i]
    } else {
        0
    }
}

/// The PDU bytes on which decoding runs to its end: empty, too short for a
/// TPDU, or every field inside the bytes (the daemon would index out of
/// bounds otherwise), and short enough for the septet count to be computed.
pub open spec fn deliver_in_bounds(b: Seq<u8>) -> bool {
    &&& b.len() * 8 <= usize::MAX
    &&& (b.len() == 0 || tpdu_start(b) + 2 > b.len() || (tpdu_start(b) + 3 <= b.len() && ud_start(b)
        <= b.len()))
}

pub open spec fn pdu_decodable(pdu: Seq<char>) -> bool {
    match spec_hex_decode(pdu) {
        Ok(b) => deliver_in_bounds(b),
        Err(_) => true,
    }
}

pub open spec fn min_int(a: int, b: int) -> int {
    if a < b {
        a
    } else {
        b
    }
}

/// The text and its encoding, by the coding scheme: UCS2 (user data length
/// in bytes), 8-bit, or 7-bit (user data length in septets, the header's
/// septets skipped).
pub open spec fn deliver_text(b: Seq<u8>) -> (Seq<char>, Seq<char>) {
    let ud = b.skip(ud_start(b));
    let udl = byte_or_zero(b, udl_pos(b)) as int;
    let dcs = byte_or_zero(b, addr_end(b) + 1);
    if dcs & 0x0Cu8 == 0x08u8 {
        (spec_ucs2_to_string(ud.take(min_int(ud.len() as int, udl))), "UCS2"@)
    } else if dcs & 0x0Cu8 == 0x04u8 {
        (lossy_of(ud), "8BIT"@)
    } else {
        let skip = (udh_octets(b) * 8 + 6) / 7;
        let n = min_int(udl, (ud.len() * 8 / 7 + 1) as int);
        let all = spec_unpack7(ud, n as nat);
        let body = if skip < all.len() {
            all.skip(skip)
        } else {
            seq![]
        };
        (spec_gsm7_to_string(body), "GSM7"@)
    }
}

pub open spec fn spec_decode_pdu(index: i64, status: i64, pdu: Seq<char>) -> Result<SmsView, Seq<char>> {
    match spec_hex_decode(pdu) {
        Err(e) => Err(e),
        Ok(b) => if b.len() == 0 {
            Err("PDU 为空"@)
        } else if tpdu_start(b) + 2 > b.len() {
            Err("PDU 过短"@)
        } else {
            let i0 = tpdu_start(b);
            let ae = addr_end(b);
            let sender = (if b[i0 + 2] == 0x91 {
                "+"@
            } else {
                ""@
            }) + spec_swap_digits(b.subrange(i0 + 3, min_int(ae, b.len() as int)), b[i0 + 1] as nat);
            let ts = spec_decode_timestamp(
                if ae + 9 <= b.len() {
                    b.subrange(ae + 2, ae + 9)
                } else {
                    seq![]
                },
            );
            let (text, enc) = deliver_text(b);
            Ok(
                SmsView {
                    index,
                    status,
                    sender,
                    timestamp: ts,
                    text,
                    encoding: enc,
                    raw_pdu: pdu,
                },
            )
        },
    }
}

/// Copy of `b[lo..hi]`.
fn bytes_range(b: &Vec<u8>, lo: usize, hi: usize) -> (r: Vec<u8>)
    requires
        lo <= hi <= b@.len(),
    ensures
        r@ == b@.subrange(lo as int, hi as int),
{
    let mut r: Vec<u8> = Vec::new();
    let mut i = lo;
    while i < hi
        invariant
            lo <= i <= hi <= b@.len(),
            r@ == b@.subrange(lo as int, i as int),
        decreases hi - i,
    {
        r.push(b[i]);
        i += 1;
        assert(r@ =~= b@.subrange(lo as int, i as int));
    }
    r
}

/// Septets of the 7-bit user data: the length byte, capped by what the
/// bytes can hold.
pub fn pack_count(ud: &[u8], udl: usize) -> (n: usize)
    requires
        ud@.len() * 8 <= usize::MAX,
    ensures
        n as int == min_int(udl as int, (ud@.len() * 8 / 7 + 1) as int),
{
    let cap = ud.len() * 8 / 7 + 1;
    if udl < cap {
        udl
    } else {
        cap
    }
}

/// The text of the user data and its encoding name.
fn deliver_text_exec(b: &Vec<u8>, start: usize, udl: usize, dcs: u8, udh: usize) -> (r: (String, String))
    requires
        start <= b@.len(),
        b@.len() * 8 <= usize::MAX,
        udh <= 256,
    ensures
        (r.0@, r.1@) == ({
            let ud = b@.skip(start as int);
            if dcs & 0x0Cu8 == 0x08u8 {
                (spec_ucs2_to_string(ud.take(min_int(ud.len() as int, udl as int))), "UCS2"@)
            } else if dcs & 0x0Cu8 == 0x04u8 {
                (lossy_of(ud), "8BIT"@)
            } else {
                let skip = (udh * 8 + 6) / 7;
                let n = min_int(udl as int, (ud.len() * 8 / 7 + 1) as int);
                let all = spec_unpack7(ud, n as nat);
                let body = if skip < all.len() {
                    all.skip(skip as int)
                } else {
                    seq![]
                };
                (spec_gsm7_to_string(body), "GSM7"@)
            }
        }),
{
    let ud = bytes_range(b, start, b.len());
    assert(ud@ == b@.skip(start as int));
    if dcs & 0x0C == 0x08 {
        let n = if ud.len() < udl {
            ud.len()
        } else {
            udl
        };
        let part = bytes_range(&ud, 0, n);
        assert(part@ == ud@.take(n as int));
        (ucs2_to_string(part.as_slice()), String::from_str("UCS2"))
    } else if dcs & 0x0C == 0x04 {
        (lossy(ud.as_slice()), String::from_str("8BIT"))
    } else {
        let skip = (udh * 8 + 6) / 7;
        let n = pack_count(ud.as_slice(), udl);
        let all = unpack7(ud.as_slice(), n);
        let body = if skip < all.len() {
            bytes_range(&all, skip, all.len())
        } else {
            Vec::new()
        };
        proof {
            if skip < all@.len() {
                assert(body@ == all@.skip(skip as int));
            } else {
                assert(body@ == Seq::<u8>::empty());
            }
        }
        (gsm7_to_string(body.as_slice()), String::from_str("GSM7"))
    }
}

/// Decodes one SMS-DELIVER PDU (hex): sender, service-centre timestamp and
/// text. Errors: the hex errors, an empty PDU, one too short for a TPDU.
pub fn decode_pdu(index: i64, status: i64, pdu: &str) -> (r: Result<Sms, String>)
    requires
        pdu_decodable(pdu@),
    ensures
        match r {
            Ok(s) => spec_decode_pdu(index, status, pdu@) == Ok::<SmsView, Seq<char>>(sms_view(s)),
            Err(e) => spec_decode_pdu(index, status, pdu@) == Err::<SmsView, Seq<char>>(e@),
        },
{
    let b = match hex_decode(pdu) {
        Ok(b) => b,
        Err(e) => return Err(e),
    };
    if b.len() == 0 {
        return Err(String::from_str("PDU 为空"));
    }
    let i0 = 1 + b[0] as usize;
    if i0 + 2 > b.len() {
        return Err(String::from_str("PDU 过短"));
    }
    let ghost bs = b@;
    let pdu_type = b[i0];
    let addr_digits = b[i0 + 1] as usize;
    let addr_type = b[i0 + 2];
    let ao = (addr_digits + 1) / 2;
    let start = i0 + 3;
    let ae = start + ao;
    let end = if ae < b.len() {
        ae
    } else {
        b.len()
    };
    let mut sender = String::new();
    push_str(&mut sender, ton_prefix(addr_type));
    let addr = bytes_range(&b, start, end);
    let digits = swap_digits(addr.as_slice(), addr_digits);
    push_str(&mut sender, digits.as_str());
    let ts_bytes = if ae + 9 <= b.len() {
        bytes_range(&b, ae + 2, ae + 9)
    } else {
        Vec::new()
    };
    let timestamp = decode_timestamp(ts_bytes.as_slice());
    let dcs: u8 = if ae + 1 < b.len() {
        b[ae + 1]
    } else {
        0
    };
    let udl: usize = if ae + 9 < b.len() {
        b[ae + 9] as usize
    } else {
        0
    };
    let mut i = ae + 10;
    let mut udh: usize = 0;
    if pdu_type & 0x40 != 0 && i < b.len() {
        udh = 1 + b[i] as usize;
        i = i + udh;
    }
    proof {
        assert(i as int == ud_start(bs));
        assert(udh as int == udh_octets(bs));
        assert(Seq::<char>::empty() + (if addr_type == 0x91 {
            "+"@
        } else {
            ""@
        }) == (if addr_type == 0x91 {
            "+"@
        } else {
            ""@
        }));
        if ae + 9 > b@.len() {
            assert(ts_bytes@ == Seq::<u8>::empty());
        }
    }
    let (text, encoding) = deliver_text_exec(&b, i, udl, dcs, udh);
    let raw = pdu.to_owned();
    Ok(Sms { index, status, sender, timestamp, text, encoding, raw_pdu: raw })
}

/// Whether [`decode_pdu`] can run on this PDU (see [`pdu_decodable`]).
pub fn pdu_is_decodable(pdu: &str) -> (b: bool)
    ensures
        b == pdu_decodable(pdu@),
{
    let b = match hex_decode(pdu) {
        Ok(b) => b,
        Err(_) => return true,
    };
    let n = b.len();
    if n > usize::MAX / 8 {
        return false;
    }
    if n == 0 {
        return true;
    }
    let i0 = 1 + b[0] as usize;
    if i0 + 2 > n {
        return true;
    }
    if i0 + 3 > n {
        return false;
    }
    let ae = i0 + 3 + (b[i0 + 1] as usize + 1) / 2;
    if ae + 10 > n {
        return false;
    }
    let mut i = ae + 10;
    if b[i0] & 0x40 != 0 && i < n {
        i = i + 1 + b[i] as usize;
    }
    i <= n
}

// ---------------------------------------------------------------- message list

/// State of reading an `AT+CMGL` answer: the index and status of the last
/// header not yet followed by its PDU, the messages so far, and whether a
/// PDU line would make decoding run out of its bytes.
pub struct ListState {
    pub cur: Option<i64>,
    pub status: i64,
    pub out: Seq<SmsView>,
    pub stuck: bool,
}

pub open spec fn parsed_i64(s: Seq<char>) -> Option<i64> {
    match parse_int(s, i64::MIN as int, i64::MAX as int) {
        Some(x) => Some(x as i64),
        None => None,
    }
}

pub open spec fn list_step(st: ListState, line: Seq<char>) -> ListState {
    let l = trim(line);
    if l.len() == 0 {
        st
    } else if starts_with(l, "+CMGL:"@) {
        let v = split_char(l.skip("+CMGL:"@.len() as int), ',');
        let cur = match parsed_i64(trim(v[0])) {
            Some(ix) => Some(ix),
            None => st.cur,
        };
        let status = if v.len() > 1 {
            match parsed_i64(trim(v[1])) {
                Some(x) => x,
                None => 0,
            }
        } else {
            0
        };
        ListState { cur, status, ..st }
    } else if l == "OK"@ || starts_with(l, "ERROR"@) {
        st
    } else {
        match st.cur {
            Some(ix) => ListState {
                cur: None,
                out: match spec_decode_pdu(ix, st.status, l) {
                    Ok(m) => st.out.push(m),
                    Err(_) => st.out,
                },
                stuck: st.stuck || !pdu_decodable(l),
                ..st
            },
            None => st,
        }
    }
}

pub open spec fn list_fold(ls: Seq<Seq<char>>) -> ListState
    decreases ls.len(),
{
    if ls.len() == 0 {
        ListState { cur: None, status: 0, out: seq![], stuck: false }
    } else {
        list_step(list_fold(ls.drop_last()), ls.last())
    }
}

/// Reads the header fields after `+CMGL:` in `v[a..b]`.
fn cmgl_header(v: &Vec<char>, a: usize, b: usize, cur: Option<i64>) -> (r: (Option<i64>, i64))
    requires
        a <= b <= v@.len(),
    ensures
        ({
            let vs = split_char(v@.subrange(a as int, b as int), ',');
            r.0 == match parsed_i64(trim(vs[0])) {
                Some(ix) => Some(ix),
                None => cur,
            } && r.1 == (if vs.len() > 1 {
                match parsed_i64(trim(vs[1])) {
                    Some(x) => x,
                    None => 0,
                }
            } else {
                0
            })
        }),
{
    let parts = split_range(v, a, b, ',');
    assert(parts@.len() > 0) by {
        crate::text::lemma_split_char_nonempty(v@.subrange(a as int, b as int), ',');
    }
    let (p0, q0) = parts[0];
    let (s0, e0) = trim_range(v, p0, q0);
    let cur2 = match parse_i64_range(v, s0, e0) {
        Some(ix) => Some(ix),
        None => cur,
    };
    let st = if parts.len() > 1 {
        let (p1, q1) = parts[1];
        let (s1, e1) = trim_range(v, p1, q1);
        match parse_i64_range(v, s1, e1) {
            Some(x) => x,
            None => 0,
        }
    } else {
        0
    };
    (cur2, st)
}

/// Reads the messages of an `AT+CMGL=4` answer: each `+CMGL:` header gives
/// the index and status of the PDU line after it; PDUs that do not decode
/// are skipped.
pub fn parse_list(resp: &str) -> (r: Vec<Sms>)
    requires
        !list_fold(lines(resp@)).stuck,
    ensures
        r@.map_values(|m: Sms| sms_view(m)) == list_fold(lines(resp@)).out,
{
    let v = chars_of(resp);
    assert(v@.subrange(0, v@.len() as int) == v@);
    let ls = lines_range(&v, 0, v.len());
    let ghost all = lines(v@);
    let mut out: Vec<Sms> = Vec::new();
    let mut cur: Option<i64> = None;
    let mut status: i64 = 0;
    let mut k: usize = 0;
    proof {
        assert(all.take(0) =~= Seq::<Seq<char>>::empty());
    }
    while k < ls.len()
        invariant
            v@ == resp@,
            all == lines(v@),
            ls@.len() == all.len(),
            forall|j: int|
                0 <= j < ls@.len() ==> 0 <= (#[trigger] ls@[j]).0 <= ls@[j].1 <= v@.len()
                    && v@.subrange(ls@[j].0 as int, ls@[j].1 as int) == all[j],
            k <= ls@.len(),
            !list_fold(all).stuck,
            list_fold(all.take(k as int)).cur == cur,
            list_fold(all.take(k as int)).status == status,
            list_fold(all.take(k as int)).out == out@.map_values(|m: Sms| sms_view(m)),
            !list_fold(all.take(k as int)).stuck,
        decreases ls.len() - k,
    {
        let (a, b) = ls[k];
        let ghost st0 = list_fold(all.take(k as int));
        proof {
            assert(all.take(k + 1).drop_last() == all.take(k as int));
            assert(all.take(k + 1).last() == all[k as int]);
            lemma_stuck_stays(all, k as int + 1);
        }
        let (a1, b1) = trim_range(&v, a, b);
        let ghost l = v@.subrange(a1 as int, b1 as int);
        if a1 < b1 {
            if range_starts_with_str(&v, a1, b1, "+CMGL:") {
                let p = chars_of("+CMGL:");
                proof {
                    assert(v@.subrange(a1 as int, b1 as int).skip(p@.len() as int) =~= v@.subrange(
                        a1 + p@.len(),
                        b1 as int,
                    ));
                }
                let (c2, s2) = cmgl_header(&v, a1 + p.len(), b1, cur);
                cur = c2;
                status = s2;
            } else if range_eq_str(&v, a1, b1, "OK") || range_starts_with_str(&v, a1, b1, "ERROR") {
            } else {
                match cur {
                    Some(ix) => {
                        let line = crate::text::string_of_range(&v, a1, b1);
                        match decode_pdu(ix, status, line.as_str()) {
                            Ok(m) => {
                                let ghost before = out@;
                                out.push(m);
                                assert(out@.map_values(|m: Sms| sms_view(m)) =~= before.map_values(
                                    |m: Sms| sms_view(m),
                                ).push(sms_view(m)));
                            },
                            Err(_) => {},
                        }
                        cur = None;
                    },
                    None => {},
                }
            }
        }
        k += 1;
    }
    assert(all.take(all.len() as int) == all);
    out
}

/// Whether reading the `AT+CMGL=4` answer stays within every PDU's bytes
/// (the condition of [`parse_list`]).
pub fn list_is_decodable(resp: &str) -> (b: bool)
    ensures
        b == !list_fold(lines(resp@)).stuck,
{
    let v = chars_of(resp);
    assert(v@.subrange(0, v@.len() as int) == v@);
    let ls = lines_range(&v, 0, v.len());
    let ghost all = lines(v@);
    let mut cur: Option<i64> = None;
    let mut status: i64 = 0;
    let mut stuck = false;
    let mut k: usize = 0;
    proof {
        assert(all.take(0) =~= Seq::<Seq<char>>::empty());
    }
    while k < ls.len()
        invariant
            v@ == resp@,
            all == lines(v@),
            ls@.len() == all.len(),
            forall|j: int|
                0 <= j < ls@.len() ==> 0 <= (#[trigger] ls@[j]).0 <= ls@[j].1 <= v@.len()
                    && v@.subrange(ls@[j].0 as int, ls@[j].1 as int) == all[j],
            k <= ls@.len(),
            list_fold(all.take(k as int)).cur == cur,
            list_fold(all.take(k as int)).status == status,
            list_fold(all.take(k as int)).stuck == stuck,
        decreases ls.len() - k,
    {
        let (a, b) = ls[k];
        proof {
            assert(all.take(k + 1).drop_last() == all.take(k as int));
            assert(all.take(k + 1).last() == all[k as int]);
        }
        let (a1, b1) = trim_range(&v, a, b);
        if a1 < b1 {
            if range_starts_with_str(&v, a1, b1, "+CMGL:") {
                let p = chars_of("+CMGL:");
                proof {
                    assert(v@.subrange(a1 as int, b1 as int).skip(p@.len() as int) =~= v@.subrange(
                        a1 + p@.len(),
                        b1 as int,
                    ));
                }
                let (c2, s2) = cmgl_header(&v, a1 + p.len(), b1, cur);
                cur = c2;
                status = s2;
            } else if range_eq_str(&v, a1, b1, "OK") || range_starts_with_str(&v, a1, b1, "ERROR") {
            } else {
                match cur {
                    Some(_) => {
                        let line = crate::text::string_of_range(&v, a1, b1);
                        stuck = stuck || !pdu_is_decodable(line.as_str());
                        cur = None;
                    },
                    None => {},
                }
            }
        }
        k += 1;
    }
    assert(all.take(all.len() as int) == all);
    !stuck
}

/// A stuck prefix stays stuck.
proof fn lemma_stuck_stays(ls: Seq<Seq<char>>, k: int)
    requires
        0 <= k <= ls.len(),
        !list_fold(ls).stuck,
    ensures
        !list_fold(ls.take(k)).stuck,
    decreases ls.len() - k,
{
    if k < ls.len() {
        lemma_stuck_stays(ls, k + 1);
        assert(ls.take(k + 1).drop_last() == ls.take(k));
    } else {
        assert(ls.take(k) == ls);
    }
}

// ---------------------------------------------------------------- SMS-SUBMIT

/// Address type and digits of a recipient: `+` and numbers starting with
/// `86` are international (0x91), others national (0x81).
pub open spec fn submit_number(number: Seq<char>) -> (u8, Seq<char>) {
    if number.len() > 0 && number[0] == '+' {
        (0x91u8, number.drop_first())
    } else if starts_with(number, "86"@) {
        (0x91u8, number)
    } else {
        (0x81u8, number)
    }
}

/// The digits as swapped semi-octets, `F` filling an odd count.
pub open spec fn addr_bytes(d: Seq<char>) -> Seq<u8> {
    Seq::new(
        ((d.len() + 1) / 2) as nat,
        |k: int|
            ((if 2 * k + 1 < d.len() {
                crate::text::digit_val(d[2 * k + 1])
            } else {
                15
            }) * 16 + crate::text::digit_val(d[2 * k])) as u8,
    )
}

/// DCS, UDL and user data: 7-bit when every character has septets, UCS2
/// otherwise (UDL counts septets, resp. bytes).
pub open spec fn submit_user_data(text: Seq<char>) -> Seq<u8> {
    match spec_string_to_gsm7(text) {
        Some(sep) => seq![0x00u8, (sep.len() % 256) as u8] + spec_pack7(sep),
        None => {
            let u = spec_utf8_to_ucs2(text);
            seq![0x08u8, (u.len() % 256) as u8] + u
        },
    }
}

pub open spec fn spec_submit_tpdu(number: Seq<char>, text: Seq<char>) -> Seq<u8> {
    let (ty, d) = submit_number(number);
    seq![0x01u8, 0x00u8, (d.len() % 256) as u8, ty] + addr_bytes(d) + seq![0x00u8] + submit_user_data(text)
}

pub open spec fn spec_build_submit_pdu(number: Seq<char>, text: Seq<char>) -> Result<(Seq<char>, nat), Seq<char>> {
    let d = submit_number(number).1;
    if d.len() == 0 || !crate::text::all_digits(d) {
        Err("收件人号码格式无效"@)
    } else {
        let t = spec_submit_tpdu(number, text);
        Ok((hex_upper_of(seq![0x00u8] + t), t.len()))
    }
}

fn push_bytes(v: &mut Vec<u8>, b: &[u8])
    ensures
        final(v)@ == old(v)@ + b@,
{
    let mut i: usize = 0;
    let ghost v0 = v@;
    while i < b.len()
        invariant
            i <= b@.len(),
            v@ == v0 + b@.take(i as int),
        decreases b.len() - i,
    {
        v.push(b[i]);
        i += 1;
        assert(v@ =~= v0 + b@.take(i as int));
    }
    assert(b@.take(b@.len() as int) == b@);
}

/// Builds an SMS-SUBMIT PDU (service-centre length 0: the modem's default
/// centre is used). Returns the PDU in hex and the TPDU length that
/// `AT+CMGS` wants; a recipient without digits, or with anything but
/// digits after an optional `+`, is an error.
pub fn build_submit_pdu(number: &str, text: &str) -> (r: Result<(String, usize), String>)
    ensures
        match r {
            Ok((pdu, n)) => spec_build_submit_pdu(number@, text@) == Ok::<(Seq<char>, nat), Seq<char>>(
                (pdu@, n as nat),
            ),
            Err(e) => spec_build_submit_pdu(number@, text@) == Err::<(Seq<char>, nat), Seq<char>>(e@),
        },
{
    let nv = chars_of(number);
    assert(nv@.subrange(0, nv@.len() as int) == nv@);
    let (addr_type, lo): (u8, usize) = if nv.len() > 0 && nv[0] == '+' {
        (0x91, 1)
    } else if crate::text::range_starts_with_str(&nv, 0, nv.len(), "86") {
        (0x91, 0)
    } else {
        (0x81, 0)
    };
    let ghost d = submit_number(number@).1;
    assert(d == nv@.subrange(lo as int, nv@.len() as int));
    if lo == nv.len() || !crate::text::all_digits_range(&nv, lo, nv.len()) {
        return Err(String::from_str("收件人号码格式无效"));
    }
    let n = nv.len() - lo;
    let mut addr: Vec<u8> = Vec::new();
    let mut q: usize = 0;
    while q < n - q
        invariant
            n == d.len(),
            lo + n == nv@.len(),
            nv@.len() <= usize::MAX,
            d == nv@.subrange(lo as int, nv@.len() as int),
            crate::text::all_digits(d),
            q <= n - q + 1,
            addr@.len() == q,
            forall|j: int| 0 <= j < q ==> addr@[j] == addr_bytes(d)[j],
        decreases n - q,
    {
        let k = 2 * q;
        assert(crate::text::is_digit(d[k as int]));
        assert(d[k as int] == nv@[(lo + k) as int]);
        let hi = (nv[lo + k] as u32 - 48) as u8;
        let lo_d: u8 = if k + 1 < n {
            assert(crate::text::is_digit(d[k + 1]));
            assert(d[k + 1] == nv@[(lo + k + 1) as int]);
            (nv[lo + k + 1] as u32 - 48) as u8
        } else {
            15
        };
        addr.push(lo_d * 16 + hi);
        q += 1;
    }
    assert(addr@ =~= addr_bytes(d));
    let mut tpdu: Vec<u8> = Vec::new();
    tpdu.push(0x01);
    tpdu.push(0x00);
    tpdu.push((n % 256) as u8);
    tpdu.push(addr_type);
    push_bytes(&mut tpdu, addr.as_slice());
    tpdu.push(0x00);
    let ghost head = tpdu@;
    assert(head == seq![0x01u8, 0x00u8, (d.len() % 256) as u8, addr_type] + addr_bytes(d) + seq![0x00u8]);
    let mut ud: Vec<u8> = Vec::new();
    match string_to_gsm7(text) {
        Some(septets) => {
            ud.push(0x00);
            ud.push((septets.len() % 256) as u8);
            let packed = pack7(septets.as_slice());
            push_bytes(&mut ud, packed.as_slice());
        },
        None => {
            let ucs2 = utf8_to_ucs2(text);
            ud.push(0x08);
            ud.push((ucs2.len() % 256) as u8);
            push_bytes(&mut ud, ucs2.as_slice());
        },
    }
    assert(ud@ =~= submit_user_data(text@));
    push_bytes(&mut tpdu, ud.as_slice());
    let mut full: Vec<u8> = Vec::new();
    full.push(0x00);
    push_bytes(&mut full, tpdu.as_slice());
    assert(tpdu@ =~= spec_submit_tpdu(number@, text@));
    Ok((hex_encode(full.as_slice()), tpdu.len()))
}

// ---------------------------------------------------------------- storage

pub open spec fn spec_parse_storage_ok(st: Storage, resp: Seq<char>) -> bool {
    let f = spec_first(resp, "+CPMS"@);
    &&& st.mem@ == (if f.len() > 0 {
        f[0]
    } else {
        "SM"@
    })
    &&& st.used == (if f.len() > 1 {
        match parsed_i64(f[1]) {
            Some(x) => x,
            None => 0,
        }
    } else {
        0
    })
    &&& st.total == (if f.len() > 2 {
        match parsed_i64(f[2]) {
            Some(x) => x,
            None => 0,
        }
    } else {
        0
    })
}

fn parse_i64_str(s: &str) -> (r: i64)
    ensures
        r == match parsed_i64(s@) {
            Some(x) => x,
            None => 0,
        },
{
    let v = chars_of(s);
    assert(v@.subrange(0, v@.len() as int) == v@);
    match parse_i64_range(&v, 0, v.len()) {
        Some(x) => x,
        None => 0,
    }
}

/// The storage and fill level of an `AT+CPMS?` answer (`SM` and zeros for
/// what is missing).
pub fn parse_storage(resp: &str) -> (st: Storage)
    ensures
        spec_parse_storage_ok(st, resp@),
{
    let v = fields(resp, "+CPMS");
    let mem = if v.len() > 0 {
        v[0].clone()
    } else {
        String::from_str("SM")
    };
    let used = if v.len() > 1 {
        parse_i64_str(v[1].as_str())
    } else {
        0
    };
    let total = if v.len() > 2 {
        parse_i64_str(v[2].as_str())
    } else {
        0
    };
    proof {
        assert(strs(v@).len() == v@.len());
        if v@.len() > 0 {
            assert(strs(v@)[0] == v@[0]@);
        }
        if v@.len() > 1 {
            assert(strs(v@)[1] == v@[1]@);
        }
        if v@.len() > 2 {
            assert(strs(v@)[2] == v@[2]@);
        }
    }
    Storage { mem, used, total }
}

/// A built PDU is the service-centre byte `00` followed by the TPDU, two
/// hex digits per byte.
pub proof fn lemma_submit_pdu_shape(number: Seq<char>, text: Seq<char>)
    ensures
        spec_build_submit_pdu(number, text) matches Ok((pdu, n)) ==> pdu.len() == (n + 1) * 2 && pdu[0] == '0'
            && pdu[1] == '0',
{
    let d = submit_number(number).1;
    if !(d.len() == 0 || !crate::text::all_digits(d)) {
        let t = spec_submit_tpdu(number, text);
        let full = seq![0x00u8] + t;
        lemma_hex_upper_of(full);
        assert(full[0] == 0u8);
        assert(hex_upper_of(full)[2 * 0int] == hex_upper(0));
        assert(((0 + ('0' as int)) as char) == '0');
    }
}

/// Every septet of an encoded text is below 128.
proof fn lemma_septets_below_128(text: Seq<char>)
    ensures
        spec_string_to_gsm7(text) matches Some(s) ==> forall|k: int| 0 <= k < s.len() ==> s[k] < 128,
    decreases text.len(),
{
    if text.len() > 0 {
        lemma_septets_below_128(text.drop_last());
        lemma_gsm7_table();
        let c = text.last();
        lemma_first_pos(gsm7_basic(), c);
        match (spec_string_to_gsm7(text.drop_last()), gsm7_piece(c)) {
            (Some(a), Some(p)) => {
                let s = a + p;
                assert forall|k: int| 0 <= k < s.len() implies s[k] < 128 by {
                    if k >= a.len() {
                        assert(s[k] == p[k - a.len()]);
                    } else {
                        assert(s[k] == a[k]);
                    }
                }
            },
            _ => {},
        }
    }
}

/// The packed septets of a text, unpacked by their count and decoded, give
/// the text back.
proof fn lemma_gsm7_packed_roundtrip(text: Seq<char>)
    requires
        spec_string_to_gsm7(text) is Some,
    ensures
        spec_gsm7_to_string(spec_unpack7(spec_pack7(spec_string_to_gsm7(text)->0), spec_string_to_gsm7(text)->0.len()))
            == text,
{
    let sep = spec_string_to_gsm7(text)->0;
    lemma_pack7_roundtrip(sep);
    lemma_gsm7_roundtrip(text);
    lemma_septets_below_128(text);
    assert(sep.map_values(|x: u8| x % 128) =~= sep);
}

/// The user-data header of a built SUBMIT PDU, byte for byte: in the
/// decoded PDU (service-centre length, then the TPDU: first octet, message
/// reference, address length, address type, the address's semi-octets,
/// TP-PID at `j`), TP-DCS follows TP-PID and TP-UDL follows TP-DCS.
/// For a text outside the GSM 7-bit alphabet TP-DCS is `08` (UCS2), TP-UDL
/// counts the user-data octets that follow it (modulo 256, as one byte
/// holds it), two per UTF-16 unit, and those octets are the text's UTF-16
/// units, big-endian, so decoding them by the UDL gives the whole text.
pub proof fn lemma_submit_ucs2_udl(number: Seq<char>, text: Seq<char>)
    requires
        spec_string_to_gsm7(text) is None,
    ensures
        spec_build_submit_pdu(number, text) matches Ok((pdu, n)) ==> ({
            let j: int = (5 + (submit_number(number).1.len() + 1) / 2) as int;
            &&& spec_hex_decode(pdu) is Ok
            &&& ({
                let b = spec_hex_decode(pdu)->Ok_0;
                &&& b.len() == n + 1
                &&& b[j] == 0x00u8
                &&& b[j + 1] == 0x08u8
                &&& b[j + 2] as int == (b.len() - (j + 3)) % 256
                &&& (b.len() - (j + 3)) == 2 * utf16_enc(text).len()
                &&& ucs2_units(b.skip(j + 3)) == utf16_enc(text)
            })
        }),
{
    let (ty, d) = submit_number(number);
    if !(d.len() == 0 || !crate::text::all_digits(d)) {
        let t = spec_submit_tpdu(number, text);
        let full = seq![0x00u8] + t;
        lemma_hex_roundtrip(full);
        let u = spec_utf8_to_ucs2(text);
        lemma_ucs2_roundtrip(text);
        let a = addr_bytes(d);
        let head = seq![0x01u8, 0x00u8, (d.len() % 256) as u8, ty] + a + seq![0x00u8];
        assert(submit_user_data(text) == seq![0x08u8, (u.len() % 256) as u8] + u);
        assert(t =~= head + (seq![0x08u8, (u.len() % 256) as u8] + u));
        let j: int = (5 + (d.len() + 1) / 2) as int;
        assert(a.len() == (d.len() + 1) / 2);
        assert(full.len() == j + 3 + u.len());
        assert(full[j] == 0x00u8);
        assert(full[j + 1] == 0x08u8);
        assert(full[j + 2] == (u.len() % 256) as u8);
        assert(full.skip(j + 3) =~= u);
        assert(u.len() == 2 * utf16_enc(text).len());
    }
}

/// The same header for a text in the GSM 7-bit alphabet: TP-DCS is `00`,
/// TP-UDL counts the septets (modulo 256), and the user data unpacked by
/// that count and decoded gives the whole text back (when it has fewer
/// than 256 septets, the most one byte can count).
pub proof fn lemma_submit_gsm7_udl(number: Seq<char>, text: Seq<char>)
    requires
        spec_string_to_gsm7(text) is Some,
    ensures
        spec_build_submit_pdu(number, text) matches Ok((pdu, n)) ==> ({
            let j: int = (5 + (submit_number(number).1.len() + 1) / 2) as int;
            &&& spec_hex_decode(pdu) is Ok
            &&& ({
                let b = spec_hex_decode(pdu)->Ok_0;
                &&& b.len() == n + 1
                &&& b[j] == 0x00u8
                &&& b[j + 1] == 0x00u8
                &&& b[j + 2] as int == spec_string_to_gsm7(text)->0.len() % 256
                &&& (spec_string_to_gsm7(text)->0.len() < 256 ==> spec_gsm7_to_string(
                    spec_unpack7(b.skip(j + 3), b[j + 2] as nat),
                ) == text)
            })
        }),
{
    let (ty, d) = submit_number(number);
    if !(d.len() == 0 || !crate::text::all_digits(d)) {
        let t = spec_submit_tpdu(number, text);
        let full = seq![0x00u8] + t;
        lemma_hex_roundtrip(full);
        let sep = spec_string_to_gsm7(text)->0;
        let packed = spec_pack7(sep);
        let a = addr_bytes(d);
        let head = seq![0x01u8, 0x00u8, (d.len() % 256) as u8, ty] + a + seq![0x00u8];
        assert(t =~= head + (seq![0x00u8, (sep.len() % 256) as u8] + packed));
        let j: int = (5 + (d.len() + 1) / 2) as int;
        assert(a.len() == (d.len() + 1) / 2);
        assert(full[j] == 0x00u8);
        assert(full[j + 1] == 0x00u8);
        assert(full[j + 2] == (sep.len() % 256) as u8);
        assert(full.skip(j + 3) =~= packed);
        if sep.len() < 256 {
            lemma_gsm7_packed_roundtrip(text);
            assert(full[j + 2] as nat == sep.len());
        }
    }
}

// ---------------------------------------------------------------- DELIVER fields

/// An SMS-DELIVER PDU assembled from its fields (3GPP 23.040): the service
/// centre (length byte and address), the first octet, the sender (digit
/// count, type of address, semi-octets), TP-PID, TP-DCS, the seven bytes of
/// TP-SCTS, TP-UDL and the user data.
pub open spec fn deliver_bytes(
    smsc: Seq<u8>,
    first: u8,
    digits: u8,
    toa: u8,
    addr: Seq<u8>,
    pid: u8,
    dcs: u8,
    scts: Seq<u8>,
    udl: u8,
    ud: Seq<u8>,
) -> Seq<u8> {
    seq![smsc.len() as u8] + smsc + seq![first, digits, toa] + addr + seq![pid, dcs] + scts + seq![udl] + ud
}

/// Decoding a DELIVER PDU reads each field where 23.040 puts it: the coding
/// scheme is TP-DCS, the byte after TP-PID (whatever TP-PID holds). With
/// TP-DCS bits `0x0C` equal to `0x08` the text is the UTF-16BE decoding of
/// the first TP-UDL user-data bytes and the encoding `UCS2`; equal to `0x04`
/// it is `8BIT`, otherwise `GSM7`. The sender is its semi-octets, with `+`
/// for an international address, and the time stamp is TP-SCTS.
pub proof fn lemma_deliver_fields(
    index: i64,
    status: i64,
    smsc: Seq<u8>,
    first: u8,
    digits: u8,
    toa: u8,
    addr: Seq<u8>,
    pid: u8,
    dcs: u8,
    scts: Seq<u8>,
    udl: u8,
    ud: Seq<u8>,
)
    requires
        smsc.len() < 256,
        addr.len() == (digits + 1) / 2,
        scts.len() == 7,
        first & 0x40u8 == 0,
    ensures
        ({
            let pdu = hex_upper_of(deliver_bytes(smsc, first, digits, toa, addr, pid, dcs, scts, udl, ud));
            spec_decode_pdu(index, status, pdu) matches Ok(v) && {
                &&& v.sender == (if toa == 0x91 { "+"@ } else { ""@ }) + spec_swap_digits(addr, digits as nat)
                &&& v.timestamp == spec_decode_timestamp(scts)
                &&& (dcs & 0x0Cu8 == 0x08u8 ==> v.encoding == "UCS2"@ && v.text == spec_ucs2_to_string(
                    ud.take(min_int(ud.len() as int, udl as int)),
                ))
                &&& (dcs & 0x0Cu8 == 0x04u8 ==> v.encoding == "8BIT"@)
                &&& (dcs & 0x0Cu8 != 0x08u8 && dcs & 0x0Cu8 != 0x04u8 ==> v.encoding == "GSM7"@)
            }
        }),
{
    let b = deliver_bytes(smsc, first, digits, toa, addr, pid, dcs, scts, udl, ud);
    lemma_hex_roundtrip(b);
    let k = smsc.len() as int;
    let t0 = 1 + k;
    let ae = t0 + 3 + addr.len();
    assert(b.len() == ae + 10 + ud.len());
    assert(b[0] == smsc.len() as u8);
    assert(tpdu_start(b) == t0);
    assert(b[t0] == first);
    assert(b[t0 + 1] == digits);
    assert(b[t0 + 2] == toa);
    assert(addr_end(b) == ae);
    assert(b.subrange(t0 + 3, ae) =~= addr);
    assert(min_int(ae, b.len() as int) == ae);
    assert(b[ae] == pid);
    assert(b[ae + 1] == dcs);
    assert(b.subrange(ae + 2, ae + 9) =~= scts);
    assert(b[ae + 9] == udl);
    assert(udl_pos(b) == ae + 9);
    assert(!has_udh(b));
    assert(ud_start(b) == ae + 10);
    assert(b.skip(ud_start(b)) =~= ud);
    assert(byte_or_zero(b, addr_end(b) + 1) == dcs);
    assert(byte_or_zero(b, udl_pos(b)) == udl);
    reveal_strlit("UCS2");
    reveal_strlit("8BIT");
    reveal_strlit("GSM7");
}

} // verus!
