//! Character-level text helpers shared by every parser of the crate.
//!
//! Each helper comes with a spec function that states the meaning of the
//! corresponding `str` operation of std (`trim`, `split`, `lines`, integer
//! parsing, decimal formatting); the executable versions work on ranges of a
//! `Vec<char>` and are proved against those spec functions.
use vstd::prelude::*;
use vstd::std_specs::iter::IteratorSpec;

verus! {

broadcast use vstd::string::group_string_axioms;

// ---------------------------------------------------------------- spec side

/// Unicode `White_Space`, the set `char::is_whitespace` accepts.
pub open spec fn is_ws(c: char) -> bool {
    ||| c == '\t'
    ||| c == '\n'
    ||| c == '\u{0B}'
    ||| c == '\u{0C}'
    ||| c == '\r'
    ||| c == ' '
    ||| c == '\u{85}'
    ||| c == '\u{A0}'
    ||| c == '\u{1680}'
    ||| ('\u{2000}' <= c && c <= '\u{200A}')
    ||| c == '\u{2028}'
    ||| c == '\u{2029}'
    ||| c == '\u{202F}'
    ||| c == '\u{205F}'
    ||| c == '\u{3000}'
}

/// `str::trim_start`.
pub open spec fn trim_start(s: Seq<char>) -> Seq<char>
    decreases s.len(),
{
    if s.len() > 0 && is_ws(s[0]) {
        trim_start(s.drop_first())
    } else {
        s
    }
}

/// `str::trim_end`.
pub open spec fn trim_end(s: Seq<char>) -> Seq<char>
    decreases s.len(),
{
    if s.len() > 0 && is_ws(s.last()) {
        trim_end(s.drop_last())
    } else {
        s
    }
}

/// `str::trim`.
pub open spec fn trim(s: Seq<char>) -> Seq<char> {
    trim_end(trim_start(s))
}

/// `str::trim_start_matches(c)` for a single character.
pub open spec fn trim_start_char(s: Seq<char>, c: char) -> Seq<char>
    decreases s.len(),
{
    if s.len() > 0 && s[0] == c {
        trim_start_char(s.drop_first(), c)
    } else {
        s
    }
}

/// `str::trim_end_matches(c)` for a single character.
pub open spec fn trim_end_char(s: Seq<char>, c: char) -> Seq<char>
    decreases s.len(),
{
    if s.len() > 0 && s.last() == c {
        trim_end_char(s.drop_last(), c)
    } else {
        s
    }
}

/// `str::trim_matches(c)` for a single character.
pub open spec fn trim_char(s: Seq<char>, c: char) -> Seq<char> {
    trim_end_char(trim_start_char(s, c), c)
}

/// `str::starts_with`.
pub open spec fn starts_with(s: Seq<char>, p: Seq<char>) -> bool {
    p.len() <= s.len() && s.take(p.len() as int) == p
}

/// `str::ends_with`.
pub open spec fn ends_with(s: Seq<char>, p: Seq<char>) -> bool {
    p.len() <= s.len() && s.skip(s.len() - p.len()) == p
}

/// `p` occurs in `s` at position `i`.
pub open spec fn occurs_at(s: Seq<char>, p: Seq<char>, i: int) -> bool {
    0 <= i && i + p.len() <= s.len() && s.subrange(i, i + p.len()) == p
}

/// `str::contains` for a string pattern.
pub open spec fn contains_str(s: Seq<char>, p: Seq<char>) -> bool {
    exists|i: int| occurs_at(s, p, i)
}

/// Index of the first occurrence of `p` in `s` (`str::find`), or `-1`.
pub open spec fn find_str(s: Seq<char>, p: Seq<char>) -> int {
    if contains_str(s, p) {
        choose|i: int| occurs_at(s, p, i) && forall|j: int| 0 <= j < i ==> !occurs_at(s, p, j)
    } else {
        -1
    }
}

/// Index of the first `c` in `s`, or `-1`.
pub open spec fn find_char(s: Seq<char>, c: char) -> int
    decreases s.len(),
{
    if s.len() == 0 {
        -1
    } else if s[0] == c {
        0
    } else {
        let r = find_char(s.drop_first(), c);
        if r < 0 {
            -1
        } else {
            r + 1
        }
    }
}

/// `str::split(c)`: the pieces between occurrences of `c`.
pub open spec fn split_char(s: Seq<char>, c: char) -> Seq<Seq<char>>
    decreases s.len(),
{
    let i = find_char(s, c);
    if i < 0 || i >= s.len() {
        seq![s]
    } else {
        seq![s.take(i)] + split_char(s.skip(i + 1), c)
    }
}

/// `split` always yields at least one piece.
pub proof fn lemma_split_char_nonempty(s: Seq<char>, c: char)
    ensures
        split_char(s, c).len() > 0,
{
}

/// Drops one trailing `'\r'`.
pub open spec fn strip_cr(t: Seq<char>) -> Seq<char> {
    if t.len() > 0 && t.last() == '\r' {
        t.drop_last()
    } else {
        t
    }
}

/// `str::lines`: pieces ended by `"\n"` or `"\r\n"`; a final piece without a
/// line ending is kept as it is, and no empty piece follows a final newline.
pub open spec fn lines(s: Seq<char>) -> Seq<Seq<char>>
    decreases s.len(),
{
    if s.len() == 0 {
        seq![]
    } else {
        let i = find_char(s, '\n');
        if i < 0 || i >= s.len() {
            seq![s]
        } else {
            seq![strip_cr(s.take(i))] + lines(s.skip(i + 1))
        }
    }
}

pub open spec fn is_digit(c: char) -> bool {
    '0' <= c && c <= '9'
}

pub open spec fn all_digits(s: Seq<char>) -> bool {
    forall|i: int| 0 <= i < s.len() ==> is_digit(#[trigger] s[i])
}

pub open spec fn digit_val(c: char) -> int {
    (c as int) - ('0' as int)
}

/// Value of a string of decimal digits.
pub open spec fn dec_value(s: Seq<char>) -> int
    decreases s.len(),
{
    if s.len() == 0 {
        0
    } else {
        dec_value(s.drop_last()) * 10 + digit_val(s.last())
    }
}

/// `str::parse` for an unsigned integer type whose maximum is `max`:
/// an optional `+`, then one or more decimal digits, the value at most `max`.
pub open spec fn parse_uint(s: Seq<char>, max: int) -> Option<int> {
    let d = if s.len() > 0 && s[0] == '+' { s.drop_first() } else { s };
    if d.len() == 0 || !all_digits(d) || dec_value(d) > max {
        None
    } else {
        Some(dec_value(d))
    }
}

/// `str::parse` for a signed integer type with range `min..=max`.
pub open spec fn parse_int(s: Seq<char>, min: int, max: int) -> Option<int> {
    if s.len() > 0 && s[0] == '-' {
        let d = s.drop_first();
        if d.len() == 0 || !all_digits(d) || -dec_value(d) < min {
            None
        } else {
            Some(-dec_value(d))
        }
    } else {
        parse_uint(s, max)
    }
}

pub open spec fn digit_char(d: int) -> char {
    (d + ('0' as int)) as char
}

/// Decimal text of a natural number (`format!("{}", n)`).
pub open spec fn dec_str(n: nat) -> Seq<char>
    decreases n,
{
    if n < 10 {
        seq![digit_char(n as int)]
    } else {
        dec_str(n / 10).push(digit_char((n % 10) as int))
    }
}

/// Decimal text of an integer, with a leading `-` when negative.
pub open spec fn int_str(n: int) -> Seq<char> {
    if n < 0 {
        seq!['-'] + dec_str((-n) as nat)
    } else {
        dec_str(n as nat)
    }
}

/// Lower-case hexadecimal digit.
pub open spec fn hex_digit_lower(d: int) -> char {
    if d < 10 {
        digit_char(d)
    } else {
        ((d - 10) + ('a' as int)) as char
    }
}

/// Lower-case hexadecimal text of a natural number (`format!("{:x}", n)`).
pub open spec fn hex_str(n: nat) -> Seq<char>
    decreases n,
{
    if n < 16 {
        seq![hex_digit_lower(n as int)]
    } else {
        hex_str(n / 16).push(hex_digit_lower((n % 16) as int))
    }
}

/// `char::is_ascii_hexdigit`.
pub open spec fn is_hex(c: char) -> bool {
    ('0' <= c && c <= '9') || ('a' <= c && c <= 'f') || ('A' <= c && c <= 'F')
}

/// Value of a hexadecimal digit.
pub open spec fn hex_val(c: char) -> int {
    if '0' <= c && c <= '9' {
        (c as int) - ('0' as int)
    } else if 'a' <= c && c <= 'f' {
        (c as int) - ('a' as int) + 10
    } else {
        (c as int) - ('A' as int) + 10
    }
}

/// Joins pieces with a separator (`[..].join(sep)`).
pub open spec fn join(parts: Seq<Seq<char>>, sep: Seq<char>) -> Seq<char>
    decreases parts.len(),
{
    if parts.len() == 0 {
        seq![]
    } else if parts.len() == 1 {
        parts[0]
    } else {
        join(parts.drop_last(), sep) + sep + parts.last()
    }
}

/// `split_whitespace`, read left to right: the words finished so far and
/// the word being read.
pub open spec fn words_acc(s: Seq<char>) -> (Seq<Seq<char>>, Seq<char>)
    decreases s.len(),
{
    if s.len() == 0 {
        (seq![], seq![])
    } else {
        let (ws, cur) = words_acc(s.drop_last());
        let c = s.last();
        if is_ws(c) {
            if cur.len() > 0 {
                (ws.push(cur), seq![])
            } else {
                (ws, seq![])
            }
        } else {
            (ws, cur.push(c))
        }
    }
}

/// `str::split_whitespace`: the maximal runs of non-white-space characters.
pub open spec fn words(s: Seq<char>) -> Seq<Seq<char>> {
    let (ws, cur) = words_acc(s);
    if cur.len() > 0 {
        ws.push(cur)
    } else {
        ws
    }
}

/// The views of a sequence of strings.
pub open spec fn strs(v: Seq<String>) -> Seq<Seq<char>> {
    v.map_values(|x: String| x@)
}

/// `s` with every `from` replaced by `to`.
pub open spec fn replace_char(s: Seq<char>, from: char, to: char) -> Seq<char> {
    s.map_values(|c: char| if c == from { to } else { c })
}

// ---------------------------------------------------------------- lemmas

pub proof fn lemma_find_char(s: Seq<char>, c: char)
    ensures
        -1 <= find_char(s, c) < s.len(),
        find_char(s, c) == -1 <==> !s.contains(c),
        find_char(s, c) >= 0 ==> s[find_char(s, c)] == c,
        forall|j: int| 0 <= j < find_char(s, c) ==> s[j] != c,
        find_char(s, c) == -1 ==> forall|j: int| 0 <= j < s.len() ==> s[j] != c,
    decreases s.len(),
{
    if s.len() > 0 {
        lemma_find_char(s.drop_first(), c);
        if s[0] != c {
            let r = find_char(s.drop_first(), c);
            assert forall|j: int| 0 <= j < find_char(s, c) implies s[j] != c by {
                if j > 0 {
                    assert(s[j] == s.drop_first()[j - 1]);
                }
            }
            if r < 0 {
                assert forall|j: int| 0 <= j < s.len() implies s[j] != c by {
                    if j > 0 {
                        assert(s[j] == s.drop_first()[j - 1]);
                    }
                }
            } else {
                assert(s.contains(c)) by {
                    assert(s[r + 1] == c);
                }
            }
            if s.contains(c) {
                let k = choose|k: int| 0 <= k < s.len() && s[k] == c;
                assert(s.drop_first()[k - 1] == c);
            }
        } else {
            assert(s.contains(c)) by {
                assert(s[0] == c);
            }
        }
    }
}

pub proof fn lemma_find_char_at(s: Seq<char>, c: char, k: int)
    requires
        0 <= k < s.len(),
        s[k] == c,
        forall|j: int| 0 <= j < k ==> s[j] != c,
    ensures
        find_char(s, c) == k,
{
    lemma_find_char(s, c);
    let r = find_char(s, c);
    assert(s.contains(c)) by {
        assert(s[k] == c);
    }
}

pub proof fn lemma_find_char_none(s: Seq<char>, c: char)
    requires
        forall|j: int| 0 <= j < s.len() ==> s[j] != c,
    ensures
        find_char(s, c) == -1,
{
    lemma_find_char(s, c);
    if find_char(s, c) >= 0 {
        assert(s[find_char(s, c)] == c);
    }
}

pub proof fn lemma_dec_value_nonneg(s: Seq<char>)
    requires
        all_digits(s),
    ensures
        dec_value(s) >= 0,
    decreases s.len(),
{
    if s.len() > 0 {
        lemma_dec_value_nonneg(s.drop_last());
        assert(is_digit(s[s.len() - 1]));
    }
}

pub proof fn lemma_dec_value_mono(s: Seq<char>, k: int)
    requires
        all_digits(s),
        0 <= k <= s.len(),
    ensures
        dec_value(s.take(k)) <= dec_value(s),
    decreases s.len() - k,
{
    if k < s.len() {
        lemma_dec_value_mono(s, k + 1);
        let t = s.take(k + 1);
        assert(t.drop_last() == s.take(k));
        assert(is_digit(t.last())) by {
            assert(t.last() == s[k]);
        }
        assert(all_digits(s.take(k))) by {
            assert forall|i: int| 0 <= i < k implies is_digit(#[trigger] s.take(k)[i]) by {
                assert(s.take(k)[i] == s[i]);
            }
        }
        lemma_dec_value_nonneg(s.take(k));
    } else {
        assert(s.take(k) == s);
    }
}

// ---------------------------------------------------------------- exec side

/// Appends one character to a string.
///
/// Trusted: `String::push` from std; the contract states only that the
/// character is appended at the end, as std documents.
#[verifier::external_body]
pub(crate) fn push_char(s: &mut String, c: char)
    ensures
        final(s)@ == old(s)@.push(c),
{
    s.push(c);
}

/// Appends a string slice to a string.
pub fn push_str(s: &mut String, t: &str)
    ensures
        final(s)@ == old(s)@ + t@,
{
    s.append(t);
}

/// Appends characters to a string.
pub fn push_chars(s: &mut String, v: &Vec<char>)
    ensures
        final(s)@ == old(s)@ + v@,
{
    let ghost s0 = s@;
    let mut i: usize = 0;
    while i < v.len()
        invariant
            i <= v.len(),
            s@ == s0 + v@.take(i as int),
        decreases v.len() - i,
    {
        push_char(s, v[i]);
        i += 1;
        assert(s@ == s0 + v@.take(i as int));
    }
    assert(v@.take(v@.len() as int) == v@);
}

/// The characters of `s`, in order.
pub fn chars_of(s: &str) -> (v: Vec<char>)
    ensures
        v@ == s@,
{
    let mut v: Vec<char> = Vec::new();
    let mut it = s.chars();
    let ghost all = s@;
    loop
        invariant
            it.remaining() == all.skip(v@.len() as int),
            v@ == all.take(v@.len() as int),
            v@.len() <= all.len(),
        ensures
            v@ == all,
        decreases all.len() - v@.len(),
    {
        match it.next() {
            Some(c) => {
                assert(all.skip(v@.len() as int).drop_first() == all.skip(v@.len() as int + 1));
                v.push(c);
                assert(v@ == all.take(v@.len() as int));
            },
            None => {
                assert(v@.len() == all.len());
                assert(all.take(all.len() as int) == all);
                break ;
            },
        }
    }
    v
}

/// A string built from characters.
pub fn string_of(v: &Vec<char>) -> (s: String)
    ensures
        s@ == v@,
{
    let mut s = String::new();
    push_chars(&mut s, v);
    s
}

/// A string built from a range of characters.
pub fn string_of_range(v: &Vec<char>, lo: usize, hi: usize) -> (s: String)
    requires
        lo <= hi <= v@.len(),
    ensures
        s@ == v@.subrange(lo as int, hi as int),
{
    let mut s = String::new();
    let mut i = lo;
    while i < hi
        invariant
            lo <= i <= hi <= v@.len(),
            s@ == v@.subrange(lo as int, i as int),
        decreases hi - i,
    {
        push_char(&mut s, v[i]);
        i += 1;
        assert(s@ == v@.subrange(lo as int, i as int));
    }
    s
}

/// Copy of a range of characters.
pub fn vec_range(v: &Vec<char>, lo: usize, hi: usize) -> (r: Vec<char>)
    requires
        lo <= hi <= v@.len(),
    ensures
        r@ == v@.subrange(lo as int, hi as int),
{
    let mut r: Vec<char> = Vec::new();
    let mut i = lo;
    while i < hi
        invariant
            lo <= i <= hi <= v@.len(),
            r@ == v@.subrange(lo as int, i as int),
        decreases hi - i,
    {
        r.push(v[i]);
        i += 1;
        assert(r@ == v@.subrange(lo as int, i as int));
    }
    r
}

pub fn is_ws_exec(c: char) -> (b: bool)
    ensures
        b == is_ws(c),
{
    c == '\t' || c == '\n' || c == '\u{0B}' || c == '\u{0C}' || c == '\r' || c == ' ' || c
        == '\u{85}' || c == '\u{A0}' || c == '\u{1680}' || ('\u{2000}' <= c && c <= '\u{200A}')
        || c == '\u{2028}' || c == '\u{2029}' || c == '\u{202F}' || c == '\u{205F}' || c
        == '\u{3000}'
}

/// Start of `trim_start` of the range `lo..hi`.
pub fn trim_start_range(v: &Vec<char>, lo: usize, hi: usize) -> (a: usize)
    requires
        lo <= hi <= v@.len(),
    ensures
        lo <= a <= hi,
        v@.subrange(a as int, hi as int) == trim_start(v@.subrange(lo as int, hi as int)),
{
    let mut a = lo;
    while a < hi && is_ws_exec(v[a])
        invariant
            lo <= a <= hi <= v@.len(),
            trim_start(v@.subrange(lo as int, hi as int)) == trim_start(
                v@.subrange(a as int, hi as int),
            ),
        decreases hi - a,
    {
        assert(v@.subrange(a as int, hi as int).drop_first() == v@.subrange(
            a as int + 1,
            hi as int,
        ));
        a += 1;
    }
    a
}

/// `trim` on the range `lo..hi`; returns the trimmed range.
pub fn trim_range(v: &Vec<char>, lo: usize, hi: usize) -> (r: (usize, usize))
    requires
        lo <= hi <= v@.len(),
    ensures
        lo <= r.0 <= r.1 <= hi,
        v@.subrange(r.0 as int, r.1 as int) == trim(v@.subrange(lo as int, hi as int)),
{
    let mut a = lo;
    while a < hi && is_ws_exec(v[a])
        invariant
            lo <= a <= hi <= v@.len(),
            trim_start(v@.subrange(lo as int, hi as int)) == trim_start(
                v@.subrange(a as int, hi as int),
            ),
        decreases hi - a,
    {
        assert(v@.subrange(a as int, hi as int).drop_first() == v@.subrange(
            a as int + 1,
            hi as int,
        ));
        a += 1;
    }
    assert(trim_start(v@.subrange(a as int, hi as int)) == v@.subrange(a as int, hi as int));
    let mut b = hi;
    while b > a && is_ws_exec(v[b - 1])
        invariant
            lo <= a <= b <= hi <= v@.len(),
            trim(v@.subrange(lo as int, hi as int)) == trim_end(v@.subrange(a as int, b as int)),
        decreases b - a,
    {
        assert(v@.subrange(a as int, b as int).drop_last() == v@.subrange(
            a as int,
            b as int - 1,
        ));
        b -= 1;
    }
    (a, b)
}

/// `trim_matches(c)` on the range `lo..hi`.
pub fn trim_char_range(v: &Vec<char>, lo: usize, hi: usize, c: char) -> (r: (usize, usize))
    requires
        lo <= hi <= v@.len(),
    ensures
        lo <= r.0 <= r.1 <= hi,
        v@.subrange(r.0 as int, r.1 as int) == trim_char(v@.subrange(lo as int, hi as int), c),
{
    let mut a = lo;
    while a < hi && v[a] == c
        invariant
            lo <= a <= hi <= v@.len(),
            trim_start_char(v@.subrange(lo as int, hi as int), c) == trim_start_char(
                v@.subrange(a as int, hi as int),
                c,
            ),
        decreases hi - a,
    {
        assert(v@.subrange(a as int, hi as int).drop_first() == v@.subrange(
            a as int + 1,
            hi as int,
        ));
        a += 1;
    }
    let mut b = hi;
    while b > a && v[b - 1] == c
        invariant
            lo <= a <= b <= hi <= v@.len(),
            trim_char(v@.subrange(lo as int, hi as int), c) == trim_end_char(
                v@.subrange(a as int, b as int),
                c,
            ),
        decreases b - a,
    {
        assert(v@.subrange(a as int, b as int).drop_last() == v@.subrange(
            a as int,
            b as int - 1,
        ));
        b -= 1;
    }
    (a, b)
}

/// `trim_start_matches(c)` on the range `lo..hi`.
pub fn trim_start_char_range(v: &Vec<char>, lo: usize, hi: usize, c: char) -> (a: usize)
    requires
        lo <= hi <= v@.len(),
    ensures
        lo <= a <= hi,
        v@.subrange(a as int, hi as int) == trim_start_char(v@.subrange(lo as int, hi as int), c),
{
    let mut a = lo;
    while a < hi && v[a] == c
        invariant
            lo <= a <= hi <= v@.len(),
            trim_start_char(v@.subrange(lo as int, hi as int), c) == trim_start_char(
                v@.subrange(a as int, hi as int),
                c,
            ),
        decreases hi - a,
    {
        assert(v@.subrange(a as int, hi as int).drop_first() == v@.subrange(
            a as int + 1,
            hi as int,
        ));
        a += 1;
    }
    a
}

/// `trim_end_matches(c)` on the range `lo..hi`.
pub fn trim_end_char_range(v: &Vec<char>, lo: usize, hi: usize, c: char) -> (b: usize)
    requires
        lo <= hi <= v@.len(),
    ensures
        lo <= b <= hi,
        v@.subrange(lo as int, b as int) == trim_end_char(v@.subrange(lo as int, hi as int), c),
{
    let mut b = hi;
    while b > lo && v[b - 1] == c
        invariant
            lo <= b <= hi <= v@.len(),
            trim_end_char(v@.subrange(lo as int, hi as int), c) == trim_end_char(
                v@.subrange(lo as int, b as int),
                c,
            ),
        decreases b - lo,
    {
        assert(v@.subrange(lo as int, b as int).drop_last() == v@.subrange(
            lo as int,
            b as int - 1,
        ));
        b -= 1;
    }
    b
}

/// Whether the range `lo..hi` starts with `p`.
pub fn starts_with_range(v: &Vec<char>, lo: usize, hi: usize, p: &Vec<char>) -> (b: bool)
    requires
        lo <= hi <= v@.len(),
    ensures
        b == starts_with(v@.subrange(lo as int, hi as int), p@),
{
    if p.len() > hi - lo {
        return false;
    }
    let mut i: usize = 0;
    while i < p.len()
        invariant
            p@.len() <= hi - lo,
            lo <= hi <= v@.len(),
            i <= p@.len(),
            forall|j: int| 0 <= j < i ==> v@[lo + j] == p@[j],
        decreases p.len() - i,
    {
        if v[lo + i] != p[i] {
            assert(v@.subrange(lo as int, hi as int).take(p@.len() as int)[i as int] != p@[i as int]);
            return false;
        }
        i += 1;
    }
    assert(v@.subrange(lo as int, hi as int).take(p@.len() as int) =~= p@);
    true
}

/// Whether the range `lo..hi` ends with `p`.
pub fn ends_with_range(v: &Vec<char>, lo: usize, hi: usize, p: &Vec<char>) -> (b: bool)
    requires
        lo <= hi <= v@.len(),
    ensures
        b == ends_with(v@.subrange(lo as int, hi as int), p@),
{
    if p.len() > hi - lo {
        return false;
    }
    let base = hi - p.len();
    let mut i: usize = 0;
    while i < p.len()
        invariant
            p@.len() <= hi - lo,
            base == hi - p@.len(),
            lo <= hi <= v@.len(),
            i <= p@.len(),
            forall|j: int| 0 <= j < i ==> v@[base + j] == p@[j],
        decreases p.len() - i,
    {
        if v[base + i] != p[i] {
            let ghost t = v@.subrange(lo as int, hi as int);
            assert(t.skip(t.len() - p@.len())[i as int] != p@[i as int]);
            return false;
        }
        i += 1;
    }
    let ghost t = v@.subrange(lo as int, hi as int);
    assert(t.skip(t.len() - p@.len()) =~= p@);
    true
}

/// Whether `p` occurs at position `i` of the range (relative to `lo`).
fn occurs_at_range(v: &Vec<char>, lo: usize, hi: usize, p: &Vec<char>, i: usize) -> (b: bool)
    requires
        lo <= hi <= v@.len(),
    ensures
        b == occurs_at(v@.subrange(lo as int, hi as int), p@, i as int),
{
    if i > hi - lo || p.len() > hi - lo - i {
        return false;
    }
    let mut k: usize = 0;
    while k < p.len()
        invariant
            i + p@.len() <= hi - lo,
            lo <= hi <= v@.len(),
            k <= p@.len(),
            forall|j: int| 0 <= j < k ==> v@[lo + i + j] == p@[j],
        decreases p.len() - k,
    {
        if v[lo + i + k] != p[k] {
            let ghost t = v@.subrange(lo as int, hi as int);
            assert(t.subrange(i as int, i + p@.len())[k as int] != p@[k as int]);
            return false;
        }
        k += 1;
    }
    let ghost t = v@.subrange(lo as int, hi as int);
    assert(t.subrange(i as int, i + p@.len()) =~= p@);
    true
}

/// Whether `p` occurs anywhere in the range `lo..hi`.
pub fn contains_range(v: &Vec<char>, lo: usize, hi: usize, p: &Vec<char>) -> (b: bool)
    requires
        lo <= hi <= v@.len(),
    ensures
        b == contains_str(v@.subrange(lo as int, hi as int), p@),
{
    let ghost t = v@.subrange(lo as int, hi as int);
    let mut i: usize = 0;
    while i < hi - lo
        invariant
            lo <= hi <= v@.len(),
            i <= hi - lo,
            t == v@.subrange(lo as int, hi as int),
            forall|j: int| 0 <= j < i ==> !occurs_at(t, p@, j),
        decreases hi - lo - i,
    {
        if occurs_at_range(v, lo, hi, p, i) {
            return true;
        }
        i += 1;
    }
    if occurs_at_range(v, lo, hi, p, i) {
        return true;
    }
    assert forall|j: int| !occurs_at(t, p@, j) by {
        if 0 <= j && j < i {
        }
    }
    false
}

/// `str::find` in the range `lo..hi`: the first position (counted from
/// `lo`) where `p` occurs.
pub fn find_str_range(v: &Vec<char>, lo: usize, hi: usize, p: &Vec<char>) -> (r: Option<usize>)
    requires
        lo <= hi <= v@.len(),
    ensures
        match r {
            Some(i) => find_str(v@.subrange(lo as int, hi as int), p@) == i as int,
            None => find_str(v@.subrange(lo as int, hi as int), p@) == -1,
        },
{
    let ghost t = v@.subrange(lo as int, hi as int);
    let mut i: usize = 0;
    while i < hi - lo
        invariant
            lo <= hi <= v@.len(),
            i <= hi - lo,
            t == v@.subrange(lo as int, hi as int),
            forall|j: int| 0 <= j < i ==> !occurs_at(t, p@, j),
        decreases hi - lo - i,
    {
        if occurs_at_range(v, lo, hi, p, i) {
            proof {
                lemma_first_occurrence(t, p@, i as int);
            }
            return Some(i);
        }
        i += 1;
    }
    if occurs_at_range(v, lo, hi, p, i) {
        proof {
            lemma_first_occurrence(t, p@, i as int);
        }
        return Some(i);
    }
    assert forall|j: int| !occurs_at(t, p@, j) by {
        if 0 <= j && j < i {
        }
    }
    None
}

/// [`find_str`] names an occurrence, and none comes before it.
pub proof fn lemma_find_str_occurs(s: Seq<char>, p: Seq<char>)
    ensures
        find_str(s, p) >= 0 ==> occurs_at(s, p, find_str(s, p)),
        find_str(s, p) >= 0 ==> forall|j: int| 0 <= j < find_str(s, p) ==> !occurs_at(s, p, j),
        find_str(s, p) < 0 ==> !contains_str(s, p),
{
    if contains_str(s, p) {
        let i0 = choose|i: int| occurs_at(s, p, i);
        lemma_min_occurrence(s, p, i0);
    }
}

/// Some occurrence at or before `i` comes first.
proof fn lemma_min_occurrence(s: Seq<char>, p: Seq<char>, i: int)
    requires
        occurs_at(s, p, i),
    ensures
        exists|c: int| occurs_at(s, p, c) && forall|j: int| 0 <= j < c ==> !occurs_at(s, p, j),
    decreases i,
{
    if exists|j: int| 0 <= j < i && occurs_at(s, p, j) {
        let j = choose|j: int| 0 <= j < i && occurs_at(s, p, j);
        lemma_min_occurrence(s, p, j);
    } else {
        assert(forall|j: int| 0 <= j < i ==> !occurs_at(s, p, j));
    }
}

/// The first occurrence is what [`find_str`] names.
pub proof fn lemma_first_occurrence(t: Seq<char>, p: Seq<char>, i: int)
    requires
        occurs_at(t, p, i),
        forall|j: int| 0 <= j < i ==> !occurs_at(t, p, j),
    ensures
        find_str(t, p) == i,
{
    assert(contains_str(t, p));
    let c = choose|c: int| occurs_at(t, p, c) && forall|j: int| 0 <= j < c ==> !occurs_at(t, p, j);
    if c < i {
        assert(!occurs_at(t, p, c));
    } else if c > i {
        assert(!occurs_at(t, p, i));
    }
}

/// Whether `c` occurs in the range `lo..hi`.
pub fn contains_char_range(v: &Vec<char>, lo: usize, hi: usize, c: char) -> (b: bool)
    requires
        lo <= hi <= v@.len(),
    ensures
        b == v@.subrange(lo as int, hi as int).contains(c),
{
    let mut i = lo;
    while i < hi
        invariant
            lo <= i <= hi <= v@.len(),
            forall|j: int| lo <= j < i ==> v@[j] != c,
        decreases hi - i,
    {
        if v[i] == c {
            assert(v@.subrange(lo as int, hi as int)[i - lo] == c);
            return true;
        }
        i += 1;
    }
    assert forall|j: int| 0 <= j < hi - lo implies v@.subrange(lo as int, hi as int)[j] != c by {
        assert(v@.subrange(lo as int, hi as int)[j] == v@[lo + j]);
    }
    false
}

/// `split(c)` of the range `lo..hi`, as ranges of `v`.
pub fn split_range(v: &Vec<char>, lo: usize, hi: usize, c: char) -> (r: Vec<(usize, usize)>)
    requires
        lo <= hi <= v@.len(),
    ensures
        r@.len() == split_char(v@.subrange(lo as int, hi as int), c).len(),
        forall|k: int|
            0 <= k < r@.len() ==> lo <= (#[trigger] r@[k]).0 <= r@[k].1 <= hi && v@.subrange(
                r@[k].0 as int,
                r@[k].1 as int,
            ) == split_char(v@.subrange(lo as int, hi as int), c)[k],
{
    let ghost whole = split_char(v@.subrange(lo as int, hi as int), c);
    let ghost mut acc: Seq<Seq<char>> = seq![];
    let mut r: Vec<(usize, usize)> = Vec::new();
    let mut start = lo;
    let mut i = lo;
    while i < hi
        invariant
            lo <= start <= i <= hi <= v@.len(),
            forall|j: int| start <= j < i ==> v@[j] != c,
            acc.len() == r@.len(),
            forall|k: int|
                0 <= k < r@.len() ==> lo <= (#[trigger] r@[k]).0 <= r@[k].1 <= hi && v@.subrange(
                    r@[k].0 as int,
                    r@[k].1 as int,
                ) == acc[k],
            acc + split_char(v@.subrange(start as int, hi as int), c) == whole,
        decreases hi - i,
    {
        if v[i] == c {
            proof {
                let t = v@.subrange(start as int, hi as int);
                let k = i - start;
                assert forall|j: int| 0 <= j < k implies t[j] != c by {
                    assert(t[j] == v@[start + j]);
                }
                lemma_find_char_at(t, c, k as int);
                assert(t.take(k as int) == v@.subrange(start as int, i as int));
                assert(t.skip(k + 1) == v@.subrange(i + 1, hi as int));
                assert(split_char(t, c) == seq![t.take(k as int)] + split_char(t.skip(k + 1), c));
                assert(acc.push(t.take(k as int)) + split_char(t.skip(k + 1), c) == acc + split_char(t, c));
                acc = acc.push(t.take(k as int));
            }
            r.push((start, i));
            start = i + 1;
        }
        i += 1;
    }
    proof {
        let t = v@.subrange(start as int, hi as int);
        assert forall|j: int| 0 <= j < t.len() implies t[j] != c by {
            assert(t[j] == v@[start + j]);
        }
        lemma_find_char_none(t, c);
        assert(split_char(t, c) == seq![t]);
        assert(acc.push(t) == whole);
        acc = acc.push(t);
    }
    r.push((start, hi));
    r
}

/// `split_whitespace()` of the range `lo..hi`, as ranges of `v`.
pub fn words_range(v: &Vec<char>, lo: usize, hi: usize) -> (r: Vec<(usize, usize)>)
    requires
        lo <= hi <= v@.len(),
    ensures
        r@.len() == words(v@.subrange(lo as int, hi as int)).len(),
        forall|k: int|
            0 <= k < r@.len() ==> lo <= (#[trigger] r@[k]).0 <= r@[k].1 <= hi && v@.subrange(
                r@[k].0 as int,
                r@[k].1 as int,
            ) == words(v@.subrange(lo as int, hi as int))[k],
{
    let mut r: Vec<(usize, usize)> = Vec::new();
    let mut st = lo;
    let mut i = lo;
    while i < hi
        invariant
            lo <= st <= i <= hi <= v@.len(),
            r@.len() == words_acc(v@.subrange(lo as int, i as int)).0.len(),
            forall|k: int|
                0 <= k < r@.len() ==> lo <= (#[trigger] r@[k]).0 <= r@[k].1 <= i && v@.subrange(
                    r@[k].0 as int,
                    r@[k].1 as int,
                ) == words_acc(v@.subrange(lo as int, i as int)).0[k],
            v@.subrange(st as int, i as int) == words_acc(v@.subrange(lo as int, i as int)).1,
        decreases hi - i,
    {
        let ghost pre = v@.subrange(lo as int, i as int);
        let ghost nxt = v@.subrange(lo as int, i + 1);
        assert(nxt.drop_last() == pre);
        assert(nxt.last() == v@[i as int]);
        if is_ws_exec(v[i]) {
            if st < i {
                r.push((st, i));
            }
            i += 1;
            st = i;
        } else {
            i += 1;
            assert(v@.subrange(st as int, i as int) == v@.subrange(st as int, i - 1).push(v@[i - 1]));
        }
    }
    let ghost all = v@.subrange(lo as int, hi as int);
    if st < hi {
        r.push((st, hi));
    }
    r
}

/// The words of a string (`split_whitespace`).
pub fn words_of(s: &str) -> (r: Vec<String>)
    ensures
        strs(r@) == words(s@),
{
    let v = chars_of(s);
    assert(v@.subrange(0, v@.len() as int) == v@);
    let ws = words_range(&v, 0, v.len());
    let mut r: Vec<String> = Vec::new();
    let mut k: usize = 0;
    while k < ws.len()
        invariant
            v@ == s@,
            k <= ws@.len(),
            ws@.len() == words(v@).len(),
            forall|j: int|
                0 <= j < ws@.len() ==> 0 <= (#[trigger] ws@[j]).0 <= ws@[j].1 <= v@.len()
                    && v@.subrange(ws@[j].0 as int, ws@[j].1 as int) == words(v@)[j],
            r@.len() == k,
            strs(r@) == words(v@).take(k as int),
        decreases ws.len() - k,
    {
        let (a, b) = ws[k];
        let w = string_of_range(&v, a, b);
        let ghost before = r@;
        r.push(w);
        proof {
            assert(r@ == before.push(w));
            assert(strs(r@).len() == k + 1);
            assert forall|j: int| 0 <= j < k + 1 implies #[trigger] strs(r@)[j] == words(v@).take(
                k + 1,
            )[j] by {
                if j < k {
                    assert(strs(r@)[j] == r@[j]@);
                    assert(r@[j] == before[j]);
                    assert(strs(before)[j] == before[j]@);
                } else {
                    assert(strs(r@)[j] == w@);
                }
            }
        }
        k += 1;
        assert(strs(r@) =~= words(v@).take(k as int));
    }
    assert(words(v@).take(ws@.len() as int) == words(v@));
    r
}

/// `lines()` of the range `lo..hi`, as ranges of `v`.
pub fn lines_range(v: &Vec<char>, lo: usize, hi: usize) -> (r: Vec<(usize, usize)>)
    requires
        lo <= hi <= v@.len(),
    ensures
        r@.len() == lines(v@.subrange(lo as int, hi as int)).len(),
        forall|k: int|
            0 <= k < r@.len() ==> lo <= (#[trigger] r@[k]).0 <= r@[k].1 <= hi && v@.subrange(
                r@[k].0 as int,
                r@[k].1 as int,
            ) == lines(v@.subrange(lo as int, hi as int))[k],
{
    let ghost whole = lines(v@.subrange(lo as int, hi as int));
    let ghost mut acc: Seq<Seq<char>> = seq![];
    let mut r: Vec<(usize, usize)> = Vec::new();
    let mut start = lo;
    let mut i = lo;
    while i < hi
        invariant
            lo <= start <= i <= hi <= v@.len(),
            forall|j: int| start <= j < i ==> v@[j] != '\n',
            acc.len() == r@.len(),
            forall|k: int|
                0 <= k < r@.len() ==> lo <= (#[trigger] r@[k]).0 <= r@[k].1 <= hi && v@.subrange(
                    r@[k].0 as int,
                    r@[k].1 as int,
                ) == acc[k],
            acc + lines(v@.subrange(start as int, hi as int)) == whole,
        decreases hi - i,
    {
        if v[i] == '\n' {
            let end = if i > start && v[i - 1] == '\r' {
                i - 1
            } else {
                i
            };
            proof {
                let t = v@.subrange(start as int, hi as int);
                let k = i - start;
                assert forall|j: int| 0 <= j < k implies t[j] != '\n' by {
                    assert(t[j] == v@[start + j]);
                }
                lemma_find_char_at(t, '\n', k as int);
                assert(t.take(k as int) == v@.subrange(start as int, i as int));
                assert(strip_cr(t.take(k as int)) == v@.subrange(start as int, end as int));
                assert(t.skip(k + 1) == v@.subrange(i + 1, hi as int));
                assert(lines(t) == seq![strip_cr(t.take(k as int))] + lines(t.skip(k + 1)));
                assert(acc.push(strip_cr(t.take(k as int))) + lines(t.skip(k + 1)) == acc + lines(t));
                acc = acc.push(strip_cr(t.take(k as int)));
            }
            r.push((start, end));
            start = i + 1;
        }
        i += 1;
    }
    if start < hi {
        proof {
            let t = v@.subrange(start as int, hi as int);
            assert forall|j: int| 0 <= j < t.len() implies t[j] != '\n' by {
                assert(t[j] == v@[start + j]);
            }
            lemma_find_char_none(t, '\n');
            assert(lines(t) == seq![t]);
            assert(acc.push(t) == whole);
            acc = acc.push(t);
        }
        r.push((start, hi));
    } else {
        proof {
            let t = v@.subrange(start as int, hi as int);
            assert(t.len() == 0);
            assert(acc == whole);
        }
    }
    r
}

/// Value of a decimal digit.
pub fn digit_val_exec(c: char) -> (d: u32)
    requires
        is_digit(c),
    ensures
        d as int == digit_val(c),
        d < 10,
{
    (c as u32) - ('0' as u32)
}

pub fn is_digit_exec(c: char) -> (b: bool)
    ensures
        b == is_digit(c),
{
    '0' <= c && c <= '9'
}

/// Whether every character of the range is a decimal digit.
pub fn all_digits_range(v: &Vec<char>, lo: usize, hi: usize) -> (b: bool)
    requires
        lo <= hi <= v@.len(),
    ensures
        b == all_digits(v@.subrange(lo as int, hi as int)),
{
    let mut i = lo;
    while i < hi
        invariant
            lo <= i <= hi <= v@.len(),
            forall|j: int| lo <= j < i ==> is_digit(v@[j]),
        decreases hi - i,
    {
        if !is_digit_exec(v[i]) {
            assert(!is_digit(v@.subrange(lo as int, hi as int)[i - lo]));
            return false;
        }
        i += 1;
    }
    assert forall|j: int| 0 <= j < hi - lo implies is_digit(
        #[trigger] v@.subrange(lo as int, hi as int)[j],
    ) by {
        assert(v@.subrange(lo as int, hi as int)[j] == v@[lo + j]);
    }
    true
}

/// Value of the decimal digits `lo..hi`, or `None` when it exceeds `max`.
pub fn dec_value_bounded(v: &Vec<char>, lo: usize, hi: usize, max: u64) -> (r: Option<u64>)
    requires
        lo <= hi <= v@.len(),
        all_digits(v@.subrange(lo as int, hi as int)),
    ensures
        match r {
            Some(x) => x as int == dec_value(v@.subrange(lo as int, hi as int)) && x <= max,
            None => dec_value(v@.subrange(lo as int, hi as int)) > max,
        },
{
    let ghost t = v@.subrange(lo as int, hi as int);
    let mut acc: u64 = 0;
    let mut i = lo;
    while i < hi
        invariant
            lo <= i <= hi <= v@.len(),
            t == v@.subrange(lo as int, hi as int),
            all_digits(t),
            acc as int == dec_value(t.take(i - lo)),
            acc <= max,
        decreases hi - i,
    {
        assert(is_digit(t[i - lo]));
        let d = digit_val_exec(v[i]);
        assert(t.take(i - lo + 1).drop_last() == t.take(i - lo));
        assert(t.take(i - lo + 1).last() == v@[i as int]);
        if d as u64 > max || acc > (max - d as u64) / 10 {
            proof {
                assert(dec_value(t.take(i - lo + 1)) > max) by (nonlinear_arith)
                    requires
                        dec_value(t.take(i - lo + 1)) == acc * 10 + d,
                        d > max || acc > (max - d) / 10,
                        d < 10,
                        acc >= 0,
                ;
                lemma_dec_value_mono(t, i - lo + 1);
            }
            return None;
        }
        assert(acc * 10 + d <= max) by (nonlinear_arith)
            requires
                acc <= (max - d) / 10,
                d < 10,
                acc <= max,
        ;
        acc = acc * 10 + d as u64;
        i += 1;
    }
    assert(t.take(hi - lo) == t);
    Some(acc)
}

/// `parse::<uN>()` of the range `lo..hi`, for a type whose maximum is `max`.
pub fn parse_uint_range(v: &Vec<char>, lo: usize, hi: usize, max: u64) -> (r: Option<u64>)
    requires
        lo <= hi <= v@.len(),
    ensures
        match r {
            Some(x) => parse_uint(v@.subrange(lo as int, hi as int), max as int) == Some(x as int),
            None => parse_uint(v@.subrange(lo as int, hi as int), max as int) is None,
        },
{
    let ghost t = v@.subrange(lo as int, hi as int);
    let a = if lo < hi && v[lo] == '+' {
        lo + 1
    } else {
        lo
    };
    assert(v@.subrange(a as int, hi as int) == (if t.len() > 0 && t[0] == '+' {
        t.drop_first()
    } else {
        t
    }));
    if a == hi || !all_digits_range(v, a, hi) {
        return None;
    }
    dec_value_bounded(v, a, hi, max)
}

/// `parse::<u64>()` of a whole string.
pub fn parse_u64(s: &str) -> (r: Option<u64>)
    ensures
        match r {
            Some(x) => parse_uint(s@, u64::MAX as int) == Some(x as int),
            None => parse_uint(s@, u64::MAX as int) is None,
        },
{
    let v = chars_of(s);
    assert(v@.subrange(0, v@.len() as int) == v@);
    parse_uint_range(&v, 0, v.len(), u64::MAX)
}

/// `parse::<i64>()` of the range `lo..hi`.
pub fn parse_i64_range(v: &Vec<char>, lo: usize, hi: usize) -> (r: Option<i64>)
    requires
        lo <= hi <= v@.len(),
    ensures
        match r {
            Some(x) => parse_int(v@.subrange(lo as int, hi as int), i64::MIN as int, i64::MAX as int)
                == Some(x as int),
            None => parse_int(v@.subrange(lo as int, hi as int), i64::MIN as int, i64::MAX as int) is None,
        },
{
    match parse_int_range(v, lo, hi, 9223372036854775808u64, 9223372036854775807u64) {
        Some((neg, x)) => {
            if neg {
                if x == 9223372036854775808u64 {
                    Some(i64::MIN)
                } else {
                    Some(-(x as i64))
                }
            } else {
                Some(x as i64)
            }
        },
        None => None,
    }
}

/// `parse::<iN>()` of the range `lo..hi` for the range `-neg_max..=max`.
pub fn parse_int_range(v: &Vec<char>, lo: usize, hi: usize, neg_max: u64, max: u64) -> (r: Option<(bool, u64)>)
    requires
        lo <= hi <= v@.len(),
    ensures
        match r {
            Some((neg, x)) => parse_int(v@.subrange(lo as int, hi as int), -(neg_max as int), max as int)
                == Some(if neg { -(x as int) } else { x as int }) && (neg ==> x <= neg_max) && (!neg ==> x <= max),
            None => parse_int(v@.subrange(lo as int, hi as int), -(neg_max as int), max as int) is None,
        },
{
    let ghost t = v@.subrange(lo as int, hi as int);
    if lo < hi && v[lo] == '-' {
        assert(v@.subrange(lo + 1, hi as int) == t.drop_first());
        if lo + 1 == hi || !all_digits_range(v, lo + 1, hi) {
            return None;
        }
        match dec_value_bounded(v, lo + 1, hi, neg_max) {
            Some(x) => Some((true, x)),
            None => None,
        }
    } else {
        match parse_uint_range(v, lo, hi, max) {
            Some(x) => Some((false, x)),
            None => None,
        }
    }
}

pub proof fn lemma_dec_str_len(n: nat)
    ensures
        dec_str(n).len() >= 1,
        n < 10 ==> dec_str(n).len() == 1,
    decreases n,
{
    if n >= 10 {
        lemma_dec_str_len(n / 10);
    }
}

/// The decimal text of `n` is made of digits and reads back as `n`.
pub proof fn lemma_dec_str_value(n: nat)
    ensures
        all_digits(dec_str(n)),
        dec_value(dec_str(n)) == n,
    decreases n,
{
    let s = dec_str(n);
    if n < 10 {
        assert(s.drop_last().len() == 0);
        assert(dec_value(s.drop_last()) == 0);
        assert((n + ('0' as int)) as char as int == n + ('0' as int));
    } else {
        lemma_dec_str_value(n / 10);
        let d = (n % 10) as int;
        assert(s.drop_last() == dec_str(n / 10));
        assert((d + ('0' as int)) as char as int == d + ('0' as int));
        assert(digit_val(s.last()) == d);
        assert(n == (n / 10) * 10 + d) by (nonlinear_arith)
            requires
                d == (n % 10) as int,
        ;
        assert forall|i: int| 0 <= i < s.len() implies is_digit(#[trigger] s[i]) by {
            if i < s.len() - 1 {
                assert(s[i] == dec_str(n / 10)[i]);
            }
        }
    }
}

/// Decimal text of `n` appended to `s`.
pub fn push_dec(s: &mut String, n: u64)
    ensures
        final(s)@ == old(s)@ + dec_str(n as nat),
    decreases n,
{
    if n < 10 {
        push_char(s, ((n as u8) + 48u8) as char);
        assert(dec_str(n as nat) == seq![digit_char(n as int)]);
    } else {
        let ghost s0 = s@;
        push_dec(s, n / 10);
        push_char(s, (((n % 10) as u8) + 48u8) as char);
        assert(s@ == s0 + dec_str(n as nat));
    }
}

/// Decimal text of `n`.
pub fn dec_string(n: u64) -> (s: String)
    ensures
        s@ == dec_str(n as nat),
{
    let mut s = String::new();
    push_dec(&mut s, n);
    assert(s@ == Seq::<char>::empty() + dec_str(n as nat));
    s
}

/// Decimal text of a signed integer appended to `s`.
pub fn push_int(s: &mut String, n: i64)
    ensures
        final(s)@ == old(s)@ + int_str(n as int),
{
    if n < 0 {
        let ghost s0 = s@;
        push_char(s, '-');
        let m: u64 = if n == i64::MIN {
            9223372036854775808u64
        } else {
            (-n) as u64
        };
        push_dec(s, m);
        assert(s@ == s0 + int_str(n as int));
    } else {
        push_dec(s, n as u64);
    }
}

/// Lower-case hexadecimal text of `n` appended to `s`.
pub fn push_hex(s: &mut String, n: u64)
    ensures
        final(s)@ == old(s)@ + hex_str(n as nat),
    decreases n,
{
    let d = n % 16;
    let c: char = if d < 10 {
        ((d as u8) + 48u8) as char
    } else {
        ((d as u8) - 10 + 97u8) as char
    };
    assert(c == hex_digit_lower(d as int));
    if n < 16 {
        push_char(s, c);
    } else {
        let ghost s0 = s@;
        push_hex(s, n / 16);
        push_char(s, c);
        assert(s@ == s0 + hex_str(n as nat));
    }
}

/// Strings joined with a separator.
pub fn join_strings(parts: &[String], sep: &str) -> (r: String)
    ensures
        r@ == join(strs(parts@), sep@),
{
    let mut r = String::new();
    let mut k: usize = 0;
    while k < parts.len()
        invariant
            k <= parts@.len(),
            r@ == join(strs(parts@.take(k as int)), sep@),
        decreases parts.len() - k,
    {
        let ghost before = strs(parts@.take(k as int));
        let ghost after = strs(parts@.take(k + 1));
        assert(after.drop_last() == before);
        assert(after.last() == parts@[k as int]@);
        if k > 0 {
            push_str(&mut r, sep);
        }
        push_str(&mut r, parts[k].as_str());
        proof {
            if k == 0 {
                assert(before.len() == 0);
                assert(join(before, sep@) == Seq::<char>::empty());
                assert(after.len() == 1);
                assert(r@ == after[0]);
            }
        }
        k += 1;
    }
    assert(parts@.take(parts@.len() as int) == parts@);
    r
}

/// Copy of the range `lo..hi` with every `from` replaced by `to`.
pub fn replace_char_range(v: &Vec<char>, lo: usize, hi: usize, from: char, to: char) -> (r: Vec<char>)
    requires
        lo <= hi <= v@.len(),
    ensures
        r@ == replace_char(v@.subrange(lo as int, hi as int), from, to),
{
    let mut r: Vec<char> = Vec::new();
    let mut i = lo;
    while i < hi
        invariant
            lo <= i <= hi <= v@.len(),
            r@ == replace_char(v@.subrange(lo as int, i as int), from, to),
        decreases hi - i,
    {
        let c = v[i];
        r.push(if c == from { to } else { c });
        i += 1;
        assert(r@ =~= replace_char(v@.subrange(lo as int, i as int), from, to));
    }
    r
}

/// Whether the range `lo..hi` holds exactly the characters of `s`.
pub fn range_eq_str(v: &Vec<char>, lo: usize, hi: usize, s: &str) -> (b: bool)
    requires
        lo <= hi <= v@.len(),
    ensures
        b == (v@.subrange(lo as int, hi as int) == s@),
{
    let p = chars_of(s);
    if p.len() != hi - lo {
        return false;
    }
    let r = starts_with_range(v, lo, hi, &p);
    proof {
        let t = v@.subrange(lo as int, hi as int);
        assert(t.take(p@.len() as int) == t);
    }
    r
}

/// Whether the range `lo..hi` starts with `p`.
pub fn range_starts_with_str(v: &Vec<char>, lo: usize, hi: usize, p: &str) -> (b: bool)
    requires
        lo <= hi <= v@.len(),
    ensures
        b == starts_with(v@.subrange(lo as int, hi as int), p@),
{
    let pv = chars_of(p);
    starts_with_range(v, lo, hi, &pv)
}

/// Whether `p` occurs in the range `lo..hi`.
pub fn range_contains_str(v: &Vec<char>, lo: usize, hi: usize, p: &str) -> (b: bool)
    requires
        lo <= hi <= v@.len(),
    ensures
        b == contains_str(v@.subrange(lo as int, hi as int), p@),
{
    let pv = chars_of(p);
    contains_range(v, lo, hi, &pv)
}

/// Whether two strings hold the same characters.
pub fn str_eq(a: &str, b: &str) -> (r: bool)
    ensures
        r == (a@ == b@),
{
    let va = chars_of(a);
    let vb = chars_of(b);
    if va.len() != vb.len() {
        return false;
    }
    let mut i: usize = 0;
    while i < va.len()
        invariant
            va@.len() == vb@.len(),
            i <= va@.len(),
            va@ == a@,
            vb@ == b@,
            forall|j: int| 0 <= j < i ==> va@[j] == vb@[j],
        decreases va.len() - i,
    {
        if va[i] != vb[i] {
            return false;
        }
        i += 1;
    }
    assert(va@ =~= vb@);
    true
}

pub fn is_hex_exec(c: char) -> (b: bool)
    ensures
        b == is_hex(c),
{
    ('0' <= c && c <= '9') || ('a' <= c && c <= 'f') || ('A' <= c && c <= 'F')
}

} // verus!
