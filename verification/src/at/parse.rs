//! Parsing of AT responses: the one place that splits `+XXX: a,b,"c"` lines
//! into fields.
//!
//! * [`rows`]: every line that starts with the prefix, split into fields;
//! * [`first`]: the first such row;
//! * [`scalar`]: the value of a single-value command (`AT+CGMI` and alike);
//! * [`first_ipv4`]: the first dotted IPv4 token of a response.
use crate::text::{
    all_digits, chars_of, join, lines, lines_range, range_contains_str, range_eq_str,
    range_starts_with_str, replace_char, replace_char_range, split_char, split_range,
    starts_with, starts_with_range, string_of_range, strs, trim, trim_char, trim_char_range,
    trim_range, trim_start, trim_start_char, trim_start_range, trim_start_char_range, contains_str, is_digit,
};
use vstd::prelude::*;

verus! {

// ---------------------------------------------------------------- spec side

/// A field as the parser returns it: trimmed, surrounding quotes removed.
pub open spec fn field_text(f: Seq<char>) -> Seq<char> {
    trim_char(trim(f), '"')
}

/// What follows the prefix on a matching (trimmed) line: trimmed, leading
/// `:` dropped, trimmed again.
pub open spec fn after_prefix(l: Seq<char>, p: Seq<char>) -> Seq<char> {
    trim(trim_start_char(trim(l.skip(p.len() as int)), ':'))
}

/// The fields of a matching (trimmed) line.
pub open spec fn row_of(l: Seq<char>, p: Seq<char>) -> Seq<Seq<char>> {
    split_char(after_prefix(l, p), ',').map_values(|f: Seq<char>| field_text(f))
}

/// The rows of the lines that start (once trimmed) with `p`.
pub open spec fn rows_of(ls: Seq<Seq<char>>, p: Seq<char>) -> Seq<Seq<Seq<char>>>
    decreases ls.len(),
{
    if ls.len() == 0 {
        seq![]
    } else {
        let prev = rows_of(ls.drop_last(), p);
        let l = trim(ls.last());
        if starts_with(l, p) {
            prev.push(row_of(l, p))
        } else {
            prev
        }
    }
}

/// The rows of a response (see [`rows`]).
pub open spec fn spec_rows(resp: Seq<char>, p: Seq<char>) -> Seq<Seq<Seq<char>>> {
    rows_of(lines(resp), p)
}

/// The first row of a response, or no fields at all.
pub open spec fn spec_first(resp: Seq<char>, p: Seq<char>) -> Seq<Seq<char>> {
    let rs = spec_rows(resp, p);
    if rs.len() > 0 {
        rs[0]
    } else {
        seq![]
    }
}

/// Field `idx` of the first row, when present and not empty.
pub open spec fn spec_field(resp: Seq<char>, p: Seq<char>, idx: int) -> Option<Seq<char>> {
    let f = spec_first(resp, p);
    if 0 <= idx < f.len() && f[idx].len() > 0 {
        Some(f[idx])
    } else {
        None
    }
}

/// A result-code line: once trimmed, `OK`, `ERROR`, `BUSY`, `NO CARRIER`,
/// `NO ANSWER`, `NO DIALTONE`, or a `+CME ERROR` / `+CMS ERROR` report.
pub open spec fn spec_is_result_code(line: Seq<char>) -> bool {
    result_code_text(trim(line))
}

/// An already trimmed result-code line.
pub open spec fn result_code_text(l: Seq<char>) -> bool {
    ||| l == "OK"@
    ||| l == "ERROR"@
    ||| l == "BUSY"@
    ||| l == "NO CARRIER"@
    ||| l == "NO ANSWER"@
    ||| l == "NO DIALTONE"@
    ||| starts_with(l, "+CME ERROR"@)
    ||| starts_with(l, "+CMS ERROR"@)
}

/// The value of a single-value command, scanning lines in order: blank lines
/// and result codes are skipped; a line with the prefix gives what follows
/// it (unquoted) when that is not empty; the first other line not starting
/// with `+` gives itself, unquoted.
pub open spec fn scalar_of(ls: Seq<Seq<char>>, p: Seq<char>) -> Option<Seq<char>>
    decreases ls.len(),
{
    if ls.len() == 0 {
        None
    } else {
        let l = trim(ls[0]);
        if l.len() == 0 || result_code_text(l) {
            scalar_of(ls.drop_first(), p)
        } else if starts_with(l, p) {
            let v = trim_char(after_prefix(l, p), '"');
            if v.len() > 0 {
                Some(v)
            } else {
                scalar_of(ls.drop_first(), p)
            }
        } else if l[0] != '+' {
            Some(trim_char(l, '"'))
        } else {
            scalar_of(ls.drop_first(), p)
        }
    }
}

/// The last line that is not blank, trimmed.
pub open spec fn last_nonblank(ls: Seq<Seq<char>>) -> Option<Seq<char>>
    decreases ls.len(),
{
    if ls.len() == 0 {
        None
    } else if trim(ls.last()).len() > 0 {
        Some(trim(ls.last()))
    } else {
        last_nonblank(ls.drop_last())
    }
}

/// A separator between the tokens [`first_ipv4`] looks at.
pub open spec fn is_token_sep(c: char) -> bool {
    c == ',' || c == '"' || c == ' '
}

/// The pieces of a line between `,`, `"` and space characters.
pub open spec fn tokens(l: Seq<char>) -> Seq<Seq<char>> {
    split_char(l.map_values(|c: char| if is_token_sep(c) { ',' } else { c }), ',')
}

/// An IPv4-looking token: four dot-separated pieces of digits, not starting
/// with `0.0.0.0`, and not `255.255.255.255`.
pub open spec fn ipv4_token(t: Seq<char>) -> bool {
    &&& split_char(t, '.').len() == 4
    &&& forall|i: int| 0 <= i < t.len() ==> is_digit(#[trigger] t[i]) || t[i] == '.'
    &&& !starts_with(t, "0.0.0.0"@)
    &&& t != "255.255.255.255"@
}

/// The first IPv4-looking token (trimmed) among `ts`.
pub open spec fn ipv4_in_tokens(ts: Seq<Seq<char>>) -> Option<Seq<char>>
    decreases ts.len(),
{
    if ts.len() == 0 {
        None
    } else if ipv4_token(trim(ts[0])) {
        Some(trim(ts[0]))
    } else {
        ipv4_in_tokens(ts.drop_first())
    }
}

/// The first IPv4-looking token of the first line that has one.
pub open spec fn first_ipv4_of(ls: Seq<Seq<char>>) -> Option<Seq<char>>
    decreases ls.len(),
{
    if ls.len() == 0 {
        None
    } else {
        match ipv4_in_tokens(tokens(ls[0])) {
            Some(t) => Some(t),
            None => first_ipv4_of(ls.drop_first()),
        }
    }
}

/// The lines whose text starts (after leading whitespace) with `p`, trimmed.
pub open spec fn prefixed_lines(ls: Seq<Seq<char>>, p: Seq<char>) -> Seq<Seq<char>>
    decreases ls.len(),
{
    if ls.len() == 0 {
        seq![]
    } else {
        let prev = prefixed_lines(ls.drop_last(), p);
        if starts_with(trim_start(ls.last()), p) {
            prev.push(trim(ls.last()))
        } else {
            prev
        }
    }
}

/// At most the first `n` elements.
pub open spec fn take_at_most<A>(s: Seq<A>, n: int) -> Seq<A> {
    if s.len() <= n {
        s
    } else {
        s.take(n)
    }
}

/// Views of rows of strings.
pub open spec fn rows_view(r: Seq<Vec<String>>) -> Seq<Seq<Seq<char>>> {
    r.map_values(|row: Vec<String>| strs(row@))
}

// ---------------------------------------------------------------- exec side

/// The fields of the trimmed line `v[a..b]` that starts with a prefix of
/// `plen` characters.
fn row_at(v: &Vec<char>, a: usize, b: usize, p: Ghost<Seq<char>>, plen: usize) -> (r: Vec<String>)
    requires
        a <= b <= v@.len(),
        plen == p@.len(),
        starts_with(v@.subrange(a as int, b as int), p@),
    ensures
        strs(r@) == row_of(v@.subrange(a as int, b as int), p@),
{
    let ghost l = v@.subrange(a as int, b as int);
    assert(l.skip(plen as int) == v@.subrange(a + plen, b as int));
    let (x1, y1) = trim_range(v, a + plen, b);
    let x2 = trim_start_char_range(v, x1, y1, ':');
    let (x3, y3) = trim_range(v, x2, y1);
    assert(v@.subrange(x3 as int, y3 as int) == after_prefix(l, p@));
    let pieces = split_range(v, x3, y3, ',');
    let ghost parts = split_char(after_prefix(l, p@), ',');
    let mut out: Vec<String> = Vec::new();
    let mut k: usize = 0;
    while k < pieces.len()
        invariant
            x3 <= y3 <= v@.len(),
            v@.subrange(x3 as int, y3 as int) == after_prefix(l, p@),
            parts == split_char(after_prefix(l, p@), ','),
            pieces@.len() == parts.len(),
            forall|j: int|
                0 <= j < pieces@.len() ==> x3 <= (#[trigger] pieces@[j]).0 <= pieces@[j].1 <= y3
                    && v@.subrange(pieces@[j].0 as int, pieces@[j].1 as int) == parts[j],
            k <= pieces@.len(),
            out@.len() == k,
            forall|j: int| 0 <= j < k ==> (#[trigger] out@[j])@ == field_text(parts[j]),
        decreases pieces.len() - k,
    {
        let (s, e) = pieces[k];
        let (s1, e1) = trim_range(v, s, e);
        let (s2, e2) = trim_char_range(v, s1, e1, '"');
        out.push(string_of_range(v, s2, e2));
        k += 1;
    }
    assert(strs(out@) =~= row_of(l, p@));
    out
}

/// The fields of every line of `resp` that starts (once trimmed) with
/// `prefix`: split at `,`, each field trimmed and unquoted.
pub fn rows(resp: &str, prefix: &str) -> (r: Vec<Vec<String>>)
    ensures
        rows_view(r@) == spec_rows(resp@, prefix@),
{
    let v = chars_of(resp);
    let pv = chars_of(prefix);
    assert(v@.subrange(0, v@.len() as int) == v@);
    let ls = lines_range(&v, 0, v.len());
    let ghost all = lines(v@);
    let mut out: Vec<Vec<String>> = Vec::new();
    let mut k: usize = 0;
    while k < ls.len()
        invariant
            v@ == resp@,
            pv@ == prefix@,
            all == lines(v@),
            ls@.len() == all.len(),
            forall|j: int|
                0 <= j < ls@.len() ==> 0 <= (#[trigger] ls@[j]).0 <= ls@[j].1 <= v@.len()
                    && v@.subrange(ls@[j].0 as int, ls@[j].1 as int) == all[j],
            k <= ls@.len(),
            rows_view(out@) == rows_of(all.take(k as int), prefix@),
        decreases ls.len() - k,
    {
        let (a, b) = ls[k];
        let (ta, tb) = trim_range(&v, a, b);
        let ghost before = all.take(k as int);
        let ghost after = all.take(k + 1);
        assert(after.drop_last() == before);
        assert(after.last() == all[k as int]);
        if starts_with_range(&v, ta, tb, &pv) {
            let row = row_at(&v, ta, tb, Ghost(prefix@), pv.len());
            out.push(row);
            assert(rows_view(out@) =~= rows_view(out@.drop_last()).push(strs(row@)));
        }
        k += 1;
    }
    assert(all.take(all.len() as int) == all);
    out
}

/// The first row of [`rows`], or no fields.
pub fn first(resp: &str, prefix: &str) -> (r: Vec<String>)
    ensures
        strs(r@) == spec_first(resp@, prefix@),
{
    let mut rs = rows(resp, prefix);
    if rs.len() > 0 {
        let ghost rv = rows_view(rs@);
        assert(rv[0] == strs(rs@[0]@));
        rs.swap_remove(0)
    } else {
        let e: Vec<String> = Vec::new();
        assert(strs(e@) =~= Seq::<Seq<char>>::empty());
        e
    }
}

/// Field `idx` of the first matching row; `None` when out of range or empty.
pub fn field(resp: &str, prefix: &str, idx: usize) -> (r: Option<String>)
    ensures
        match r {
            Some(x) => spec_field(resp@, prefix@, idx as int) == Some(x@),
            None => spec_field(resp@, prefix@, idx as int) is None,
        },
{
    let f = first(resp, prefix);
    if idx < f.len() {
        assert(strs(f@)[idx as int] == f@[idx as int]@);
        if !f[idx].as_str().is_empty() {
            return Some(f[idx].clone());
        }
    }
    None
}

/// Whether the trimmed `line` is an AT result code.
pub fn is_result_code(line: &str) -> (b: bool)
    ensures
        b == spec_is_result_code(line@),
{
    let v = chars_of(line);
    assert(v@.subrange(0, v@.len() as int) == v@);
    let (a, b) = trim_range(&v, 0, v.len());
    result_code_range(&v, a, b)
}

/// [`result_code_text`] of a range.
fn result_code_range(v: &Vec<char>, a: usize, b: usize) -> (r: bool)
    requires
        a <= b <= v@.len(),
    ensures
        r == result_code_text(v@.subrange(a as int, b as int)),
{
    range_eq_str(v, a, b, "OK") || range_eq_str(v, a, b, "ERROR") || range_eq_str(v, a, b, "BUSY")
        || range_eq_str(v, a, b, "NO CARRIER") || range_eq_str(v, a, b, "NO ANSWER")
        || range_eq_str(v, a, b, "NO DIALTONE") || range_starts_with_str(v, a, b, "+CME ERROR")
        || range_starts_with_str(v, a, b, "+CMS ERROR")
}

/// The value of a single-value command (`AT+CGMI`, `AT+GTUSBMODE?`, ...):
/// what follows `prefix` on its line, or else the first bare line that is
/// neither blank nor a result code.
pub fn scalar(resp: &str, prefix: &str) -> (r: Option<String>)
    ensures
        match r {
            Some(x) => scalar_of(lines(resp@), prefix@) == Some(x@),
            None => scalar_of(lines(resp@), prefix@) is None,
        },
{
    let v = chars_of(resp);
    let pv = chars_of(prefix);
    assert(v@.subrange(0, v@.len() as int) == v@);
    let ls = lines_range(&v, 0, v.len());
    let ghost all = lines(v@);
    let mut k: usize = 0;
    assert(all.skip(0) == all);
    while k < ls.len()
        invariant
            v@ == resp@,
            pv@ == prefix@,
            all == lines(v@),
            ls@.len() == all.len(),
            forall|j: int|
                0 <= j < ls@.len() ==> 0 <= (#[trigger] ls@[j]).0 <= ls@[j].1 <= v@.len()
                    && v@.subrange(ls@[j].0 as int, ls@[j].1 as int) == all[j],
            k <= ls@.len(),
            scalar_of(all, prefix@) == scalar_of(all.skip(k as int), prefix@),
        decreases ls.len() - k,
    {
        let ghost rest = all.skip(k as int);
        assert(rest[0] == all[k as int]);
        assert(rest.drop_first() == all.skip(k + 1));
        let (a0, b0) = ls[k];
        let (a, b) = trim_range(&v, a0, b0);
        let ghost l = v@.subrange(a as int, b as int);
        if a == b || result_code_range(&v, a, b) {
            k += 1;
            continue;
        }
        if starts_with_range(&v, a, b, &pv) {
            let plen = pv.len();
            assert(l.skip(plen as int) == v@.subrange(a + plen, b as int));
            let (x1, y1) = trim_range(&v, a + plen, b);
            let x2 = trim_start_char_range(&v, x1, y1, ':');
            let (x3, y3) = trim_range(&v, x2, y1);
            let (x4, y4) = trim_char_range(&v, x3, y3, '"');
            if x4 < y4 {
                return Some(string_of_range(&v, x4, y4));
            }
            k += 1;
            continue;
        }
        if v[a] != '+' {
            let (x, y) = trim_char_range(&v, a, b, '"');
            return Some(string_of_range(&v, x, y));
        }
        k += 1;
    }
    None
}

/// Whether the last non-blank line of the response is `OK`.
pub fn is_ok(resp: &str) -> (b: bool)
    ensures
        b == (last_nonblank(lines(resp@)) == Some("OK"@)),
{
    let v = chars_of(resp);
    assert(v@.subrange(0, v@.len() as int) == v@);
    let ls = lines_range(&v, 0, v.len());
    let ghost all = lines(v@);
    let mut last: Option<(usize, usize)> = None;
    let mut k: usize = 0;
    while k < ls.len()
        invariant
            v@ == resp@,
            all == lines(v@),
            ls@.len() == all.len(),
            forall|j: int|
                0 <= j < ls@.len() ==> 0 <= (#[trigger] ls@[j]).0 <= ls@[j].1 <= v@.len()
                    && v@.subrange(ls@[j].0 as int, ls@[j].1 as int) == all[j],
            k <= ls@.len(),
            match last {
                Some((a, b)) => a <= b <= v@.len() && last_nonblank(all.take(k as int)) == Some(
                    v@.subrange(a as int, b as int),
                ),
                None => last_nonblank(all.take(k as int)) is None,
            },
        decreases ls.len() - k,
    {
        let ghost before = all.take(k as int);
        let ghost after = all.take(k + 1);
        assert(after.drop_last() == before);
        assert(after.last() == all[k as int]);
        let (a0, b0) = ls[k];
        let (a, b) = trim_range(&v, a0, b0);
        if a < b {
            last = Some((a, b));
        }
        k += 1;
    }
    assert(all.take(all.len() as int) == all);
    match last {
        Some((a, b)) => range_eq_str(&v, a, b, "OK"),
        None => false,
    }
}

/// Whether the response mentions `ERROR` (also `+CME ERROR` / `+CMS ERROR`).
pub fn has_error(resp: &str) -> (b: bool)
    ensures
        b == contains_str(resp@, "ERROR"@),
{
    let v = chars_of(resp);
    assert(v@.subrange(0, v@.len() as int) == v@);
    range_contains_str(&v, 0, v.len(), "ERROR")
}

/// Whether the token `v[a..b]` looks like an IPv4 (see [`ipv4_token`]).
fn ipv4_token_range(v: &Vec<char>, a: usize, b: usize) -> (r: bool)
    requires
        a <= b <= v@.len(),
    ensures
        r == ipv4_token(v@.subrange(a as int, b as int)),
{
    let ghost t = v@.subrange(a as int, b as int);
    if split_range(v, a, b, '.').len() != 4 {
        return false;
    }
    let mut i = a;
    while i < b
        invariant
            a <= i <= b <= v@.len(),
            t == v@.subrange(a as int, b as int),
            forall|j: int| 0 <= j < i - a ==> is_digit(#[trigger] t[j]) || t[j] == '.',
        decreases b - i,
    {
        let c = v[i];
        if !(('0' <= c && c <= '9') || c == '.') {
            assert(!(is_digit(t[i - a]) || t[i - a] == '.'));
            return false;
        }
        i += 1;
    }
    !range_starts_with_str(v, a, b, "0.0.0.0") && !range_eq_str(v, a, b, "255.255.255.255")
}

/// The first dotted IPv4 token of the response (tokens are separated by `,`,
/// `"` and spaces); `0.0.0.0...` and `255.255.255.255` are skipped.
pub fn first_ipv4(resp: &str) -> (r: Option<String>)
    ensures
        match r {
            Some(x) => first_ipv4_of(lines(resp@)) == Some(x@),
            None => first_ipv4_of(lines(resp@)) is None,
        },
{
    let v = chars_of(resp);
    assert(v@.subrange(0, v@.len() as int) == v@);
    let ls = lines_range(&v, 0, v.len());
    let ghost all = lines(v@);
    let mut k: usize = 0;
    assert(all.skip(0) == all);
    while k < ls.len()
        invariant
            v@ == resp@,
            all == lines(v@),
            ls@.len() == all.len(),
            forall|j: int|
                0 <= j < ls@.len() ==> 0 <= (#[trigger] ls@[j]).0 <= ls@[j].1 <= v@.len()
                    && v@.subrange(ls@[j].0 as int, ls@[j].1 as int) == all[j],
            k <= ls@.len(),
            first_ipv4_of(all) == first_ipv4_of(all.skip(k as int)),
        decreases ls.len() - k,
    {
        let ghost rest = all.skip(k as int);
        assert(rest[0] == all[k as int]);
        assert(rest.drop_first() == all.skip(k + 1));
        let (a, b) = ls[k];
        let mapped = map_token_seps(&v, a, b);
        assert(mapped@.subrange(0, mapped@.len() as int) == mapped@);
        let toks = split_range(&mapped, 0, mapped.len(), ',');
        let ghost ts = tokens(all[k as int]);
        let mut j: usize = 0;
        assert(ts.skip(0) == ts);
        while j < toks.len()
            invariant
                v@ == resp@,
                all == lines(v@),
                k < all.len(),
                rest == all.skip(k as int),
                rest[0] == all[k as int],
                rest.drop_first() == all.skip(k + 1),
                first_ipv4_of(all) == first_ipv4_of(rest),
                ts == tokens(all[k as int]),
                toks@.len() == ts.len(),
                ts == split_char(mapped@, ','),
                forall|m: int|
                    0 <= m < toks@.len() ==> 0 <= (#[trigger] toks@[m]).0 <= toks@[m].1
                        <= mapped@.len() && mapped@.subrange(toks@[m].0 as int, toks@[m].1 as int)
                        == ts[m],
                j <= toks@.len(),
                ipv4_in_tokens(ts) == ipv4_in_tokens(ts.skip(j as int)),
            decreases toks.len() - j,
        {
            let ghost trest = ts.skip(j as int);
            assert(trest[0] == ts[j as int]);
            assert(trest.drop_first() == ts.skip(j + 1));
            let (s, e) = toks[j];
            let (s1, e1) = trim_range(&mapped, s, e);
            if ipv4_token_range(&mapped, s1, e1) {
                return Some(string_of_range(&mapped, s1, e1));
            }
            j += 1;
        }
        assert(ts.skip(toks@.len() as int).len() == 0);
        k += 1;
    }
    None
}

/// The range `v[a..b]` with every token separator turned into `,`.
fn map_token_seps(v: &Vec<char>, a: usize, b: usize) -> (r: Vec<char>)
    requires
        a <= b <= v@.len(),
    ensures
        r@ == v@.subrange(a as int, b as int).map_values(
            |c: char|
                if is_token_sep(c) {
                    ','
                } else {
                    c
                },
        ),
{
    let mut r: Vec<char> = Vec::new();
    let mut i = a;
    while i < b
        invariant
            a <= i <= b <= v@.len(),
            r@ == v@.subrange(a as int, i as int).map_values(
                |c: char|
                    if is_token_sep(c) {
                        ','
                    } else {
                        c
                    },
            ),
        decreases b - i,
    {
        let c = v[i];
        r.push(if c == ',' || c == '"' || c == ' ' { ',' } else { c });
        i += 1;
        assert(r@ =~= v@.subrange(a as int, i as int).map_values(
            |c: char|
                if is_token_sep(c) {
                    ','
                } else {
                    c
                },
        ));
    }
    r
}

/// The lines whose text starts (after leading whitespace) with `prefix`,
/// trimmed, at most `limit` of them.
pub fn raw_lines(resp: &str, prefix: &str, limit: usize) -> (r: Vec<String>)
    ensures
        strs(r@) == take_at_most(prefixed_lines(lines(resp@), prefix@), limit as int),
{
    let v = chars_of(resp);
    let pv = chars_of(prefix);
    assert(v@.subrange(0, v@.len() as int) == v@);
    let ls = lines_range(&v, 0, v.len());
    let ghost all = lines(v@);
    let mut out: Vec<String> = Vec::new();
    let mut k: usize = 0;
    while k < ls.len()
        invariant
            v@ == resp@,
            pv@ == prefix@,
            all == lines(v@),
            ls@.len() == all.len(),
            forall|j: int|
                0 <= j < ls@.len() ==> 0 <= (#[trigger] ls@[j]).0 <= ls@[j].1 <= v@.len()
                    && v@.subrange(ls@[j].0 as int, ls@[j].1 as int) == all[j],
            k <= ls@.len(),
            strs(out@) == take_at_most(prefixed_lines(all.take(k as int), prefix@), limit as int),
        decreases ls.len() - k,
    {
        let ghost before = all.take(k as int);
        let ghost after = all.take(k + 1);
        assert(after.drop_last() == before);
        assert(after.last() == all[k as int]);
        let (a, b) = ls[k];
        let (ta, tb) = trim_range(&v, a, b);
        let ghost pb = prefixed_lines(before, prefix@);
        let sa = trim_start_range(&v, a, b);
        if starts_with_range(&v, sa, b, &pv) {
            if out.len() < limit {
                proof {
                    assert(strs(out@).len() == out@.len());
                    assert(pb.len() < limit);
                    assert(take_at_most(pb, limit as int) == pb);
                }
                out.push(string_of_range(&v, ta, tb));
                proof {
                    assert(take_at_most(pb.push(trim(all[k as int])), limit as int) == pb.push(
                        trim(all[k as int]),
                    ));
                    assert(strs(out@) =~= pb.push(trim(all[k as int])));
                }
            } else {
                proof {
                    assert(strs(out@).len() == out@.len());
                    assert(pb.len() >= limit);
                    assert(take_at_most(pb.push(trim(all[k as int])), limit as int) =~= take_at_most(
                        pb,
                        limit as int,
                    ));
                }
            }
        }
        k += 1;
    }
    assert(all.take(all.len() as int) == all);
    out
}

} // verus!
