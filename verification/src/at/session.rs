//! The AT session: how a command line is framed, when a response is
//! complete, how the echo is stripped, and the bookkeeping of the one port
//! the daemon holds exclusively (opening, releasing, re-selecting a port that
//! went silent).
//!
//! The serial I/O itself happens outside the library; these functions take
//! and return what it reads and writes.
use crate::at::parse::{last_nonblank, spec_first};
use crate::text::{
    chars_of, ends_with, join, lines, lines_range, push_str, range_contains_str, range_eq_str,
    range_starts_with_str, replace_char, replace_char_range, starts_with, strs, trim, trim_range,
    contains_str, string_of_range,
};
use vstd::prelude::*;

verus! {

/// How long a caller waits for the session lock, in seconds.
pub const LOCK_WAIT_SECS: u64 = 3;

/// Consecutive commands without a single byte of answer after which the
/// port is taken for dead.
pub const SILENT_RESELECT_THRESHOLD: u32 = 3;

/// After a failed re-selection, no new one for this many seconds.
pub const RESELECT_COOLDOWN_SECS: u64 = 60;

/// Minimum gap between two commands, in milliseconds.
pub const MIN_CMD_GAP_MS: u64 = 30;

/// The fields of the first matching row (see [`crate::at::parse::first`]).
pub fn fields(resp: &str, prefix: &str) -> (r: Vec<String>)
    ensures
        strs(r@) == spec_first(resp@, prefix@),
{
    crate::at::parse::first(resp, prefix)
}

/// Why a command was refused (see [`crate::at::guard::block_reason`]).
pub fn imei_block_reason(cmd: &str) -> (r: String)
    ensures
        r@ == "已拒绝执行 `"@ + trim(cmd@) + "`：IMEI / 串号写入指令被安全策略拦截（只读查询不受影响）"@,
{
    crate::at::guard::block_reason(cmd)
}

/// The line sent for a command: the command with a `\r` appended unless it
/// already ends with one.
pub fn command_line(cmd: &str) -> (r: String)
    ensures
        ends_with(cmd@, seq!['\r']) ==> r@ == cmd@,
        !ends_with(cmd@, seq!['\r']) ==> r@ == cmd@.push('\r'),
{
    let v = chars_of(cmd);
    let mut s = String::new();
    push_str(&mut s, cmd);
    if v.len() > 0 && v[v.len() - 1] == '\r' {
        assert(v@.skip(v@.len() - 1) =~= seq!['\r']);
        s
    } else {
        proof {
            if ends_with(cmd@, seq!['\r']) {
                assert(cmd@.skip(cmd@.len() - 1)[0] == cmd@[cmd@.len() - 1]);
            }
        }
        crate::text::push_char(&mut s, '\r');
        s
    }
}

/// The silent streak after a command that received `received` bytes: one
/// more when nothing came back (saturating), zero otherwise.
pub fn next_silent_streak(prev: u32, received: usize) -> (r: u32)
    ensures
        received == 0 && prev < u32::MAX ==> r == prev + 1,
        received == 0 && prev == u32::MAX ==> r == u32::MAX,
        received != 0 ==> r == 0,
{
    if received == 0 {
        prev.saturating_add(1)
    } else {
        0
    }
}

/// `l` is the result code `t`, or `t` followed by `:`.
pub open spec fn matches_terminator(l: Seq<char>, t: Seq<char>) -> bool {
    l == t || starts_with(l, t.push(':'))
}

/// A line that ends a response.
pub open spec fn terminator_line(l: Seq<char>) -> bool {
    ||| matches_terminator(l, "OK"@)
    ||| matches_terminator(l, "ERROR"@)
    ||| matches_terminator(l, "BUSY"@)
    ||| matches_terminator(l, "NO CARRIER"@)
    ||| matches_terminator(l, "NO ANSWER"@)
    ||| matches_terminator(l, "NO DIALTONE"@)
    ||| matches_terminator(l, "+CME ERROR"@)
    ||| matches_terminator(l, "+CMS ERROR"@)
}

/// A response is complete when its last non-blank line (with `\r` read as
/// a line break) is a result code.
pub open spec fn spec_finished(text: Seq<char>) -> bool {
    match last_nonblank(lines(replace_char(text, '\r', '\n'))) {
        Some(l) => terminator_line(l),
        None => false,
    }
}

fn terminator_match(v: &Vec<char>, a: usize, b: usize, t: &str) -> (r: bool)
    requires
        a <= b <= v@.len(),
    ensures
        r == matches_terminator(v@.subrange(a as int, b as int), t@),
{
    if range_eq_str(v, a, b, t) {
        return true;
    }
    let tv = chars_of(t);
    let n = tv.len();
    if !range_starts_with_str(v, a, b, t) || b - a <= n {
        proof {
            let l = v@.subrange(a as int, b as int);
            if starts_with(l, t@.push(':')) {
                assert(l.take(t@.len() as int) == l.take(t@.len() + 1int).take(t@.len() as int));
                assert(t@.push(':').take(t@.len() as int) == t@);
            }
        }
        return false;
    }
    let r = v[a + n] == ':';
    proof {
        let l = v@.subrange(a as int, b as int);
        assert(l[n as int] == v@[a + n]);
        if r {
            assert(l.take(n + 1) =~= t@.push(':'));
        } else if starts_with(l, t@.push(':')) {
            assert(l.take(n + 1)[n as int] == ':');
        }
    }
    r
}

fn terminator_range(v: &Vec<char>, a: usize, b: usize) -> (r: bool)
    requires
        a <= b <= v@.len(),
    ensures
        r == terminator_line(v@.subrange(a as int, b as int)),
{
    terminator_match(v, a, b, "OK") || terminator_match(v, a, b, "ERROR") || terminator_match(
        v,
        a,
        b,
        "BUSY",
    ) || terminator_match(v, a, b, "NO CARRIER") || terminator_match(v, a, b, "NO ANSWER")
        || terminator_match(v, a, b, "NO DIALTONE") || terminator_match(v, a, b, "+CME ERROR")
        || terminator_match(v, a, b, "+CMS ERROR")
}

/// Whether the response received so far is complete (its last non-blank
/// line is a result code).
pub fn finished(text: &str) -> (b: bool)
    ensures
        b == spec_finished(text@),
{
    let v0 = chars_of(text);
    assert(v0@.subrange(0, v0@.len() as int) == v0@);
    let v = replace_char_range(&v0, 0, v0.len(), '\r', '\n');
    assert(v@.subrange(0, v@.len() as int) == v@);
    let ls = lines_range(&v, 0, v.len());
    let ghost all = lines(v@);
    let mut last: Option<(usize, usize)> = None;
    let mut k: usize = 0;
    while k < ls.len()
        invariant
            all == lines(v@),
            ls@.len() == all.len(),
            forall|j: int|
                0 <= j < ls@.len() ==> 0 <= (#[trigger] ls@[j]).0 <= ls@[j].1 <= v@.len()
                    && v@.subrange(ls@[j].0 as int, ls@[j].1 as int) == all[j],
            k <= ls@.len(),
            match last {
                Some((a, b)) => a <= b <= v@.len() && last_nonblank(all.take(k as int)) == Some(
                    v@.subrange(a as int, b as int),
                ),
                None => last_nonblank(all.take(k as int)) is None,
            },
        decreases ls.len() - k,
    {
        let ghost before = all.take(k as int);
        let ghost after = all.take(k + 1);
        assert(after.drop_last() == before);
        assert(after.last() == all[k as int]);
        let (a0, b0) = ls[k];
        let (a, b) = trim_range(&v, a0, b0);
        if a < b {
            last = Some((a, b));
        }
        k += 1;
    }
    assert(all.take(all.len() as int) == all);
    match last {
        Some((a, b)) => terminator_range(&v, a, b),
        None => false,
    }
}

/// The trimmed lines that are neither blank nor the echo.
pub open spec fn kept_lines(ls: Seq<Seq<char>>, echo: Seq<char>) -> Seq<Seq<char>>
    decreases ls.len(),
{
    if ls.len() == 0 {
        seq![]
    } else {
        let prev = kept_lines(ls.drop_last(), echo);
        let t = trim(ls.last());
        if t.len() > 0 && t != echo {
            prev.push(t)
        } else {
            prev
        }
    }
}

/// A response without its echo and blank lines, lines joined by `\n`.
pub open spec fn spec_normalize(raw: Seq<char>, cmd: Seq<char>) -> Seq<char> {
    join(kept_lines(lines(replace_char(raw, '\r', '\n')), trim(cmd)), seq!['\n'])
}

/// Strips the echo of `cmd` and blank lines from a raw response; the
/// remaining lines are trimmed and joined with `\n`.
pub fn normalize(raw: &str, cmd: &str) -> (r: String)
    ensures
        r@ == spec_normalize(raw@, cmd@),
{
    let cv = chars_of(cmd);
    assert(cv@.subrange(0, cv@.len() as int) == cv@);
    let (ea, eb) = trim_range(&cv, 0, cv.len());
    let echo = string_of_range(&cv, ea, eb);
    let v0 = chars_of(raw);
    assert(v0@.subrange(0, v0@.len() as int) == v0@);
    let v = replace_char_range(&v0, 0, v0.len(), '\r', '\n');
    assert(v@.subrange(0, v@.len() as int) == v@);
    let ls = lines_range(&v, 0, v.len());
    let ghost all = lines(v@);
    let mut out: Vec<String> = Vec::new();
    let mut k: usize = 0;
    while k < ls.len()
        invariant
            echo@ == trim(cmd@),
            all == lines(v@),
            ls@.len() == all.len(),
            forall|j: int|
                0 <= j < ls@.len() ==> 0 <= (#[trigger] ls@[j]).0 <= ls@[j].1 <= v@.len()
                    && v@.subrange(ls@[j].0 as int, ls@[j].1 as int) == all[j],
            k <= ls@.len(),
            strs(out@) == kept_lines(all.take(k as int), echo@),
        decreases ls.len() - k,
    {
        let ghost before = all.take(k as int);
        let ghost after = all.take(k + 1);
        assert(after.drop_last() == before);
        assert(after.last() == all[k as int]);
        let (a0, b0) = ls[k];
        let (a, b) = trim_range(&v, a0, b0);
        if a < b && !range_eq_str(&v, a, b, echo.as_str()) {
            out.push(string_of_range(&v, a, b));
            assert(strs(out@) =~= strs(out@.drop_last()).push(trim(all[k as int])));
        }
        k += 1;
    }
    assert(all.take(all.len() as int) == all);
    proof {
        reveal_strlit("\n");
        assert("\n"@ == seq!['\n']);
    }
    crate::text::join_strings(&out, "\n")
}

/// What `str::to_lowercase` returns for a text.
pub uninterp spec fn lower_of(s: Seq<char>) -> Seq<char>;

/// `char::to_ascii_lowercase`: `A`..`Z` become `a`..`z`, anything else is
/// kept.
pub open spec fn ascii_lower(c: char) -> char {
    if 'A' <= c && c <= 'Z' {
        ((c as int) + 32) as char
    } else {
        c
    }
}

/// `str::to_lowercase` (std): the result is named; of an ASCII text it is
/// the ASCII lowercase (`A`..`Z` to `a`..`z`, the rest unchanged), as the
/// std documentation of `to_ascii_lowercase` gives ("to lowercase ASCII
/// characters in addition to non-ASCII characters, use `to_lowercase`").
/// The mapping of other characters is not restated here.
#[verifier::external_body]
pub(crate) fn to_lower(s: &str) -> (r: String)
    ensures
        r@ == lower_of(s@),
        crate::at::guard::all_ascii(s@) ==> r@ == s@.map_values(|c: char| ascii_lower(c)),
{
    s.to_lowercase()
}

/// The kind of failure an open error message describes (by its lowercase
/// text).
pub open spec fn open_err_kind(low: Seq<char>) -> int {
    if contains_str(low, "exclusive"@) || contains_str(low, "busy"@) || contains_str(
        low,
        "resource"@,
    ) {
        0
    } else if contains_str(low, "permission"@) || contains_str(low, "denied"@) {
        1
    } else if contains_str(low, "no such"@) || contains_str(low, "not found"@) || contains_str(
        low,
        "enoent"@,
    ) {
        2
    } else {
        3
    }
}

/// The readable message for an error `e` of opening `path`, by kind.
pub open spec fn open_err_text(path: Seq<char>, e: Seq<char>, kind: int) -> Seq<char> {
    if kind == 0 {
        "打开 "@ + path + " 失败：端口已被其他程序独占（"@ + e + "）"@
    } else if kind == 1 {
        "打开 "@ + path + " 失败：权限不足（"@ + e + "）"@
    } else if kind == 2 {
        "打开 "@ + path + " 失败：设备不存在（"@ + e + "）"@
    } else {
        "打开 "@ + path + " 失败: "@ + e
    }
}

/// Translates a serial open error into a readable message: held by another
/// program, permission denied, no such device, or the raw text.
pub fn friendly_open_err(path: &str, e: &str) -> (r: String)
    ensures
        r@ == open_err_text(path@, e@, open_err_kind(lower_of(e@))),
{
    let low = to_lower(e);
    friendly_open_err_lower(path, e, low.as_str())
}

/// [`friendly_open_err`] given the lowercase text of the error.
pub fn friendly_open_err_lower(path: &str, e: &str, low: &str) -> (r: String)
    ensures
        r@ == open_err_text(path@, e@, open_err_kind(low@)),
{
    let lv = chars_of(low);
    assert(lv@.subrange(0, lv@.len() as int) == lv@);
    let n = lv.len();
    let kind: u8 = if range_contains_str(&lv, 0, n, "exclusive") || range_contains_str(&lv, 0, n, "busy")
        || range_contains_str(&lv, 0, n, "resource") {
        0
    } else if range_contains_str(&lv, 0, n, "permission") || range_contains_str(&lv, 0, n, "denied") {
        1
    } else if range_contains_str(&lv, 0, n, "no such") || range_contains_str(&lv, 0, n, "not found")
        || range_contains_str(&lv, 0, n, "enoent") {
        2
    } else {
        3
    };
    let mut s = String::new();
    push_str(&mut s, "打开 ");
    push_str(&mut s, path);
    if kind == 0 {
        push_str(&mut s, " 失败：端口已被其他程序独占（");
        push_str(&mut s, e);
        push_str(&mut s, "）");
    } else if kind == 1 {
        push_str(&mut s, " 失败：权限不足（");
        push_str(&mut s, e);
        push_str(&mut s, "）");
    } else if kind == 2 {
        push_str(&mut s, " 失败：设备不存在（");
        push_str(&mut s, e);
        push_str(&mut s, "）");
    } else {
        push_str(&mut s, " 失败: ");
        push_str(&mut s, e);
    }
    s
}

/// Port statistics for `/api/ports`.
#[derive(Debug, Clone)]
pub struct AtStats {
    pub path: String,
    /// Whether the port is held right now.
    pub open: bool,
    /// Seconds it has been held (0 when not held).
    pub held_secs: u64,
    pub opens: u64,
    pub releases: u64,
    /// Other processes that have the tty open (empty: the hold is exclusive).
    pub other_pids: Vec<u64>,
}

/// `v` is strictly increasing.
pub open spec fn strictly_sorted(v: Seq<u64>) -> bool {
    forall|i: int, j: int| 0 <= i < j < v.len() ==> v[i] < v[j]
}

/// A process of the scan (its pid and the targets of its descriptors) that
/// has `want` open and is not `me`.
pub open spec fn opener(scan: Seq<(u64, Vec<String>)>, want: Seq<char>, me: u64, pid: u64) -> bool {
    pid != me && exists|i: int|
        0 <= i < scan.len() && #[trigger] scan[i].0 == pid && strs(scan[i].1@).contains(want)
}

/// Inserts `x` into the strictly increasing `v`, keeping it so.
fn insert_sorted(v: &mut Vec<u64>, x: u64)
    requires
        strictly_sorted(old(v)@),
    ensures
        strictly_sorted(final(v)@),
        forall|y: u64| final(v)@.contains(y) <==> (old(v)@.contains(y) || y == x),
{
    let mut i: usize = 0;
    while i < v.len() && v[i] < x
        invariant
            i <= v@.len(),
            v@ == old(v)@,
            forall|j: int| 0 <= j < i ==> v@[j] < x,
        decreases v.len() - i,
    {
        i += 1;
    }
    if i < v.len() && v[i] == x {
        assert(v@[i as int] == x);
        return;
    }
    let ghost old_v = v@;
    assert(old_v == old(v)@);
    v.insert(i, x);
    assert forall|a: int, b: int| 0 <= a < b < v@.len() implies v@[a] < v@[b] by {
        if b < i {
        } else if a < i && b == i {
        } else if a < i {
            assert(v@[b] == old_v[b - 1]);
            assert(old_v[a] < old_v[b - 1]);
        } else if a == i {
            assert(v@[b] == old_v[b - 1]);
            if i < old_v.len() {
                assert(old_v[i as int] >= x);
                assert(old_v[i as int] != x);
                if b - 1 > i {
                    assert(old_v[i as int] < old_v[b - 1]);
                }
            }
        } else {
            assert(v@[a] == old_v[a - 1] && v@[b] == old_v[b - 1]);
        }
    }
    assert forall|y: u64| v@.contains(y) <==> (old_v.contains(y) || y == x) by {
        if v@.contains(y) {
            let k = choose|k: int| 0 <= k < v@.len() && v@[k] == y;
            if k < i {
                assert(old_v[k] == y);
            } else if k > i {
                assert(old_v[k - 1] == y);
            }
        }
        if old_v.contains(y) {
            let k = choose|k: int| 0 <= k < old_v.len() && old_v[k] == y;
            if k < i {
                assert(v@[k] == y);
            } else {
                assert(v@[k + 1] == y);
            }
        }
        if y == x {
            assert(v@[i as int] == x);
        }
    }
    assert(forall|y: u64| v@.contains(y) <==> (old(v)@.contains(y) || y == x));
}

/// The processes other than `me` that have `want` open, from a scan of
/// `/proc/*/fd` (each pid with the link targets of its descriptors), in
/// increasing order without repeats.
pub fn other_openers(want: &str, me: u64, scan: &Vec<(u64, Vec<String>)>) -> (r: Vec<u64>)
    ensures
        strictly_sorted(r@),
        forall|p: u64| r@.contains(p) <==> opener(scan@, want@, me, p),
{
    let mut out: Vec<u64> = Vec::new();
    let mut k: usize = 0;
    while k < scan.len()
        invariant
            k <= scan@.len(),
            strictly_sorted(out@),
            forall|p: u64| out@.contains(p) <==> opener(scan@.take(k as int), want@, me, p),
        decreases scan.len() - k,
    {
        let pid = scan[k].0;
        let mut found = false;
        if pid != me {
            let ts = &scan[k].1;
            let mut j: usize = 0;
            while j < ts.len()
                invariant
                    j <= ts@.len(),
                    found == strs(ts@.take(j as int)).contains(want@),
                decreases ts.len() - j,
            {
                let ghost pre = strs(ts@.take(j as int));
                let ghost post = strs(ts@.take(j + 1));
                assert(post =~= pre.push(ts@[j as int]@));
                let eq = crate::text::str_eq(ts[j].as_str(), want);
                if eq {
                    found = true;
                }
                proof {
                    if pre.contains(want@) {
                        let i = choose|i: int| 0 <= i < pre.len() && pre[i] == want@;
                        assert(post[i] == pre[i]);
                    }
                    if eq {
                        assert(post[j as int] == want@);
                    }
                    if post.contains(want@) {
                        let i = choose|i: int| 0 <= i < post.len() && post[i] == want@;
                        if i < j {
                            assert(pre[i] == post[i]);
                        }
                    }
                }
                j += 1;
            }
            assert(ts@.take(ts@.len() as int) == ts@);
        }
        let ghost before = scan@.take(k as int);
        let ghost after = scan@.take(k + 1);
        if found {
            insert_sorted(&mut out, pid);
        }
        assert forall|p: u64| out@.contains(p) <==> opener(after, want@, me, p) by {
            if opener(after, want@, me, p) {
                let i = choose|i: int|
                    0 <= i < after.len() && #[trigger] after[i].0 == p && strs(after[i].1@).contains(
                        want@,
                    );
                if i < k {
                    assert(before[i] == after[i]);
                    assert(opener(before, want@, me, p));
                }
            }
            if opener(before, want@, me, p) {
                let i = choose|i: int|
                    0 <= i < before.len() && #[trigger] before[i].0 == p && strs(before[i].1@).contains(
                        want@,
                    );
                assert(after[i] == before[i]);
            }
            if found && p == pid {
                assert(after[k as int] == scan@[k as int]);
            }
        }
        k += 1;
    }
    assert(scan@.take(scan@.len() as int) == scan@);
    out
}

} // verus!
