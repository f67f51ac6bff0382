//! The IMEI write guard: reading the IMEI is allowed, writing, changing or
//! erasing it never is. Every pass-through path for raw AT commands asks
//! [`is_imei_write`] first.
use crate::modem::lock::ascii_upper_str;
use crate::text::{chars_of, find_char, is_ws, push_str, split_char, split_range, starts_with, trim, trim_end, trim_range, trim_start};
use vstd::prelude::*;

verus! {

/// What `str::to_uppercase` returns for a text.
pub uninterp spec fn upper_of(s: Seq<char>) -> Seq<char>;

/// Every character is ASCII.
pub open spec fn all_ascii(s: Seq<char>) -> bool {
    forall|i: int| 0 <= i < s.len() ==> (#[trigger] s[i] as u32) < 128
}

/// `str::to_uppercase` (std): the result is named; of an ASCII text it is
/// the ASCII uppercase (`a`..`z` to `A`..`Z`, the rest unchanged), and of
/// any text it starts with the ASCII uppercase of each ASCII prefix: each
/// character is mapped on its own (unlike lowercasing, uppercasing has no
/// context-dependent rule), and ASCII characters map as the std
/// documentation of `to_ascii_uppercase` says ("to uppercase ASCII
/// characters in addition to non-ASCII characters, use `to_uppercase`").
/// The mapping of other characters is not restated here.
#[verifier::external_body]
fn to_upper(s: &str) -> (r: String)
    ensures
        r@ == upper_of(s@),
        all_ascii(s@) ==> r@ == ascii_upper_str(s@),
        forall|k: int|
            0 <= k <= s@.len() && all_ascii(#[trigger] s@.take(k)) ==> starts_with(r@, ascii_upper_str(s@.take(k))),
{
    s.to_uppercase()
}

/// The IMEI / serial number command families, in the order they are tried
/// (`EGMREXT` before its prefix `EGMR`).
pub open spec fn imei_family(body: Seq<char>) -> Option<Seq<char>> {
    if starts_with(body, "EGMREXT"@) {
        Some("EGMREXT"@)
    } else if starts_with(body, "EGMR"@) {
        Some("EGMR"@)
    } else if starts_with(body, "SIMEI"@) {
        Some("SIMEI"@)
    } else if starts_with(body, "CGSN"@) {
        Some("CGSN"@)
    } else if starts_with(body, "SERIALNUM"@) {
        Some("SERIALNUM"@)
    } else if starts_with(body, "IMEI"@) {
        Some("IMEI"@)
    } else {
        None
    }
}

/// One command of a chain, once uppercased: trimmed, then a leading `AT`
/// and after it a leading `+` removed (each followed by a trim). The first
/// command of `AT+CSQ;+EGMREXT=1,7` gives `CSQ`, the second `EGMREXT=1,7`.
pub open spec fn command_body(cmd: Seq<char>) -> Seq<char> {
    let t = trim(cmd);
    let t1 = if starts_with(t, "AT"@) {
        trim(t.skip(2))
    } else {
        t
    };
    trim(
        if starts_with(t1, "+"@) {
            t1.skip(1)
        } else {
            t1
        },
    )
}

/// Whether one uppercased command writes the IMEI: it belongs to an IMEI
/// family and is neither a query (nothing after the family name, or `?`)
/// nor a read whose first argument is `0`.
pub open spec fn imei_write_command(cmd: Seq<char>) -> bool {
    let body = command_body(cmd);
    match imei_family(body) {
        None => false,
        Some(f) => {
            let rest = trim(body.skip(f.len() as int));
            if rest.len() == 0 || rest[0] == '?' {
                false
            } else if rest[0] == '=' && trim(split_char(rest.skip(1), ',')[0]) == "0"@ {
                false
            } else {
                true
            }
        },
    }
}

/// Whether an uppercased command line writes the IMEI: any of its
/// `;`-separated commands does (a write chained behind a harmless command
/// is a write all the same).
pub open spec fn imei_write_of_upper(upper: Seq<char>) -> bool {
    let cmds = split_char(upper, ';');
    exists|k: int| 0 <= k < cmds.len() && imei_write_command(#[trigger] cmds[k])
}

/// Whether the command line writes the IMEI / serial number.
///
/// Each `;`-separated command is classified; the line is a write when one of
/// them is. Allowed: commands outside the IMEI families; queries
/// (`AT+CGSN`, `AT+CGSN?`, `AT+EGMR?`); reads whose first argument is `0`
/// (`AT+EGMREXT=0,7`). Every other form with arguments is a write.
pub fn is_imei_write(cmd: &str) -> (b: bool)
    ensures
        b == imei_write_of_upper(upper_of(trim(cmd@))),
        all_ascii(trim(cmd@)) ==> b == imei_write_of_upper(ascii_upper_str(trim(cmd@))),
        starts_with(trim(cmd@), imei_write_prefix()) ==> b,
{
    let v = chars_of(cmd);
    assert(v@.subrange(0, v@.len() as int) == v@);
    let (a, z) = trim_range(&v, 0, v.len());
    let raw = crate::text::string_of_range(&v, a, z);
    let upper = to_upper(raw.as_str());
    proof {
        let pre = imei_write_prefix();
        if starts_with(raw@, pre) {
            lemma_prefix_ascii();
            assert(raw@.take(pre.len() as int) == pre);
            assert(starts_with(upper@, ascii_upper_str(raw@.take(pre.len() as int))));
            lemma_prefixed_line_is_write(upper@);
        }
    }
    is_imei_write_upper(upper.as_str())
}

/// [`is_imei_write`] on the command line already trimmed and uppercased.
pub fn is_imei_write_upper(upper: &str) -> (b: bool)
    ensures
        b == imei_write_of_upper(upper@),
{
    let u = chars_of(upper);
    assert(u@.subrange(0, u@.len() as int) == u@);
    let cmds = split_range(&u, 0, u.len(), ';');
    let ghost all = split_char(u@, ';');
    let mut k: usize = 0;
    while k < cmds.len()
        invariant
            k <= cmds@.len(),
            cmds@.len() == all.len(),
            all == split_char(upper@, ';'),
            u@ == upper@,
            forall|j: int|
                0 <= j < cmds@.len() ==> (#[trigger] cmds@[j]).0 <= cmds@[j].1 <= u@.len() && u@.subrange(
                    cmds@[j].0 as int,
                    cmds@[j].1 as int,
                ) == all[j],
            forall|j: int| 0 <= j < k ==> !imei_write_command(#[trigger] all[j]),
        decreases cmds.len() - k,
    {
        let (ca, cb) = cmds[k];
        if command_is_write(&u, ca, cb) {
            assert(imei_write_command(all[k as int]));
            return true;
        }
        k += 1;
    }
    false
}

/// [`imei_write_command`] of the range `lo..hi` of `u`.
fn command_is_write(u: &Vec<char>, lo: usize, hi: usize) -> (b: bool)
    requires
        lo <= hi <= u@.len(),
    ensures
        b == imei_write_command(u@.subrange(lo as int, hi as int)),
{
    let ghost cmd = u@.subrange(lo as int, hi as int);
    proof {
        reveal_strlit("AT");
        reveal_strlit("+");
    }
    let (ta, tz) = trim_range(u, lo, hi);
    let (pa, pz) = if crate::text::range_starts_with_str(u, ta, tz, "AT") {
        assert(u@.subrange(ta + 2, tz as int) == u@.subrange(ta as int, tz as int).skip(2));
        trim_range(u, ta + 2, tz)
    } else {
        (ta, tz)
    };
    let start: usize = if crate::text::range_starts_with_str(u, pa, pz, "+") {
        pa + 1
    } else {
        pa
    };
    assert(u@.subrange(start as int, pz as int) == (if starts_with(u@.subrange(pa as int, pz as int), "+"@) {
        u@.subrange(pa as int, pz as int).skip(1)
    } else {
        u@.subrange(pa as int, pz as int)
    }));
    let (ba, bz) = trim_range(u, start, pz);
    let ghost body = u@.subrange(ba as int, bz as int);
    assert(body == command_body(cmd));
    let flen: usize = if crate::text::range_starts_with_str(u, ba, bz, "EGMREXT") {
        7
    } else if crate::text::range_starts_with_str(u, ba, bz, "EGMR") {
        4
    } else if crate::text::range_starts_with_str(u, ba, bz, "SIMEI") {
        5
    } else if crate::text::range_starts_with_str(u, ba, bz, "CGSN") {
        4
    } else if crate::text::range_starts_with_str(u, ba, bz, "SERIALNUM") {
        9
    } else if crate::text::range_starts_with_str(u, ba, bz, "IMEI") {
        4
    } else {
        return false;
    };
    proof {
        reveal_strlit("EGMREXT");
        reveal_strlit("EGMR");
        reveal_strlit("SIMEI");
        reveal_strlit("CGSN");
        reveal_strlit("SERIALNUM");
        reveal_strlit("IMEI");
    }
    assert(imei_family(body) matches Some(f) && f.len() == flen);
    assert(body.skip(flen as int) == u@.subrange(ba + flen, bz as int));
    let (ra, rz) = trim_range(u, ba + flen, bz);
    if ra == rz || u[ra] == '?' {
        return false;
    }
    if u[ra] == '=' {
        assert(u@.subrange(ra + 1, rz as int) == u@.subrange(ra as int, rz as int).skip(1));
        let args = split_range(u, ra + 1, rz, ',');
        let (fa, fz) = args[0];
        let (ta2, tz2) = trim_range(u, fa, fz);
        if crate::text::range_eq_str(u, ta2, tz2, "0") {
            return false;
        }
    }
    true
}

// ---------------------------------------------------------------- the builder is always caught

/// Trimming a text that starts and ends with non-blanks and goes on with
/// `r` only trims the end of `r`.
proof fn lemma_trim_after(x: Seq<char>, r: Seq<char>)
    requires
        x.len() > 0,
        !is_ws(x[0]),
        !is_ws(x.last()),
    ensures
        trim(x + r) == x + trim_end(r),
        trim_end(r).len() <= r.len(),
        trim_end(r) == r.take(trim_end(r).len() as int),
    decreases r.len(),
{
    assert((x + r)[0] == x[0]);
    assert(trim_start(x + r) == x + r);
    lemma_trim_end_after(x, r);
}

proof fn lemma_trim_end_after(x: Seq<char>, r: Seq<char>)
    requires
        x.len() > 0,
        !is_ws(x.last()),
    ensures
        trim_end(x + r) == x + trim_end(r),
        trim_end(r).len() <= r.len(),
        trim_end(r) == r.take(trim_end(r).len() as int),
    decreases r.len(),
{
    if r.len() == 0 {
        assert(x + r =~= x);
        assert(r.take(0) =~= r);
    } else if is_ws(r.last()) {
        assert((x + r).last() == r.last());
        assert((x + r).drop_last() =~= x + r.drop_last());
        lemma_trim_end_after(x, r.drop_last());
        let t = trim_end(r.drop_last());
        assert(t == r.drop_last().take(t.len() as int));
        assert(r.drop_last().take(t.len() as int) =~= r.take(t.len() as int));
    } else {
        assert((x + r).last() == r.last());
        assert(r.take(r.len() as int) =~= r);
    }
}

/// No `c` among the first `k` characters: `c` is found at `k` or later, or
/// not at all.
proof fn lemma_find_char_from(s: Seq<char>, c: char, k: int)
    requires
        0 <= k <= s.len(),
        forall|j: int| 0 <= j < k ==> s[j] != c,
    ensures
        find_char(s, c) == -1 || find_char(s, c) >= k,
    decreases k,
{
    if k > 0 && s.len() > 0 {
        assert(s[0] != c);
        let t = s.drop_first();
        assert forall|j: int| 0 <= j < k - 1 implies t[j] != c by {
            assert(t[j] == s[j + 1]);
        }
        lemma_find_char_from(t, c, k - 1);
    }
}

/// The fixed start of the IMEI write command.
pub open spec fn imei_write_prefix() -> Seq<char> {
    "AT+EGMREXT=1,7,\""@
}

/// The text of the IMEI write command for `imei`.
pub open spec fn imei_write_text(imei: Seq<char>) -> Seq<char> {
    imei_write_prefix() + imei + "\""@
}

proof fn lemma_prefix_ascii()
    ensures
        all_ascii(imei_write_prefix()),
        ascii_upper_str(imei_write_prefix()) == imei_write_prefix(),
{
    reveal_strlit("AT+EGMREXT=1,7,\"");
    assert(ascii_upper_str(imei_write_prefix()) =~= imei_write_prefix());
}

proof fn lemma_write_text_trimmed(imei: Seq<char>)
    ensures
        trim(imei_write_text(imei)) == imei_write_text(imei),
        starts_with(imei_write_text(imei), imei_write_prefix()),
{
    reveal_strlit("AT+EGMREXT=1,7,\"");
    reveal_strlit("\"");
    let p = imei_write_prefix();
    let q = "\""@;
    let w = imei_write_text(imei);
    assert(w =~= p + (imei + q));
    lemma_trim_after(p, imei + q);
    assert((imei + q).last() == '"');
    assert(trim_end(imei + q) == imei + q);
    assert(w.take(p.len() as int) =~= p);
}

/// A command starting `AT+EGMREXT=1,7,"` is an IMEI write.
proof fn lemma_prefixed_command_is_write(r0: Seq<char>)
    ensures
        imei_write_command("AT+EGMREXT=1,7,\""@ + r0),
{
    reveal_strlit("AT+EGMREXT=1,7,\"");
    reveal_strlit("AT");
    reveal_strlit("+");
    reveal_strlit("EGMREXT");
    reveal_strlit("0");
    reveal_strlit("+EGMREXT=1,7,\"");
    reveal_strlit("EGMREXT=1,7,\"");
    reveal_strlit("=1,7,\"");
    let p = "AT+EGMREXT=1,7,\""@;
    let c0 = p + r0;
    lemma_trim_after(p, r0);
    let r1 = trim_end(r0);
    assert(trim(c0) == p + r1);
    let pa = "+EGMREXT=1,7,\""@;
    assert(pa =~= p.skip(2));
    assert((p + r1).take(2) =~= "AT"@);
    assert((p + r1).skip(2) =~= pa + r1);
    lemma_trim_after(pa, r1);
    let r2 = trim_end(r1);
    let pb = "EGMREXT=1,7,\""@;
    assert((pa + r2).take(1) =~= "+"@);
    assert((pa + r2).skip(1) =~= pb + r2);
    lemma_trim_after(pb, r2);
    let r3 = trim_end(r2);
    let body = pb + r3;
    assert(command_body(c0) == body);
    assert(body.take(7) =~= "EGMREXT"@);
    assert(imei_family(body) == Some("EGMREXT"@));
    let pc = "=1,7,\""@;
    assert(body.skip(7) =~= pc + r3);
    lemma_trim_after(pc, r3);
    let r4 = trim_end(r3);
    let rest2 = pc + r4;
    assert(rest2[0] == '=');
    let args = rest2.skip(1);
    assert(args[0] == '1' && args[1] == ',');
    assert(find_char(args, ',') == 1) by {
        assert(args.drop_first()[0] == ',');
        assert(find_char(args.drop_first(), ',') == 0);
    }
    assert(split_char(args, ',')[0] =~= seq!['1']);
    assert(trim(seq!['1']) == seq!['1']) by {
        assert(trim_start(seq!['1']) == seq!['1']);
        assert(trim_end(seq!['1']) == seq!['1']);
    }
    assert(seq!['1'] != "0"@) by {
        assert("0"@[0] == '0');
    }
}

/// A command line starting `AT+EGMREXT=1,7,"` writes the IMEI, whatever
/// follows: its first `;`-separated command does.
proof fn lemma_prefixed_line_is_write(u: Seq<char>)
    requires
        starts_with(u, imei_write_prefix()),
    ensures
        imei_write_of_upper(u),
{
    reveal_strlit("AT+EGMREXT=1,7,\"");
    let p = "AT+EGMREXT=1,7,\""@;
    assert forall|j: int| 0 <= j < p.len() implies u[j] != ';' by {
        assert(u[j] == u.take(p.len() as int)[j]);
    }
    lemma_find_char_from(u, ';', p.len() as int);
    let cmds = split_char(u, ';');
    let c0 = cmds[0];
    let r0 = c0.skip(p.len() as int);
    let i = find_char(u, ';');
    if i >= 0 && i < u.len() {
        assert(c0 == u.take(i));
    } else {
        assert(c0 == u);
    }
    assert(c0.take(p.len() as int) =~= p);
    assert(c0 =~= p + r0);
    lemma_prefixed_command_is_write(r0);
    assert(imei_write_command(cmds[0]));
}

/// The guard refuses the IMEI write command for every IMEI value, whatever
/// it holds (non-ASCII characters, `;` or quotes included): the command is
/// its own trim and starts `AT+EGMREXT=1,7,"`, which [`is_imei_write`]
/// always reports as a write (uppercased, its first command is
/// `AT+EGMREXT=1,7,...`, whose first argument is `1`).
pub proof fn lemma_guard_catches_imei_write(imei: Seq<char>)
    ensures
        trim(imei_write_text(imei)) == imei_write_text(imei),
        starts_with(trim(imei_write_text(imei)), imei_write_prefix()),
{
    lemma_write_text_trimmed(imei);
}

/// Why a command was refused, for the API answer.
pub fn block_reason(cmd: &str) -> (r: String)
    ensures
        r@ == "已拒绝执行 `"@ + trim(cmd@) + "`：IMEI / 串号写入指令被安全策略拦截（只读查询不受影响）"@,
{
    let v = chars_of(cmd);
    assert(v@.subrange(0, v@.len() as int) == v@);
    let (a, z) = trim_range(&v, 0, v.len());
    let mut s = String::new();
    push_str(&mut s, "已拒绝执行 `");
    let t = crate::text::string_of_range(&v, a, z);
    push_str(&mut s, t.as_str());
    push_str(&mut s, "`：IMEI / 串号写入指令被安全策略拦截（只读查询不受影响）");
    s
}

/// The read-only IMEI command used to show the module information.
pub const IMEI_READ_CMD: &'static str = crate::at::cmd::EGMREXT_READ_IMEI;

} // verus!
