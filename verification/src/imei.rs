//! IMEI reading and the guarded IMEI write.
//!
//! Reading is always allowed (`AT+EGMREXT=0,7`). Writing is an
//! irreversible, high-risk operation, allowed only when the configuration
//! enables `imei_write`, the caller confirms explicitly, and the new value
//! is fifteen digits. The command is built here, never through the raw AT
//! pass-through.
use crate::at::guard::{imei_write_of_upper, upper_of};
use crate::config::Config;
use crate::text::{
    chars_of, dec_str, digit_val, is_digit, lines, lines_range, push_str, split_char, split_range,
    starts_with, string_of_range, trim, trim_char, trim_char_range, trim_range, find_char,
};
use vstd::prelude::*;
use vstd::string::StringSliceAdditionalSpecFns;
use vstd::utf8::encode_utf8;

verus! {

/// What the IMEI page shows.
#[derive(Debug)]
pub struct ImeiState {
    pub imei: String,
    pub write_enabled: bool,
    pub backup: Option<String>,
}

/// The result of an IMEI write.
#[derive(Debug)]
pub struct WriteResult {
    pub previous: String,
    pub current: String,
    pub backup_file: String,
    pub command: String,
    /// Whether the new value passes the Luhn check (advisory only).
    pub luhn_ok: bool,
    /// The warning shown when it does not.
    pub warning: Option<String>,
}

/// The Luhn sum of digits, the rightmost weighted 1: every second digit
/// from the right is doubled, minus 9 when above 9.
pub open spec fn luhn_sum(d: Seq<char>) -> int
    decreases d.len(),
{
    if d.len() == 0 {
        0
    } else {
        let i = d.len() - 1;
        let v = digit_val(d[i]);
        let pos_from_right = 14 - i;
        let w = if pos_from_right % 2 == 1 {
            if v * 2 > 9 {
                v * 2 - 9
            } else {
                v * 2
            }
        } else {
            v
        };
        luhn_sum(d.drop_last()) + w
    }
}

/// Fifteen decimal digits whose Luhn sum is a multiple of 10.
pub open spec fn spec_luhn_ok(imei: Seq<char>) -> bool {
    imei.len() == 15 && (forall|i: int| 0 <= i < imei.len() ==> is_digit(#[trigger] imei[i]))
        && luhn_sum(imei) % 10 == 0
}

/// Fifteen decimal digits.
pub open spec fn spec_valid_format(imei: Seq<char>) -> bool {
    imei.len() == 15 && forall|i: int| 0 <= i < imei.len() ==> is_digit(#[trigger] imei[i])
}

/// The Luhn check of an IMEI (its fifteenth digit is the check digit).
pub fn luhn_ok(imei: &str) -> (b: bool)
    ensures
        b == spec_luhn_ok(imei@),
{
    let v = chars_of(imei);
    let mut i: usize = 0;
    while i < v.len()
        invariant
            i <= v@.len(),
            v@ == imei@,
            forall|j: int| 0 <= j < i ==> is_digit(#[trigger] v@[j]),
        decreases v.len() - i,
    {
        if !('0' <= v[i] && v[i] <= '9') {
            return false;
        }
        i += 1;
    }
    if v.len() != 15 {
        return false;
    }
    let mut sum: u32 = 0;
    let mut k: usize = 0;
    while k < 15
        invariant
            v@.len() == 15,
            v@ == imei@,
            forall|j: int| 0 <= j < 15 ==> is_digit(#[trigger] v@[j]),
            k <= 15,
            sum as int == luhn_sum(v@.take(k as int)),
            sum <= 9 * k,
        decreases 15 - k,
    {
        let d = (v[k] as u32) - ('0' as u32);
        assert(is_digit(v@[k as int]));
        assert(v@.take(k + 1).drop_last() == v@.take(k as int));
        assert(v@.take(k + 1)[k as int] == v@[k as int]);
        if (14 - k) % 2 == 1 {
            let mut w = d * 2;
            if w > 9 {
                w -= 9;
            }
            sum += w;
        } else {
            sum += d;
        }
        k += 1;
    }
    assert(v@.take(15) == v@);
    sum % 10 == 0
}

/// Whether a value is fifteen digits.
pub fn valid_format(imei: &str) -> (b: bool)
    ensures
        b == spec_valid_format(imei@),
{
    let v = chars_of(imei);
    if v.len() != 15 {
        return false;
    }
    let mut i: usize = 0;
    while i < v.len()
        invariant
            i <= v@.len(),
            v@ == imei@,
            forall|j: int| 0 <= j < i ==> is_digit(#[trigger] v@[j]),
        decreases v.len() - i,
    {
        if !('0' <= v[i] && v[i] <= '9') {
            return false;
        }
        i += 1;
    }
    true
}

/// Every IMEI that passes the Luhn check has the valid format.
pub proof fn lemma_luhn_implies_format(imei: Seq<char>)
    requires
        spec_luhn_ok(imei),
    ensures
        spec_valid_format(imei),
{
}

/// The value of an `+EGMREXT` line: what follows its first `:`, trimmed and
/// unquoted, when not empty.
pub open spec fn egmrext_value(l: Seq<char>) -> Option<Seq<char>> {
    if starts_with(l, "+EGMREXT"@) && find_char(l, ':') >= 0 && trim_char(
        trim(l.skip(find_char(l, ':') + 1)),
        '"',
    ).len() > 0 {
        Some(trim_char(trim(l.skip(find_char(l, ':') + 1)), '"'))
    } else {
        None
    }
}

/// The first `+EGMREXT` value of the lines.
pub open spec fn egmrext_of(ls: Seq<Seq<char>>) -> Option<Seq<char>>
    decreases ls.len(),
{
    if ls.len() == 0 {
        None
    } else {
        match egmrext_value(trim(ls[0])) {
            Some(v) => Some(v),
            None => egmrext_of(ls.drop_first()),
        }
    }
}

/// The runs of digits of a line (pieces between non-digits).
pub open spec fn digit_runs(l: Seq<char>) -> Seq<Seq<char>> {
    split_char(l.map_values(|c: char| if is_digit(c) { c } else { ',' }), ',')
}

/// The first fifteen-digit run among `ts`.
pub open spec fn fifteen_in(ts: Seq<Seq<char>>) -> Option<Seq<char>>
    decreases ts.len(),
{
    if ts.len() == 0 {
        None
    } else if ts[0].len() == 15 {
        Some(ts[0])
    } else {
        fifteen_in(ts.drop_first())
    }
}

/// The first fifteen-digit run of the lines.
pub open spec fn fifteen_of(ls: Seq<Seq<char>>) -> Option<Seq<char>>
    decreases ls.len(),
{
    if ls.len() == 0 {
        None
    } else {
        match fifteen_in(digit_runs(ls[0])) {
            Some(t) => Some(t),
            None => fifteen_of(ls.drop_first()),
        }
    }
}

/// `s` with every `\n` replaced by ` | `.
pub open spec fn bar_lines(s: Seq<char>) -> Seq<char>
    decreases s.len(),
{
    if s.len() == 0 {
        seq![]
    } else {
        bar_lines(s.drop_last()) + (if s.last() == '\n' {
            seq![' ', '|', ' ']
        } else {
            seq![s.last()]
        })
    }
}

/// The IMEI of an `AT+EGMREXT=0,7` answer: the value of an `+EGMREXT:`
/// line, else the first fifteen-digit run, else an error quoting the
/// answer.
pub open spec fn spec_parse_imei(r: Seq<char>) -> Result<Seq<char>, Seq<char>> {
    match egmrext_of(lines(r)) {
        Some(v) => Ok(v),
        None => match fifteen_of(lines(r)) {
            Some(t) => Ok(t),
            None => Err("未能解析 IMEI，原始响应: "@ + bar_lines(r)),
        },
    }
}

fn egmrext_line(v: &Vec<char>, a0: usize, b0: usize) -> (r: Option<String>)
    requires
        a0 <= b0 <= v@.len(),
    ensures
        match r {
            Some(x) => egmrext_value(trim(v@.subrange(a0 as int, b0 as int))) == Some(x@),
            None => egmrext_value(trim(v@.subrange(a0 as int, b0 as int))) is None,
        },
{
    let (a, b) = trim_range(v, a0, b0);
    let ghost l = v@.subrange(a as int, b as int);
    if !crate::text::range_starts_with_str(v, a, b, "+EGMREXT") {
        return None;
    }
    let mut p = a;
    while p < b && v[p] != ':'
        invariant
            a <= p <= b <= v@.len(),
            forall|j: int| a <= j < p ==> v@[j] != ':',
        decreases b - p,
    {
        p += 1;
    }
    if p == b {
        proof {
            assert forall|j: int| 0 <= j < l.len() implies l[j] != ':' by {
                assert(l[j] == v@[a + j]);
            }
            crate::text::lemma_find_char_none(l, ':');
        }
        return None;
    }
    proof {
        assert forall|j: int| 0 <= j < p - a implies l[j] != ':' by {
            assert(l[j] == v@[a + j]);
        }
        crate::text::lemma_find_char_at(l, ':', p - a);
        assert(l.skip(p - a + 1) == v@.subrange(p + 1, b as int));
    }
    let (x, y) = trim_range(v, p + 1, b);
    let (x2, y2) = trim_char_range(v, x, y, '"');
    if x2 < y2 {
        Some(string_of_range(v, x2, y2))
    } else {
        None
    }
}

fn fifteen_line(v: &Vec<char>, a: usize, b: usize) -> (r: Option<String>)
    requires
        a <= b <= v@.len(),
    ensures
        match r {
            Some(x) => fifteen_in(digit_runs(v@.subrange(a as int, b as int))) == Some(x@),
            None => fifteen_in(digit_runs(v@.subrange(a as int, b as int))) is None,
        },
{
    let mut m: Vec<char> = Vec::new();
    let mut i = a;
    while i < b
        invariant
            a <= i <= b <= v@.len(),
            m@ == v@.subrange(a as int, i as int).map_values(
                |c: char|
                    if is_digit(c) {
                        c
                    } else {
                        ','
                    },
            ),
        decreases b - i,
    {
        let c = v[i];
        m.push(if '0' <= c && c <= '9' { c } else { ',' });
        i += 1;
        assert(m@ =~= v@.subrange(a as int, i as int).map_values(
            |c: char|
                if is_digit(c) {
                    c
                } else {
                    ','
                },
        ));
    }
    assert(m@.subrange(0, m@.len() as int) == m@);
    let ts = split_range(&m, 0, m.len(), ',');
    let ghost all = digit_runs(v@.subrange(a as int, b as int));
    let mut k: usize = 0;
    assert(all.skip(0) == all);
    while k < ts.len()
        invariant
            all == split_char(m@, ','),
            all == digit_runs(v@.subrange(a as int, b as int)),
            ts@.len() == all.len(),
            forall|j: int|
                0 <= j < ts@.len() ==> 0 <= (#[trigger] ts@[j]).0 <= ts@[j].1 <= m@.len()
                    && m@.subrange(ts@[j].0 as int, ts@[j].1 as int) == all[j],
            k <= ts@.len(),
            fifteen_in(all) == fifteen_in(all.skip(k as int)),
        decreases ts.len() - k,
    {
        let ghost rest = all.skip(k as int);
        assert(rest[0] == all[k as int]);
        assert(rest.drop_first() == all.skip(k + 1));
        let (s, e) = ts[k];
        if e - s == 15 {
            return Some(string_of_range(&m, s, e));
        }
        k += 1;
    }
    None
}

/// `s` with every line break shown as ` | `.
fn bar_lines_exec(s: &str) -> (r: String)
    ensures
        r@ == bar_lines(s@),
{
    let v = chars_of(s);
    let mut out = String::new();
    let mut i: usize = 0;
    while i < v.len()
        invariant
            i <= v@.len(),
            out@ == bar_lines(v@.take(i as int)),
        decreases v.len() - i,
    {
        assert(v@.take(i + 1).drop_last() == v@.take(i as int));
        if v[i] == '\n' {
            crate::text::push_char(&mut out, ' ');
            crate::text::push_char(&mut out, '|');
            crate::text::push_char(&mut out, ' ');
            assert(out@ =~= bar_lines(v@.take(i as int)) + seq![' ', '|', ' ']);
        } else {
            crate::text::push_char(&mut out, v[i]);
            assert(out@ =~= bar_lines(v@.take(i as int)) + seq![v@[i as int]]);
        }
        i += 1;
    }
    assert(v@.take(v@.len() as int) == v@);
    out
}

/// The IMEI of an `AT+EGMREXT=0,7` answer (see [`spec_parse_imei`]).
pub fn parse_imei(r: &str) -> (res: Result<String, String>)
    ensures
        match res {
            Ok(x) => spec_parse_imei(r@) == Ok::<Seq<char>, Seq<char>>(x@),
            Err(e) => spec_parse_imei(r@) == Err::<Seq<char>, Seq<char>>(e@),
        },
{
    let v = chars_of(r);
    assert(v@.subrange(0, v@.len() as int) == v@);
    let ls = lines_range(&v, 0, v.len());
    let ghost all = lines(v@);
    let mut k: usize = 0;
    assert(all.skip(0) == all);
    while k < ls.len()
        invariant
            all == lines(v@),
            v@ == r@,
            ls@.len() == all.len(),
            forall|j: int|
                0 <= j < ls@.len() ==> 0 <= (#[trigger] ls@[j]).0 <= ls@[j].1 <= v@.len()
                    && v@.subrange(ls@[j].0 as int, ls@[j].1 as int) == all[j],
            k <= ls@.len(),
            egmrext_of(all) == egmrext_of(all.skip(k as int)),
        decreases ls.len() - k,
    {
        let ghost rest = all.skip(k as int);
        assert(rest[0] == all[k as int]);
        assert(rest.drop_first() == all.skip(k + 1));
        let (a0, b0) = ls[k];
        assert(v@.subrange(a0 as int, b0 as int) == all[k as int]);
        match egmrext_line(&v, a0, b0) {
            Some(x) => {
                return Ok(x);
            },
            None => {},
        }
        k += 1;
    }
    let mut k: usize = 0;
    assert(all.skip(0) == all);
    while k < ls.len()
        invariant
            all == lines(v@),
            v@ == r@,
            egmrext_of(all) is None,
            ls@.len() == all.len(),
            forall|j: int|
                0 <= j < ls@.len() ==> 0 <= (#[trigger] ls@[j]).0 <= ls@[j].1 <= v@.len()
                    && v@.subrange(ls@[j].0 as int, ls@[j].1 as int) == all[j],
            k <= ls@.len(),
            fifteen_of(all) == fifteen_of(all.skip(k as int)),
        decreases ls.len() - k,
    {
        let ghost rest = all.skip(k as int);
        assert(rest[0] == all[k as int]);
        assert(rest.drop_first() == all.skip(k + 1));
        let (a0, b0) = ls[k];
        assert(v@.subrange(a0 as int, b0 as int) == all[k as int]);
        match fifteen_line(&v, a0, b0) {
            Some(x) => {
                return Ok(x);
            },
            None => {},
        }
        k += 1;
    }
    let mut e = String::new();
    push_str(&mut e, "未能解析 IMEI，原始响应: ");
    let b = bar_lines_exec(r);
    push_str(&mut e, b.as_str());
    Err(e)
}

/// What a confirmed, enabled write of a well-formed IMEI sends.
pub struct WritePlan {
    /// The new IMEI, trimmed.
    pub imei: String,
    pub command: String,
    pub luhn_ok: bool,
    pub warning: Option<String>,
}

/// The checks before an IMEI write, in order: confirmation, the
/// `imei_write` switch, fifteen digits. On success, the command to send and
/// the Luhn verdict (advisory: a failed check warns, it does not refuse).
pub fn write_plan(cfg: &Config, value: &str, confirm: bool) -> (r: Result<WritePlan, String>)
    ensures
        !confirm ==> (r matches Err(e) && e@ == "拒绝执行：缺少二次确认（需 confirm=1）"@),
        confirm && !cfg.imei_write ==> (r matches Err(e) && e@
            == "拒绝执行：IMEI 写入功能未开启，请先在设置中开启 imei_write"@),
        confirm && cfg.imei_write && !spec_valid_format(trim(value@)) ==> (r matches Err(e) && e@
            == "IMEI 格式无效：必须为 15 位数字，收到 "@ + dec_str((encode_utf8(trim(value@)).len() as usize) as nat)
            + " 位"@),
        confirm && cfg.imei_write && spec_valid_format(trim(value@)) ==> (r matches Ok(p) && p.imei@
            == trim(value@) && p.command@ == "AT+EGMREXT=1,7,\""@ + trim(value@) + "\""@ && p.luhn_ok
            == spec_luhn_ok(trim(value@)) && (p.warning is None <==> p.luhn_ok)),
{
    if !confirm {
        return Err(String::from_str("拒绝执行：缺少二次确认（需 confirm=1）"));
    }
    if !cfg.imei_write {
        return Err(String::from_str("拒绝执行：IMEI 写入功能未开启，请先在设置中开启 imei_write"));
    }
    let imei = crate::at::port::trimmed(value);
    if !valid_format(imei.as_str()) {
        let mut e = String::new();
        push_str(&mut e, "IMEI 格式无效：必须为 15 位数字，收到 ");
        crate::text::push_dec(&mut e, byte_len(imei.as_str()) as u64);
        push_str(&mut e, " 位");
        assert(Seq::<char>::empty() + "IMEI 格式无效：必须为 15 位数字，收到 "@ == "IMEI 格式无效：必须为 15 位数字，收到 "@);
        return Err(e);
    }
    let luhn = luhn_ok(imei.as_str());
    let warning = if luhn {
        None
    } else {
        Some(String::from_str("新 IMEI 未通过 Luhn 校验位验证，多数运营商网元会据此拒绝入网，请确认输入无误"))
    };
    let command = crate::at::cmd::egmrext_write_imei(imei.as_str());
    Ok(WritePlan { imei, command, luhn_ok: luhn, warning })
}

/// The length of a string in bytes.
fn byte_len(s: &str) -> (n: usize)
    ensures
        n == s.spec_bytes().len() as usize,
{
    s.len()
}

/// The raw pass-through guard: a command that writes the IMEI is refused
/// unless `imei_write` is enabled.
pub fn guard_transparent(cmd: &str, cfg: &Config) -> (r: Result<(), String>)
    ensures
        r is Err <==> (imei_write_of_upper(upper_of(trim(cmd@))) && !cfg.imei_write),
        r matches Err(e) ==> e@ == "已拒绝 `"@ + trim(cmd@) + "`：IMEI 写入需在设置中开启 imei_write 后，通过 IMEI 专用接口执行"@,
{
    if crate::at::guard::is_imei_write(cmd) && !cfg.imei_write {
        let mut e = String::new();
        push_str(&mut e, "已拒绝 `");
        let t = crate::at::port::trimmed(cmd);
        push_str(&mut e, t.as_str());
        push_str(&mut e, "`：IMEI 写入需在设置中开启 imei_write 后，通过 IMEI 专用接口执行");
        return Err(e);
    }
    Ok(())
}

/// Whether the answer to the write reports an error.
pub fn write_failed(resp: &str) -> (b: bool)
    ensures
        b == crate::text::contains_str(resp@, "ERROR"@),
{
    crate::at::parse::has_error(resp)
}

} // verus!
