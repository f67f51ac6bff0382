//! Module identification (`AT+CGMI`, `CGMM`, `CGMR`, `CIMI`, `ICCID`, ...).
use crate::at::cmd;
use crate::text::{
    chars_of, find_char, lines, lines_range, starts_with, string_of_range, trim, trim_char,
    trim_char_range, trim_end_char, trim_range, trim_end_char_range,
};
use vstd::prelude::*;

verus! {

/// What the daemon shows about the module.
#[derive(Debug)]
pub struct ModemInfo {
    pub manufacturer: String,
    pub model: String,
    pub firmware: String,
    pub imei: String,
    pub imsi: String,
    pub iccid: String,
    pub serial: String,
    pub usb_mode: String,
    pub sim_slot: String,
    pub sms_center: String,
}

/// `s` with every leading `p` removed (`str::trim_start_matches` for a
/// string pattern).
pub open spec fn trim_start_str(s: Seq<char>, p: Seq<char>) -> Seq<char>
    decreases s.len(),
{
    if p.len() > 0 && starts_with(s, p) {
        trim_start_str(s.skip(p.len() as int), p)
    } else {
        s
    }
}

/// Whether a command has no `+XXX` prefix to look for (`AT` alone).
pub open spec fn bare_command(c: Seq<char>) -> bool {
    trim_start_str(trim_end_char(trim(c), '?'), "AT"@).len() == 0
}

/// What one trimmed line of an identification response decides: `None`
/// to look further, `Some(v)` to answer `v`. Blank lines, `OK` and
/// `ERROR...` are skipped; a `+CME ERROR` / `+CMS ERROR` report answers
/// nothing (empty); `+XXX: value` answers the unquoted value when not
/// empty; a bare line answers itself (a `+` line only when the command is
/// bare).
pub open spec fn clean_step(l: Seq<char>, bare: bool) -> Option<Seq<char>> {
    if l.len() == 0 || l == "OK"@ || starts_with(l, "ERROR"@) {
        None
    } else if starts_with(l, "+CME ERROR"@) || starts_with(l, "+CMS ERROR"@) {
        Some(seq![])
    } else if l[0] == '+' && find_char(l.drop_first(), ':') >= 0 && trim_char(
        trim(l.drop_first().skip(find_char(l.drop_first(), ':') + 1)),
        '"',
    ).len() > 0 {
        Some(trim_char(trim(l.drop_first().skip(find_char(l.drop_first(), ':') + 1)), '"'))
    } else if l[0] == '+' && find_char(l.drop_first(), ':') >= 0 {
        None
    } else if bare || l[0] != '+' {
        Some(l)
    } else {
        None
    }
}

/// The value of an identification response: the answer of the first line
/// that decides one (empty when none does).
pub open spec fn clean_of(ls: Seq<Seq<char>>, bare: bool) -> Seq<char>
    decreases ls.len(),
{
    if ls.len() == 0 {
        seq![]
    } else {
        match clean_step(trim(ls[0]), bare) {
            Some(v) => v,
            None => clean_of(ls.drop_first(), bare),
        }
    }
}

/// The readable value of the response `resp` to `cmd`.
pub open spec fn spec_clean_value(resp: Seq<char>, cmd: Seq<char>) -> Seq<char> {
    clean_of(lines(resp), bare_command(cmd))
}

fn is_bare_command(c: &str) -> (b: bool)
    ensures
        b == bare_command(c@),
{
    let v = chars_of(c);
    assert(v@.subrange(0, v@.len() as int) == v@);
    let (a, b0) = trim_range(&v, 0, v.len());
    let b = trim_end_char_range(&v, a, b0, '?');
    let mut i = a;
    proof {
        reveal_strlit("AT");
    }
    assert(trim_start_str(v@.subrange(a as int, b as int), "AT"@) == trim_start_str(
        v@.subrange(i as int, b as int),
        "AT"@,
    ));
    while b - i > 1 && v[i] == 'A' && v[i + 1] == 'T'
        invariant
            a <= i <= b <= v@.len(),
            "AT"@ == seq!['A', 'T'],
            trim_start_str(v@.subrange(a as int, b as int), "AT"@) == trim_start_str(
                v@.subrange(i as int, b as int),
                "AT"@,
            ),
        decreases b - i,
    {
        let ghost t = v@.subrange(i as int, b as int);
        assert(t.take(2) =~= seq!['A', 'T']);
        assert(t.skip(2) == v@.subrange(i + 2, b as int));
        i += 2;
    }
    proof {
        let t = v@.subrange(i as int, b as int);
        if starts_with(t, "AT"@) {
            assert(t[0] == 'A' && t[1] == 'T');
        }
    }
    i == b
}

fn clean_line(v: &Vec<char>, a0: usize, b0: usize, bare: bool) -> (r: Option<String>)
    requires
        a0 <= b0 <= v@.len(),
    ensures
        match r {
            Some(x) => clean_step(trim(v@.subrange(a0 as int, b0 as int)), bare) == Some(x@),
            None => clean_step(trim(v@.subrange(a0 as int, b0 as int)), bare) is None,
        },
{
    let (a, b) = trim_range(v, a0, b0);
    let ghost l = v@.subrange(a as int, b as int);
    if a == b || crate::text::range_eq_str(v, a, b, "OK") || crate::text::range_starts_with_str(
        v,
        a,
        b,
        "ERROR",
    ) {
        return None;
    }
    if crate::text::range_starts_with_str(v, a, b, "+CME ERROR")
        || crate::text::range_starts_with_str(v, a, b, "+CMS ERROR") {
        return Some(String::new());
    }
    if v[a] == '+' {
        // the first ':' after the '+'
        let mut p = a + 1;
        while p < b && v[p] != ':'
            invariant
                a + 1 <= p <= b <= v@.len(),
                forall|j: int| a + 1 <= j < p ==> v@[j] != ':',
            decreases b - p,
        {
            p += 1;
        }
        let ghost d = l.drop_first();
        assert(d == v@.subrange(a + 1, b as int));
        if p < b {
            proof {
                assert forall|j: int| 0 <= j < p - a - 1 implies d[j] != ':' by {
                    assert(d[j] == v@[a + 1 + j]);
                }
                crate::text::lemma_find_char_at(d, ':', p - a - 1);
                assert(d.skip(p - a - 1 + 1) == v@.subrange(p + 1, b as int));
            }
            let (x, y) = trim_range(v, p + 1, b);
            let (x2, y2) = trim_char_range(v, x, y, '"');
            if x2 < y2 {
                return Some(string_of_range(v, x2, y2));
            }
            return None;
        }
        proof {
            assert forall|j: int| 0 <= j < d.len() implies d[j] != ':' by {
                assert(d[j] == v@[a + 1 + j]);
            }
            crate::text::lemma_find_char_none(d, ':');
        }
    }
    if bare || v[a] != '+' {
        return Some(string_of_range(v, a, b));
    }
    None
}

/// The readable value of an identification response: the value after
/// `+XXX:`, else the first line that is neither blank nor a result code;
/// empty for error reports.
pub fn clean_value(resp: &str, cmd: &str) -> (r: String)
    ensures
        r@ == spec_clean_value(resp@, cmd@),
{
    let bare = is_bare_command(cmd);
    let v = chars_of(resp);
    assert(v@.subrange(0, v@.len() as int) == v@);
    let ls = lines_range(&v, 0, v.len());
    let ghost all = lines(v@);
    let mut k: usize = 0;
    assert(all.skip(0) == all);
    while k < ls.len()
        invariant
            all == lines(v@),
            v@ == resp@,
            bare == bare_command(cmd@),
            ls@.len() == all.len(),
            forall|j: int|
                0 <= j < ls@.len() ==> 0 <= (#[trigger] ls@[j]).0 <= ls@[j].1 <= v@.len()
                    && v@.subrange(ls@[j].0 as int, ls@[j].1 as int) == all[j],
            k <= ls@.len(),
            clean_of(all, bare) == clean_of(all.skip(k as int), bare),
        decreases ls.len() - k,
    {
        let ghost rest = all.skip(k as int);
        assert(rest[0] == all[k as int]);
        assert(rest.drop_first() == all.skip(k + 1));
        let (a0, b0) = ls[k];
        assert(v@.subrange(a0 as int, b0 as int) == all[k as int]);
        match clean_line(&v, a0, b0, bare) {
            Some(x) => {
                assert(clean_of(rest, bare) == x@);
                return x;
            },
            None => {},
        }
        k += 1;
    }
    String::new()
}

/// The identification commands, in the order [`assemble_info`] takes their
/// responses: manufacturer, model, firmware, IMEI (read form), IMSI, ICCID,
/// serial, USB mode, SIM slot, SMS centre.
pub fn info_commands() -> (r: Vec<&'static str>)
    ensures
        r@.len() == 10,
        r@[0]@ == cmd::CGMI@,
        r@[1]@ == cmd::CGMM@,
        r@[2]@ == cmd::CGMR@,
        r@[3]@ == cmd::EGMREXT_READ_IMEI@,
        r@[4]@ == cmd::CIMI@,
        r@[5]@ == cmd::ICCID@,
        r@[6]@ == cmd::CGSN@,
        r@[7]@ == cmd::GTUSBMODE_READ@,
        r@[8]@ == cmd::GTDUALSIM_READ@,
        r@[9]@ == cmd::CSCA_READ@,
{
    let mut v: Vec<&'static str> = Vec::new();
    v.push(cmd::CGMI);
    v.push(cmd::CGMM);
    v.push(cmd::CGMR);
    v.push(cmd::EGMREXT_READ_IMEI);
    v.push(cmd::CIMI);
    v.push(cmd::ICCID);
    v.push(cmd::CGSN);
    v.push(cmd::GTUSBMODE_READ);
    v.push(cmd::GTDUALSIM_READ);
    v.push(cmd::CSCA_READ);
    v
}

/// The module information from the responses to [`info_commands`] (a
/// failed command counts as an empty response); the serial number falls
/// back to the IMEI when `AT+CGSN` gave nothing.
pub fn assemble_info(raws: &Vec<String>) -> (m: ModemInfo)
    requires
        raws@.len() == 10,
    ensures
        m.manufacturer@ == spec_clean_value(raws@[0]@, cmd::CGMI@),
        m.model@ == spec_clean_value(raws@[1]@, cmd::CGMM@),
        m.firmware@ == spec_clean_value(raws@[2]@, cmd::CGMR@),
        m.imei@ == spec_clean_value(raws@[3]@, cmd::EGMREXT_READ_IMEI@),
        m.imsi@ == spec_clean_value(raws@[4]@, cmd::CIMI@),
        m.iccid@ == spec_clean_value(raws@[5]@, cmd::ICCID@),
        m.serial@ == (if spec_clean_value(raws@[6]@, cmd::CGSN@).len() == 0 {
            spec_clean_value(raws@[3]@, cmd::EGMREXT_READ_IMEI@)
        } else {
            spec_clean_value(raws@[6]@, cmd::CGSN@)
        }),
        m.usb_mode@ == spec_clean_value(raws@[7]@, cmd::GTUSBMODE_READ@),
        m.sim_slot@ == spec_clean_value(raws@[8]@, cmd::GTDUALSIM_READ@),
        m.sms_center@ == spec_clean_value(raws@[9]@, cmd::CSCA_READ@),
{
    let imei = clean_value(raws[3].as_str(), cmd::EGMREXT_READ_IMEI);
    let serial0 = clean_value(raws[6].as_str(), cmd::CGSN);
    let serial = if serial0.as_str().is_empty() {
        imei.clone()
    } else {
        serial0
    };
    ModemInfo {
        manufacturer: clean_value(raws[0].as_str(), cmd::CGMI),
        model: clean_value(raws[1].as_str(), cmd::CGMM),
        firmware: clean_value(raws[2].as_str(), cmd::CGMR),
        imei,
        imsi: clean_value(raws[4].as_str(), cmd::CIMI),
        iccid: clean_value(raws[5].as_str(), cmd::ICCID),
        serial,
        usb_mode: clean_value(raws[7].as_str(), cmd::GTUSBMODE_READ),
        sim_slot: clean_value(raws[8].as_str(), cmd::GTDUALSIM_READ),
        sms_center: clean_value(raws[9].as_str(), cmd::CSCA_READ),
    }
}

} // verus!
