//! Signal quality and registration.
//!
//! `AT+CSQ` reads `99,99` on this module; the real source is `AT+CESQ`,
//! whose nine fields are step indexes, valid only for the current RAT. The
//! RAT comes from the serving cell of `AT+GTCCINFO?`. LTE has no SINR index:
//! field 10 of the LTE serving cell is `<rssnr_value>`, already in dB.
//!
//! A step index `n >= 1` stands for `[base + (n-1)*step, base + n*step)`;
//! the lower bound is reported. Values with half-dB steps are given in
//! tenths of a dB, which they are exactly.
use crate::at::parse::{field_text, first, raw_lines, spec_first, take_at_most, prefixed_lines};
use crate::modem::band::{
    bandwidth_text, lte_band_from_code, lte_band_from_earfcn, nr_band_from_arfcn, nr_band_from_code,
    operator_name, opt_str_view, opt_string_view, spec_bandwidth_text, spec_lte_band_from_code,
    spec_lte_band_from_earfcn, spec_nr_band_from_arfcn, spec_nr_band_from_code, spec_operator_name,
};
use crate::text::{
    chars_of, lines, lines_range, parse_int, parse_uint, split_char, split_range, starts_with,
    string_of_range, strs, str_eq, trim, trim_char, trim_char_range, trim_range, push_str,
};
use vstd::prelude::*;

verus! {

/// Lower bound of step `idx` in whole units: `base - step` for index 0.
pub open spec fn idx_lower(idx: int, base: int, step: int) -> int {
    if idx <= 0 {
        base - step
    } else {
        base + (idx - 1) * step
    }
}

/// SS-RSRP (NR), dBm: 1 is [-156,-155), 126 is >= -31, 255 unknown.
pub fn ss_rsrp_dbm(idx: i32) -> (r: Option<i32>)
    ensures
        r == (if 0 <= idx <= 126 {
            Some(idx_lower(idx as int, -156, 1) as i32)
        } else {
            None
        }),
{
    if idx < 0 || idx > 126 {
        return None;
    }
    Some(if idx <= 0 {
        -157
    } else {
        -156 + (idx - 1)
    })
}

/// SS-RSRQ (NR), tenths of a dB: 1 is [-43,-42.5), 255 unknown.
pub fn ss_rsrq_tenths(idx: i32) -> (r: Option<i32>)
    ensures
        r == (if 0 <= idx <= 126 {
            Some(idx_lower(idx as int, -430, 5) as i32)
        } else {
            None
        }),
{
    if idx < 0 || idx > 126 {
        return None;
    }
    Some(if idx <= 0 {
        -435
    } else {
        -430 + (idx - 1) * 5
    })
}

/// SS-SINR (NR), tenths of a dB: 1 is [-23,-22.5), 127 is >= 40, 255
/// unknown.
pub fn ss_sinr_tenths(idx: i32) -> (r: Option<i32>)
    ensures
        r == (if 0 <= idx <= 127 {
            Some(idx_lower(idx as int, -230, 5) as i32)
        } else {
            None
        }),
{
    if idx < 0 || idx > 127 {
        return None;
    }
    Some(if idx <= 0 {
        -235
    } else {
        -230 + (idx - 1) * 5
    })
}

/// RSRP (LTE), dBm: 1 is [-140,-139), 97 is >= -44, 255 unknown.
pub fn lte_rsrp_dbm(idx: i32) -> (r: Option<i32>)
    ensures
        r == (if 0 <= idx <= 97 {
            Some(idx_lower(idx as int, -140, 1) as i32)
        } else {
            None
        }),
{
    if idx < 0 || idx > 97 {
        return None;
    }
    Some(if idx <= 0 {
        -141
    } else {
        -140 + (idx - 1)
    })
}

/// RSRQ (LTE), tenths of a dB: 1 is [-19.5,-19), 34 is >= -3, 255 unknown.
pub fn lte_rsrq_tenths(idx: i32) -> (r: Option<i32>)
    ensures
        r == (if 0 <= idx <= 34 {
            Some(idx_lower(idx as int, -195, 5) as i32)
        } else {
            None
        }),
{
    if idx < 0 || idx > 34 {
        return None;
    }
    Some(if idx <= 0 {
        -200
    } else {
        -195 + (idx - 1) * 5
    })
}

/// RSCP (WCDMA), dBm: 1 is [-120,-119), 96 is >= -25, 255 unknown.
pub fn rscp_dbm(idx: i32) -> (r: Option<i32>)
    ensures
        r == (if 0 <= idx <= 96 {
            Some(idx_lower(idx as int, -120, 1) as i32)
        } else {
            None
        }),
{
    if idx < 0 || idx > 96 {
        return None;
    }
    Some(if idx <= 0 {
        -121
    } else {
        -120 + (idx - 1)
    })
}

/// Ec/Io (WCDMA), tenths of a dB: 1 is [-24,-23.5), 49 is >= 0, 255
/// unknown.
pub fn ecno_tenths(idx: i32) -> (r: Option<i32>)
    ensures
        r == (if 0 <= idx <= 49 {
            Some(idx_lower(idx as int, -240, 5) as i32)
        } else {
            None
        }),
{
    if idx < 0 || idx > 49 {
        return None;
    }
    Some(if idx <= 0 {
        -245
    } else {
        -240 + (idx - 1) * 5
    })
}

/// rxlev (GERAN), dBm: 1 is [-110,-109), 63 is >= -48, 99 unknown.
pub fn rxlev_dbm(idx: i32) -> (r: Option<i32>)
    ensures
        r == (if 0 <= idx <= 63 {
            Some(idx_lower(idx as int, -110, 1) as i32)
        } else {
            None
        }),
{
    if idx < 0 || idx > 63 {
        return None;
    }
    Some(if idx <= 0 {
        -111
    } else {
        -110 + (idx - 1)
    })
}

/// CSQ RSSI: 0 is -113 dBm, 2 dBm per step up to 31; 99 unknown.
pub fn csq_to_dbm(csq: u32) -> (r: Option<i32>)
    ensures
        r == (if csq <= 31 {
            Some((-113 + 2 * csq) as i32)
        } else {
            None
        }),
{
    if csq <= 31 {
        Some(-113 + 2 * (csq as i32))
    } else {
        None
    }
}

/// The `<rat>` of `AT+GTCCINFO?` in words.
pub open spec fn spec_cell_rat_text(rat: Seq<char>) -> Seq<char> {
    if rat == "0"@ {
        "无网络"@
    } else if rat == "2"@ {
        "WCDMA (3G)"@
    } else if rat == "4"@ {
        "LTE (4G)"@
    } else if rat == "9"@ {
        "5G NR"@
    } else {
        ""@
    }
}

/// The `<rat>` of `AT+GTCCINFO?` in words (0 none, 2 WCDMA, 4 LTE, 9 NR).
pub fn cell_rat_text(rat: &str) -> (r: &'static str)
    ensures
        r@ == spec_cell_rat_text(rat@),
{
    if str_eq(rat, "0") {
        "无网络"
    } else if str_eq(rat, "2") {
        "WCDMA (3G)"
    } else if str_eq(rat, "4") {
        "LTE (4G)"
    } else if str_eq(rat, "9") {
        "5G NR"
    } else {
        ""
    }
}

/// A registration state in words (TS 27.007).
pub open spec fn spec_reg_text(state: Seq<char>) -> Seq<char> {
    if state == "0"@ {
        "未注册"@
    } else if state == "1"@ {
        "已注册（归属网络）"@
    } else if state == "2"@ {
        "搜索中"@
    } else if state == "3"@ {
        "注册被拒绝"@
    } else if state == "4"@ {
        "未知"@
    } else if state == "5"@ {
        "已注册（漫游）"@
    } else {
        "未知"@
    }
}

/// A registration state in words.
pub fn reg_text(state: &str) -> (r: &'static str)
    ensures
        r@ == spec_reg_text(state@),
{
    if str_eq(state, "0") {
        "未注册"
    } else if str_eq(state, "1") {
        "已注册（归属网络）"
    } else if str_eq(state, "2") {
        "搜索中"
    } else if str_eq(state, "3") {
        "注册被拒绝"
    } else if str_eq(state, "4") {
        "未知"
    } else if str_eq(state, "5") {
        "已注册（漫游）"
    } else {
        "未知"
    }
}

/// An access technology code in words.
pub open spec fn spec_act_text(act: Seq<char>) -> Seq<char> {
    if act == "0"@ {
        "GSM"@
    } else if act == "2"@ {
        "UTRAN"@
    } else if act == "3"@ {
        "GSM/EGPRS"@
    } else if act == "4"@ {
        "UTRAN HSDPA"@
    } else if act == "5"@ {
        "UTRAN HSUPA"@
    } else if act == "6"@ {
        "UTRAN HSDPA/HSUPA"@
    } else if act == "7"@ {
        "E-UTRAN (LTE)"@
    } else if act == "8"@ {
        "EC-GSM-IoT"@
    } else if act == "9"@ {
        "E-UTRAN (NB-S1)"@
    } else if act == "10"@ {
        "E-UTRAN (NB-S2)"@
    } else if act == "11"@ {
        "NR (5G)"@
    } else if act == "12"@ {
        "NG-RAN"@
    } else if act == "13"@ {
        "NR (5G) + E-UTRA"@
    } else {
        "未知"@
    }
}

/// An access technology code in words.
pub fn act_text(act: &str) -> (r: &'static str)
    ensures
        r@ == spec_act_text(act@),
{
    if str_eq(act, "0") {
        "GSM"
    } else if str_eq(act, "2") {
        "UTRAN"
    } else if str_eq(act, "3") {
        "GSM/EGPRS"
    } else if str_eq(act, "4") {
        "UTRAN HSDPA"
    } else if str_eq(act, "5") {
        "UTRAN HSUPA"
    } else if str_eq(act, "6") {
        "UTRAN HSDPA/HSUPA"
    } else if str_eq(act, "7") {
        "E-UTRAN (LTE)"
    } else if str_eq(act, "8") {
        "EC-GSM-IoT"
    } else if str_eq(act, "9") {
        "E-UTRAN (NB-S1)"
    } else if str_eq(act, "10") {
        "E-UTRAN (NB-S2)"
    } else if str_eq(act, "11") {
        "NR (5G)"
    } else if str_eq(act, "12") {
        "NG-RAN"
    } else if str_eq(act, "13") {
        "NR (5G) + E-UTRA"
    } else {
        "未知"
    }
}

/// What one line of `AT+GTCCINFO?` is: blank and `OK...` lines are skipped;
/// the text after an optional `+GTCCINFO:` prefix, trimmed, is the body;
/// the serving cell is the body whose first field is `1`.
pub open spec fn cell_body(line: Seq<char>) -> Seq<char> {
    let l = trim(line);
    trim(
        if starts_with(l, "+GTCCINFO:"@) {
            l.skip(10)
        } else {
            l
        },
    )
}

/// The serving-cell fields a line gives, if it is the serving cell: not
/// blank, not `OK...`, a non-empty body whose first field is `1`; split at
/// `,`, trimmed and unquoted.
pub open spec fn serving_step(line: Seq<char>) -> Option<Seq<Seq<char>>> {
    let l = trim(line);
    let body = cell_body(line);
    if l.len() == 0 || starts_with(l, "OK"@) || body.len() == 0 || trim(split_char(body, ',')[0])
        != "1"@ {
        None
    } else {
        Some(split_char(body, ',').map_values(|x: Seq<char>| field_text(x)))
    }
}

/// The fields of the first serving-cell line.
pub open spec fn serving_cell_of(ls: Seq<Seq<char>>) -> Seq<Seq<char>>
    decreases ls.len(),
{
    if ls.len() == 0 {
        seq![]
    } else {
        match serving_step(ls[0]) {
            Some(c) => c,
            None => serving_cell_of(ls.drop_first()),
        }
    }
}

fn serving_line(v: &Vec<char>, a0: usize, b0: usize) -> (r: Option<Vec<String>>)
    requires
        a0 <= b0 <= v@.len(),
    ensures
        match r {
            Some(c) => serving_step(v@.subrange(a0 as int, b0 as int)) == Some(strs(c@)),
            None => serving_step(v@.subrange(a0 as int, b0 as int)) is None,
        },
{
    proof {
        reveal_strlit("+GTCCINFO:");
    }
    let (a, b) = trim_range(v, a0, b0);
    if a == b || crate::text::range_starts_with_str(v, a, b, "OK") {
        return None;
    }
    let s = if crate::text::range_starts_with_str(v, a, b, "+GTCCINFO:") {
        assert(v@.subrange(a as int, b as int).skip(10) == v@.subrange(a + 10, b as int));
        a + 10
    } else {
        a
    };
    let (x, y) = trim_range(v, s, b);
    assert(v@.subrange(x as int, y as int) == cell_body(v@.subrange(a0 as int, b0 as int)));
    if x == y {
        return None;
    }
    let parts = split_range(v, x, y, ',');
    let ghost ps = split_char(v@.subrange(x as int, y as int), ',');
    let (p0, q0) = parts[0];
    let (p1, q1) = trim_range(v, p0, q0);
    if !crate::text::range_eq_str(v, p1, q1, "1") {
        return None;
    }
    let mut out: Vec<String> = Vec::new();
    let mut j: usize = 0;
    while j < parts.len()
        invariant
            x <= y <= v@.len(),
            ps == split_char(v@.subrange(x as int, y as int), ','),
            parts@.len() == ps.len(),
            forall|m: int|
                0 <= m < parts@.len() ==> x <= (#[trigger] parts@[m]).0 <= parts@[m].1 <= y
                    && v@.subrange(parts@[m].0 as int, parts@[m].1 as int) == ps[m],
            j <= parts@.len(),
            out@.len() == j,
            forall|m: int| 0 <= m < j ==> (#[trigger] out@[m])@ == field_text(ps[m]),
        decreases parts.len() - j,
    {
        let (s1, e1) = parts[j];
        let (s2, e2) = trim_range(v, s1, e1);
        let (s3, e3) = trim_char_range(v, s2, e2, '"');
        out.push(string_of_range(v, s3, e3));
        j += 1;
    }
    assert(strs(out@) =~= ps.map_values(|x: Seq<char>| field_text(x)));
    Some(out)
}

/// The serving-cell fields of an `AT+GTCCINFO?` answer (neighbour rows,
/// first field `2`, are ignored).
pub fn service_cell(resp: &str) -> (r: Vec<String>)
    ensures
        strs(r@) == serving_cell_of(lines(resp@)),
{
    let v = chars_of(resp);
    assert(v@.subrange(0, v@.len() as int) == v@);
    let ls = lines_range(&v, 0, v.len());
    let ghost all = lines(v@);
    let mut k: usize = 0;
    assert(all.skip(0) == all);
    while k < ls.len()
        invariant
            all == lines(v@),
            v@ == resp@,
            ls@.len() == all.len(),
            forall|j: int|
                0 <= j < ls@.len() ==> 0 <= (#[trigger] ls@[j]).0 <= ls@[j].1 <= v@.len()
                    && v@.subrange(ls@[j].0 as int, ls@[j].1 as int) == all[j],
            k <= ls@.len(),
            serving_cell_of(all) == serving_cell_of(all.skip(k as int)),
        decreases ls.len() - k,
    {
        let ghost rest = all.skip(k as int);
        assert(rest[0] == all[k as int]);
        assert(rest.drop_first() == all.skip(k + 1));
        let (a0, b0) = ls[k];
        assert(v@.subrange(a0 as int, b0 as int) == all[k as int]);
        match serving_line(&v, a0, b0) {
            Some(c) => {
                return c;
            },
            None => {},
        }
        k += 1;
    }
    let e: Vec<String> = Vec::new();
    assert(strs(e@) =~= Seq::<Seq<char>>::empty());
    e
}

/// The signal report without the derived scores (those are floating point
/// and computed by the caller from these values).
#[derive(Debug, Default)]
pub struct SignalCore {
    pub csq: Option<u32>,
    pub rssi_dbm: Option<i32>,
    pub ber: Option<u32>,
    pub rat: String,
    pub reg_state: String,
    pub operator: String,
    /// Readable carrier name (empty when not listed).
    pub operator_name: String,
    pub lac: String,
    pub cid: String,
    pub band: String,
    pub bandwidth: String,
    /// Whether the band was reported or derived from the ARFCN.
    pub band_source: String,
    pub pci: String,
    pub arfcn: String,
    pub rsrp: Option<i32>,
    /// RSRQ (or Ec/Io), tenths of a dB.
    pub rsrq_tenths: Option<i32>,
    /// SINR, tenths of a dB.
    pub sinr_tenths: Option<i32>,
    /// Carrier aggregation lines, raw (at most eight).
    pub ca: Vec<String>,
    /// Which command and RAT the values come from.
    pub source: String,
}

/// Field `i` or empty.
pub open spec fn get(row: Seq<Seq<char>>, i: int) -> Seq<char> {
    crate::modem::pdp::field_or_empty(row, i)
}

/// The first row of an optional answer.
pub open spec fn first_row(resp: Option<Seq<char>>, p: Seq<char>) -> Seq<Seq<char>> {
    match resp {
        Some(r) => spec_first(r, p),
        None => seq![],
    }
}

/// The registration fields: `+CEREG`, else `+CREG`.
pub open spec fn reg_fields(reg: Seq<char>) -> Seq<Seq<char>> {
    if spec_first(reg, "+CEREG"@).len() == 0 {
        spec_first(reg, "+CREG"@)
    } else {
        spec_first(reg, "+CEREG"@)
    }
}

/// CESQ index `i`, parsed as `i32`.
pub open spec fn cesq_idx(cesq: Option<Seq<char>>, i: int) -> Option<i32> {
    let row = first_row(cesq, "+CESQ"@);
    if 0 <= i < row.len() {
        match parse_int(row[i], i32::MIN as int, i32::MAX as int) {
            Some(n) => Some(n as i32),
            None => None,
        }
    } else {
        None
    }
}

/// An optional index mapped through a scale `0..=max` with lower bounds
/// `base` and step `step`.
pub open spec fn scaled(i: Option<i32>, max: int, base: int, step: int) -> Option<i32> {
    match i {
        Some(x) => if 0 <= x <= max {
            Some(idx_lower(x as int, base, step) as i32)
        } else {
            None
        },
        None => None,
    }
}

/// The LTE `<rssnr_value>` of the serving cell in tenths of a dB, when it
/// is within -100..=100 dB.
pub open spec fn rssnr_tenths(cell: Seq<Seq<char>>) -> Option<i32> {
    if cell.len() > 10 {
        match parse_int(cell[10], i32::MIN as int, i32::MAX as int) {
            Some(v) => if -100 <= v <= 100 {
                Some((v * 10) as i32)
            } else {
                None
            },
            None => None,
        }
    } else {
        None
    }
}

/// The measurements by serving-cell RAT: `(rsrp, rsrq tenths, sinr tenths,
/// source)`.
pub open spec fn measurements(crat: Seq<char>, cesq: Option<Seq<char>>, cell: Seq<Seq<char>>) -> (Option<i32>, Option<i32>, Option<i32>, Seq<char>) {
    if crat == "9"@ {
        let rsrp = scaled(cesq_idx(cesq, 7), 126, -156, 1);
        (rsrp, scaled(cesq_idx(cesq, 6), 126, -430, 5), scaled(cesq_idx(cesq, 8), 127, -230, 5),
            if rsrp is Some { "AT+CESQ (5G NR)"@ } else { ""@ })
    } else if crat == "4"@ {
        let rsrp = scaled(cesq_idx(cesq, 5), 97, -140, 1);
        (rsrp, scaled(cesq_idx(cesq, 4), 34, -195, 5), rssnr_tenths(cell),
            if rsrp is Some { "AT+CESQ (LTE)"@ } else { ""@ })
    } else if crat == "2"@ {
        let rsrp = scaled(cesq_idx(cesq, 2), 96, -120, 1);
        (rsrp, scaled(cesq_idx(cesq, 3), 49, -240, 5), None,
            if rsrp is Some { "AT+CESQ (WCDMA, 值为 RSCP/Ec-Io)"@ } else { ""@ })
    } else {
        let rsrp = scaled(cesq_idx(cesq, 5), 97, -140, 1);
        (rsrp, scaled(cesq_idx(cesq, 4), 34, -195, 5), None,
            if rsrp is Some { "AT+CESQ (未知制式，按 LTE 解析)"@ } else { ""@ })
    }
}

/// The band decoded from the serving cell's code: `(band, source)`.
pub open spec fn reported_band(crat: Seq<char>, raw_band: Seq<char>) -> (Seq<char>, Seq<char>) {
    if raw_band.len() == 0 {
        (seq![], seq![])
    } else {
        let decoded = if crat == "9"@ {
            spec_nr_band_from_code(raw_band)
        } else if crat == "4"@ {
            spec_lte_band_from_code(raw_band)
        } else {
            None
        };
        match decoded {
            Some(n) => (n, "模组上报"@),
            None => (raw_band, "模组上报（编码未识别）"@),
        }
    }
}

/// The band derived from the ARFCN when none was reported.
pub open spec fn derived_band(crat: Seq<char>, arfcn: Seq<char>) -> Option<Seq<char>> {
    match parse_int(arfcn, i64::MIN as int, i64::MAX as int) {
        Some(n) => if crat == "9"@ {
            spec_nr_band_from_arfcn(n)
        } else if crat == "4"@ {
            spec_lte_band_from_earfcn(n)
        } else {
            None
        },
        None => None,
    }
}

/// The report [`signal_core`] assembles from the answers to `AT+CSQ`,
/// `AT+CEREG?` (or `AT+CREG?`), `AT+COPS?`, `AT+CESQ`, `AT+GTCCINFO?` and
/// `AT+GTCAINFO?` (`None` for a command that failed).
pub open spec fn signal_ok(
    s: SignalCore,
    csq: Option<Seq<char>>,
    reg: Seq<char>,
    cops: Option<Seq<char>>,
    cesq: Option<Seq<char>>,
    gtcc: Option<Seq<char>>,
    gtca: Option<Seq<char>>,
) -> bool {
    let cv0 = first_row(csq, "+CSQ"@);
    let csqv = crate::modem::pdp::first_u32(cv0, 0);
    let rv = reg_fields(reg);
    let st: Option<Seq<char>> = if rv.len() > 1 {
        Some(rv[1])
    } else if rv.len() > 0 {
        Some(rv[0])
    } else {
        None
    };
    let rat0 = if rv.len() > 4 {
        spec_act_text(rv[4])
    } else {
        seq![]
    };
    let ov = first_row(cops, "+COPS"@);
    let rat1 = if rat0.len() == 0 && ov.len() > 3 {
        spec_act_text(ov[3])
    } else {
        rat0
    };
    let cell = match gtcc {
        Some(r) => serving_cell_of(lines(r)),
        None => seq![],
    };
    let crat = get(cell, 1);
    let has_cell = cell.len() > 0;
    let arfcn = if has_cell {
        get(cell, 6)
    } else {
        seq![]
    };
    let rb = if has_cell {
        reported_band(crat, get(cell, 8))
    } else {
        (seq![], seq![])
    };
    let m = measurements(crat, cesq, cell);
    let rssi = match csqv {
        Some(c) => if c <= 31 {
            Some((-113 + 2 * c) as i32)
        } else {
            scaled(cesq_idx(cesq, 0), 63, -110, 1)
        },
        None => scaled(cesq_idx(cesq, 0), 63, -110, 1),
    };
    &&& s.csq == csqv
    &&& s.ber == crate::modem::pdp::first_u32(cv0, 1)
    &&& s.rssi_dbm == rssi
    &&& s.reg_state@ == (match st {
        Some(x) => spec_reg_text(x) + " ("@ + x + ")"@,
        None => seq![],
    })
    &&& s.operator@ == get(ov, 2)
    &&& s.operator_name@ == (if ov.len() > 2 {
        spec_operator_name(ov[2])
    } else {
        seq![]
    })
    &&& s.rat@ == (if spec_cell_rat_text(crat).len() > 0 {
        spec_cell_rat_text(crat)
    } else {
        rat1
    })
    &&& s.lac@ == (if has_cell {
        get(cell, 4)
    } else if rv.len() > 3 {
        rv[2]
    } else {
        seq![]
    })
    &&& s.cid@ == (if has_cell {
        get(cell, 5)
    } else if rv.len() > 3 {
        rv[3]
    } else {
        seq![]
    })
    &&& s.arfcn@ == arfcn
    &&& s.pci@ == (if has_cell {
        get(cell, 7)
    } else {
        seq![]
    })
    &&& s.bandwidth@ == (if has_cell && get(cell, 9).len() > 0 {
        match spec_bandwidth_text(crat, get(cell, 9)) {
            Some(t) => t,
            None => get(cell, 9),
        }
    } else {
        seq![]
    })
    &&& (if rb.0.len() == 0 && derived_band(crat, arfcn) is Some {
        s.band@ == derived_band(crat, arfcn)->Some_0 && s.band_source@
            == "由 ARFCN 推算（模组未上报）"@
    } else {
        s.band@ == rb.0 && s.band_source@ == rb.1
    })
    &&& s.rsrp == m.0
    &&& s.rsrq_tenths == m.1
    &&& s.sinr_tenths == m.2
    &&& s.source@ == m.3
    &&& strs(s.ca@) == (match gtca {
        Some(r) => take_at_most(prefixed_lines(lines(r), "+GTCAINFO:"@), 8),
        None => seq![],
    })
}

fn get_field(row: &Vec<String>, i: usize) -> (r: String)
    ensures
        r@ == get(strs(row@), i as int),
{
    if i < row.len() {
        assert(strs(row@)[i as int] == row@[i as int]@);
        row[i].clone()
    } else {
        String::new()
    }
}

fn first_of(resp: &Option<String>, p: &str) -> (r: Vec<String>)
    ensures
        strs(r@) == first_row(opt_view_s(*resp), p@),
{
    match resp {
        Some(x) => first(x.as_str(), p),
        None => {
            let e: Vec<String> = Vec::new();
            assert(strs(e@) =~= Seq::<Seq<char>>::empty());
            e
        },
    }
}

/// The view of an optional string.
pub open spec fn opt_view_s(o: Option<String>) -> Option<Seq<char>> {
    match o {
        Some(s) => Some(s@),
        None => None,
    }
}

fn cesq_at(row: &Vec<String>, i: usize, cesq: Ghost<Option<Seq<char>>>) -> (r: Option<i32>)
    requires
        strs(row@) == first_row(cesq@, "+CESQ"@),
    ensures
        r == cesq_idx(cesq@, i as int),
{
    if i < row.len() {
        assert(strs(row@)[i as int] == row@[i as int]@);
        let v = chars_of(row[i].as_str());
        assert(v@.subrange(0, v@.len() as int) == v@);
        match crate::text::parse_int_range(&v, 0, v.len(), 2147483648, 2147483647) {
            Some((neg, x)) => Some(if neg {
                if x == 2147483648 {
                    i32::MIN
                } else {
                    -(x as i32)
                }
            } else {
                x as i32
            }),
            None => None,
        }
    } else {
        None
    }
}

fn measure(crat: &str, cesq_row: &Vec<String>, cell: &Vec<String>, cesq: Ghost<Option<Seq<char>>>) -> (r: (Option<i32>, Option<i32>, Option<i32>, &'static str))
    requires
        strs(cesq_row@) == first_row(cesq@, "+CESQ"@),
    ensures
        (r.0, r.1, r.2, r.3@) == measurements(crat@, cesq@, strs(cell@)),
{
    if str_eq(crat, "9") {
        let rsrp = match cesq_at(cesq_row, 7, cesq) {
            Some(x) => ss_rsrp_dbm(x),
            None => None,
        };
        let rsrq = match cesq_at(cesq_row, 6, cesq) {
            Some(x) => ss_rsrq_tenths(x),
            None => None,
        };
        let sinr = match cesq_at(cesq_row, 8, cesq) {
            Some(x) => ss_sinr_tenths(x),
            None => None,
        };
        (rsrp, rsrq, sinr, if rsrp.is_some() { "AT+CESQ (5G NR)" } else { "" })
    } else if str_eq(crat, "4") {
        let rsrp = match cesq_at(cesq_row, 5, cesq) {
            Some(x) => lte_rsrp_dbm(x),
            None => None,
        };
        let rsrq = match cesq_at(cesq_row, 4, cesq) {
            Some(x) => lte_rsrq_tenths(x),
            None => None,
        };
        let sinr = if cell.len() > 10 {
            assert(strs(cell@)[10] == cell@[10]@);
            let v = chars_of(cell[10].as_str());
            assert(v@.subrange(0, v@.len() as int) == v@);
            match crate::text::parse_int_range(&v, 0, v.len(), 2147483648, 2147483647) {
                Some((neg, x)) => {
                    if x <= 100 {
                        let val: i32 = if neg {
                            -(x as i32)
                        } else {
                            x as i32
                        };
                        Some(val * 10)
                    } else {
                        None
                    }
                },
                None => None,
            }
        } else {
            None
        };
        (rsrp, rsrq, sinr, if rsrp.is_some() { "AT+CESQ (LTE)" } else { "" })
    } else if str_eq(crat, "2") {
        let rsrp = match cesq_at(cesq_row, 2, cesq) {
            Some(x) => rscp_dbm(x),
            None => None,
        };
        let rsrq = match cesq_at(cesq_row, 3, cesq) {
            Some(x) => ecno_tenths(x),
            None => None,
        };
        (rsrp, rsrq, None, if rsrp.is_some() { "AT+CESQ (WCDMA, 值为 RSCP/Ec-Io)" } else { "" })
    } else {
        let rsrp = match cesq_at(cesq_row, 5, cesq) {
            Some(x) => lte_rsrp_dbm(x),
            None => None,
        };
        let rsrq = match cesq_at(cesq_row, 4, cesq) {
            Some(x) => lte_rsrq_tenths(x),
            None => None,
        };
        (rsrp, rsrq, None, if rsrp.is_some() { "AT+CESQ (未知制式，按 LTE 解析)" } else { "" })
    }
}

fn band_of_cell(crat: &str, raw_band: &str) -> (r: (String, &'static str))
    ensures
        (r.0@, r.1@) == reported_band(crat@, raw_band@),
{
    if raw_band.is_empty() {
        proof {
            reveal_strlit("");
        }
        return (String::new(), "");
    }
    let decoded = if str_eq(crat, "9") {
        nr_band_from_code(raw_band)
    } else if str_eq(crat, "4") {
        lte_band_from_code(raw_band)
    } else {
        None
    };
    match decoded {
        Some(n) => (n, "模组上报"),
        None => (raw_band.to_owned(), "模组上报（编码未识别）"),
    }
}

fn band_from_arfcn(crat: &str, arfcn: &str) -> (r: Option<&'static str>)
    ensures
        opt_str_view(r) == derived_band(crat@, arfcn@),
{
    let v = chars_of(arfcn);
    assert(v@.subrange(0, v@.len() as int) == v@);
    let n: i64 = match crate::text::parse_i64_range(&v, 0, v.len()) {
        Some(n) => n,
        None => {
            return None;
        },
    };
    if str_eq(crat, "9") {
        nr_band_from_arfcn(n)
    } else if str_eq(crat, "4") {
        lte_band_from_earfcn(n)
    } else {
        None
    }
}

/// Assembles the signal report from the command answers (see
/// [`signal_ok`]): registration from `+CEREG` (else `+CREG`), carrier from
/// `+COPS`, the serving cell from `AT+GTCCINFO?` (its decoded band and
/// bandwidth, else the band derived from the ARFCN), the measurements from
/// the `AT+CESQ` indexes of the serving cell's RAT, and the RSSI from `CSQ`
/// (else the GERAN `rxlev`).
pub fn signal_core(
    csq: Option<String>,
    reg: &str,
    cops: Option<String>,
    cesq: Option<String>,
    gtcc: Option<String>,
    gtca: Option<String>,
) -> (s: SignalCore)
    ensures
        signal_ok(s, opt_view_s(csq), reg@, opt_view_s(cops), opt_view_s(cesq), opt_view_s(gtcc), opt_view_s(gtca)),
{
    let cv0 = first_of(&csq, "+CSQ");
    let csqv = crate::modem::pdp::field_u32(&cv0, 0);
    let ber = crate::modem::pdp::field_u32(&cv0, 1);
    let rv0 = first(reg, "+CEREG");
    let rv = if rv0.len() == 0 {
        first(reg, "+CREG")
    } else {
        rv0
    };
    let mut reg_state = String::new();
    if rv.len() > 0 {
        let stx = if rv.len() > 1 {
            get_field(&rv, 1)
        } else {
            get_field(&rv, 0)
        };
        push_str(&mut reg_state, reg_text(stx.as_str()));
        push_str(&mut reg_state, " (");
        push_str(&mut reg_state, stx.as_str());
        push_str(&mut reg_state, ")");
    }
    let rat0 = if rv.len() > 4 {
        act_text(get_field(&rv, 4).as_str()).to_owned()
    } else {
        String::new()
    };
    let ov = first_of(&cops, "+COPS");
    let operator = get_field(&ov, 2);
    let opname = if ov.len() > 2 {
        operator_name(operator.as_str()).to_owned()
    } else {
        String::new()
    };
    let rat1 = if rat0.as_str().is_empty() && ov.len() > 3 {
        act_text(get_field(&ov, 3).as_str()).to_owned()
    } else {
        rat0
    };
    let cell: Vec<String> = match &gtcc {
        Some(r) => service_cell(r.as_str()),
        None => {
            let e: Vec<String> = Vec::new();
            assert(strs(e@) =~= Seq::<Seq<char>>::empty());
            e
        },
    };
    let crat = get_field(&cell, 1);
    let has_cell = cell.len() > 0;
    let (lac, cid) = if has_cell {
        (get_field(&cell, 4), get_field(&cell, 5))
    } else if rv.len() > 3 {
        (get_field(&rv, 2), get_field(&rv, 3))
    } else {
        (String::new(), String::new())
    };
    let arfcn = if has_cell {
        get_field(&cell, 6)
    } else {
        String::new()
    };
    let pci = if has_cell {
        get_field(&cell, 7)
    } else {
        String::new()
    };
    let (band0, src0) = if has_cell {
        let raw_band = get_field(&cell, 8);
        band_of_cell(crat.as_str(), raw_band.as_str())
    } else {
        proof {
            reveal_strlit("");
        }
        assert(""@ =~= Seq::<char>::empty());
        (String::new(), "")
    };
    let bandwidth = if has_cell {
        let raw_bw = get_field(&cell, 9);
        if raw_bw.as_str().is_empty() {
            String::new()
        } else {
            match bandwidth_text(crat.as_str(), raw_bw.as_str()) {
                Some(t) => t,
                None => raw_bw,
            }
        }
    } else {
        String::new()
    };
    let rtxt = cell_rat_text(crat.as_str());
    let rat = if !rtxt.is_empty() {
        rtxt.to_owned()
    } else {
        rat1
    };
    let cq = first_of(&cesq, "+CESQ");
    let (rsrp, rsrq, sinr, source) = measure(crat.as_str(), &cq, &cell, Ghost(opt_view_s(cesq)));
    let (band, band_source) = if band0.as_str().is_empty() {
        match band_from_arfcn(crat.as_str(), arfcn.as_str()) {
            Some(b) => (b.to_owned(), "由 ARFCN 推算（模组未上报）"),
            None => (band0, src0),
        }
    } else {
        (band0, src0)
    };
    let rssi = match csqv {
        Some(c) => csq_to_dbm(c),
        None => None,
    };
    let rssi = if rssi.is_none() {
        match cesq_at(&cq, 0, Ghost(opt_view_s(cesq))) {
            Some(x) => rxlev_dbm(x),
            None => None,
        }
    } else {
        rssi
    };
    let ca = match &gtca {
        Some(r) => raw_lines(r.as_str(), "+GTCAINFO:", 8),
        None => {
            let e: Vec<String> = Vec::new();
            assert(strs(e@) =~= Seq::<Seq<char>>::empty());
            e
        },
    };
    proof {
        reveal_strlit("");
    }
    SignalCore {
        csq: csqv,
        rssi_dbm: rssi,
        ber,
        rat,
        reg_state,
        operator,
        operator_name: opname,
        lac,
        cid,
        band,
        bandwidth,
        band_source: band_source.to_owned(),
        pci,
        arfcn,
        rsrp,
        rsrq_tenths: rsrq,
        sinr_tenths: sinr,
        ca,
        source: source.to_owned(),
    }
}

// ---------------------------------------------------------------- the +CESQ fields

/// The `+CESQ` field at `i` (3GPP 27.007 order: `<rxlev>`, `<ber>`,
/// `<rscp>`, `<ecno>`, `<rsrq>`, `<rsrp>`, `<ss_rsrq>`, `<ss_rsrp>`,
/// `<ss_sinr>`) read as an index `0..=max`.
pub open spec fn cesq_field_index(cesq: Option<Seq<char>>, i: int, max: int) -> Option<int> {
    let row = first_row(cesq, "+CESQ"@);
    if 0 <= i < row.len() {
        match parse_int(row[i], i32::MIN as int, i32::MAX as int) {
            Some(v) => if 0 <= v <= max {
                Some(v)
            } else {
                None
            },
            None => None,
        }
    } else {
        None
    }
}

proof fn lemma_parse_int_range(s: Seq<char>, min: int, max: int)
    requires
        min <= 0 <= max,
    ensures
        parse_int(s, min, max) matches Some(v) ==> min <= v <= max,
{
    if s.len() > 0 && s[0] == '-' {
        if crate::text::all_digits(s.drop_first()) {
            crate::text::lemma_dec_value_nonneg(s.drop_first());
        }
    } else {
        let d = if s.len() > 0 && s[0] == '+' { s.drop_first() } else { s };
        if crate::text::all_digits(d) {
            crate::text::lemma_dec_value_nonneg(d);
        }
    }
}

proof fn lemma_scaled_step1(cesq: Option<Seq<char>>, i: int, max: int, base: int)
    requires
        0 <= i,
        0 <= max,
        i32::MIN <= base - 1,
        base - 1 + max <= i32::MAX,
    ensures
        scaled(cesq_idx(cesq, i), max, base, 1) == (match cesq_field_index(cesq, i, max) {
            Some(n) => Some((base - 1 + n) as i32),
            None => None,
        }),
{
    let row = first_row(cesq, "+CESQ"@);
    if row.len() > i && i >= 0 {
        match parse_int(row[i], i32::MIN as int, i32::MAX as int) {
            Some(v) => {
                lemma_parse_int_range(row[i], i32::MIN as int, i32::MAX as int);
                assert(i32::MIN <= v <= i32::MAX);
                assert((v as i32) as int == v);
                assert(cesq_idx(cesq, i) == Some(v as i32));
                if 0 <= v <= max {
                    assert(idx_lower(v, base, 1) == base - 1 + 1 * v);
                }
            },
            None => {},
        }
    }
}

proof fn lemma_scaled_step5(cesq: Option<Seq<char>>, i: int, max: int, base: int)
    requires
        0 <= i,
        0 <= max,
        i32::MIN <= base - 5,
        base - 5 + 5 * max <= i32::MAX,
    ensures
        scaled(cesq_idx(cesq, i), max, base, 5) == (match cesq_field_index(cesq, i, max) {
            Some(n) => Some((base - 5 + 5 * n) as i32),
            None => None,
        }),
{
    let row = first_row(cesq, "+CESQ"@);
    if row.len() > i && i >= 0 {
        match parse_int(row[i], i32::MIN as int, i32::MAX as int) {
            Some(v) => {
                lemma_parse_int_range(row[i], i32::MIN as int, i32::MAX as int);
                assert(i32::MIN <= v <= i32::MAX);
                assert((v as i32) as int == v);
                assert(cesq_idx(cesq, i) == Some(v as i32));
                if 0 <= v <= max {
                    assert(idx_lower(v, base, 5) == base - 5 + 5 * v);
                }
            },
            None => {},
        }
    }
}

/// The measurements come from the `+CESQ` fields of the serving cell's
/// RAT, in 3GPP 27.007 order, each index `n` giving the lower end of its
/// step: for 5G NR (RAT 9) RSRP from `<ss_rsrp>` (field 7, `n - 157` dBm),
/// RSRQ from `<ss_rsrq>` (field 6, `5n - 435` tenths of a dB) and SINR
/// from `<ss_sinr>` (field 8, `5n - 235` tenths); for LTE (RAT 4) RSRP from
/// `<rsrp>` (field 5, `n - 141` dBm) and RSRQ from `<rsrq>` (field 4,
/// `5n - 200` tenths); for WCDMA (RAT 2) RSCP from `<rscp>` (field 2,
/// `n - 121` dBm) and Ec/Io from `<ecno>` (field 3, `5n - 245` tenths).
pub proof fn lemma_measurements_by_cesq_fields(
    s: SignalCore,
    csq: Option<Seq<char>>,
    reg: Seq<char>,
    cops: Option<Seq<char>>,
    cesq: Option<Seq<char>>,
    gtcc: Option<Seq<char>>,
    gtca: Option<Seq<char>>,
)
    requires
        signal_ok(s, csq, reg, cops, cesq, gtcc, gtca),
    ensures
        ({
            let cell = match gtcc {
                Some(r) => serving_cell_of(lines(r)),
                None => seq![],
            };
            let rat = get(cell, 1);
            &&& rat == "9"@ ==> s.rsrp == (match cesq_field_index(cesq, 7, 126) {
                Some(n) => Some((n - 157) as i32),
                None => None,
            })
            &&& rat == "9"@ ==> s.rsrq_tenths == (match cesq_field_index(cesq, 6, 126) {
                Some(n) => Some((5 * n - 435) as i32),
                None => None,
            })
            &&& rat == "9"@ ==> s.sinr_tenths == (match cesq_field_index(cesq, 8, 127) {
                Some(n) => Some((5 * n - 235) as i32),
                None => None,
            })
            &&& rat == "4"@ ==> s.rsrp == (match cesq_field_index(cesq, 5, 97) {
                Some(n) => Some((n - 141) as i32),
                None => None,
            })
            &&& rat == "4"@ ==> s.rsrq_tenths == (match cesq_field_index(cesq, 4, 34) {
                Some(n) => Some((5 * n - 200) as i32),
                None => None,
            })
            &&& rat == "2"@ ==> s.rsrp == (match cesq_field_index(cesq, 2, 96) {
                Some(n) => Some((n - 121) as i32),
                None => None,
            })
            &&& rat == "2"@ ==> s.rsrq_tenths == (match cesq_field_index(cesq, 3, 49) {
                Some(n) => Some((5 * n - 245) as i32),
                None => None,
            })
        }),
{
    reveal_strlit("9");
    reveal_strlit("4");
    reveal_strlit("2");
    let cell = match gtcc {
        Some(r) => serving_cell_of(lines(r)),
        None => seq![],
    };
    let rat = get(cell, 1);
    let m = measurements(rat, cesq, cell);
    assert(s.rsrp == m.0 && s.rsrq_tenths == m.1 && s.sinr_tenths == m.2);
    lemma_scaled_step1(cesq, 7, 126, -156);
    lemma_scaled_step5(cesq, 6, 126, -430);
    lemma_scaled_step5(cesq, 8, 127, -230);
    lemma_scaled_step1(cesq, 5, 97, -140);
    lemma_scaled_step5(cesq, 4, 34, -195);
    lemma_scaled_step1(cesq, 2, 96, -120);
    lemma_scaled_step5(cesq, 3, 49, -240);
    assert("9"@ != "4"@ && "9"@ != "2"@ && "4"@ != "2"@) by {
        assert("9"@[0] != "4"@[0]);
        assert("9"@[0] != "2"@[0]);
        assert("4"@[0] != "2"@[0]);
    }
}

} // verus!
