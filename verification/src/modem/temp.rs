//! Module temperature (`AT+GTSENRDTEMP=0`: every sensor at once, in
//! thousandths of a degree; a reading of 0 is a sensor that is not fitted).
use crate::text::{
    chars_of, lines, lines_range, parse_int, parse_uint, parse_uint_range, split_char, split_range,
    starts_with, trim, trim_range, trim_start_char, trim_start_char_range, parse_int_range,
};
use vstd::prelude::*;

verus! {

/// Name of a sensor id (manual table 18.3; empty when not listed).
pub open spec fn spec_sensor_name(id: u32) -> Seq<char> {
    if id == 1 {
        "soc_max"@
    } else if id == 2 {
        "cpu_little0"@
    } else if id == 3 {
        "cpu_little1"@
    } else if id == 4 {
        "cpu_little2"@
    } else if id == 7 {
        "gpu1"@
    } else if id == 8 {
        "dramc"@
    } else if id == 9 {
        "mmsys"@
    } else if id == 10 {
        "md_5g"@
    } else if id == 13 {
        "soc_dram_ntc"@
    } else if id == 14 {
        "ltepa_ntc"@
    } else if id == 15 {
        "nrpa_ntc"@
    } else if id == 16 {
        "rf_ntc"@
    } else if id == 19 {
        "pmic"@
    } else if id == 20 {
        "pmic_vcore"@
    } else if id == 21 {
        "pmic_vproc"@
    } else if id == 22 {
        "pmic_vgpu"@
    } else {
        ""@
    }
}

/// Name of a temperature sensor id.
pub fn sensor_name(id: u32) -> (r: &'static str)
    ensures
        r@ == spec_sensor_name(id),
{
    match id {
        1 => "soc_max",
        2 => "cpu_little0",
        3 => "cpu_little1",
        4 => "cpu_little2",
        7 => "gpu1",
        8 => "dramc",
        9 => "mmsys",
        10 => "md_5g",
        13 => "soc_dram_ntc",
        14 => "ltepa_ntc",
        15 => "nrpa_ntc",
        16 => "rf_ntc",
        19 => "pmic",
        20 => "pmic_vcore",
        21 => "pmic_vproc",
        22 => "pmic_vgpu",
        _ => "",
    }
}

/// The reading of one response line: `+GTSENRDTEMP: <id>,<raw>` with a
/// non-zero raw value.
pub open spec fn reading_of(line: Seq<char>) -> Option<(u32, i32)> {
    let l = trim(line);
    if !starts_with(l, "+GTSENRDTEMP"@) {
        None
    } else {
        let parts = split_char(trim(trim_start_char(l.skip(12), ':')), ',');
        match parse_uint(trim(parts[0]), u32::MAX as int) {
            None => None,
            Some(id) => if parts.len() < 2 {
                None
            } else {
                match parse_int(trim(parts[1]), i32::MIN as int, i32::MAX as int) {
                    Some(raw) => if raw != 0 {
                        Some((id as u32, raw as i32))
                    } else {
                        None
                    },
                    None => None,
                }
            },
        }
    }
}

/// The readings of every line, in order.
pub open spec fn readings_of(ls: Seq<Seq<char>>) -> Seq<(u32, i32)>
    decreases ls.len(),
{
    if ls.len() == 0 {
        seq![]
    } else {
        match reading_of(ls.last()) {
            Some(r) => readings_of(ls.drop_last()).push(r),
            None => readings_of(ls.drop_last()),
        }
    }
}

/// The fitted sensors of an `AT+GTSENRDTEMP=0` response: `(id, raw)` with
/// `raw` in thousandths of a degree, sensors reading 0 left out.
pub fn temp_readings(resp: &str) -> (r: Vec<(u32, i32)>)
    ensures
        r@ == readings_of(lines(resp@)),
{
    let v = chars_of(resp);
    assert(v@.subrange(0, v@.len() as int) == v@);
    let ls = lines_range(&v, 0, v.len());
    let ghost all = lines(v@);
    let mut out: Vec<(u32, i32)> = Vec::new();
    let mut k: usize = 0;
    proof {
        reveal_strlit("+GTSENRDTEMP");
    }
    while k < ls.len()
        invariant
            all == lines(v@),
            ls@.len() == all.len(),
            forall|j: int|
                0 <= j < ls@.len() ==> 0 <= (#[trigger] ls@[j]).0 <= ls@[j].1 <= v@.len()
                    && v@.subrange(ls@[j].0 as int, ls@[j].1 as int) == all[j],
            k <= ls@.len(),
            out@ == readings_of(all.take(k as int)),
            "+GTSENRDTEMP"@.len() == 12,
        decreases ls.len() - k,
    {
        let ghost before = all.take(k as int);
        let ghost after = all.take(k + 1);
        assert(after.drop_last() == before);
        assert(after.last() == all[k as int]);
        let (a0, b0) = ls[k];
        match reading_at(&v, a0, b0) {
            Some(r) => {
                out.push(r);
            },
            None => {},
        }
        k += 1;
    }
    assert(all.take(all.len() as int) == all);
    out
}

fn reading_at(v: &Vec<char>, a0: usize, b0: usize) -> (r: Option<(u32, i32)>)
    requires
        a0 <= b0 <= v@.len(),
    ensures
        r == reading_of(v@.subrange(a0 as int, b0 as int)),
{
    proof {
        reveal_strlit("+GTSENRDTEMP");
    }
    let (a, b) = trim_range(v, a0, b0);
    if !crate::text::range_starts_with_str(v, a, b, "+GTSENRDTEMP") {
        return None;
    }
    let ghost l = v@.subrange(a as int, b as int);
    assert(l.skip(12) == v@.subrange(a + 12, b as int));
    let s = trim_start_char_range(v, a + 12, b, ':');
    let (x, y) = trim_range(v, s, b);
    let parts = split_range(v, x, y, ',');
    let (p0, q0) = parts[0];
    let (p, q) = trim_range(v, p0, q0);
    let id = match parse_uint_range(v, p, q, 4294967295) {
        Some(n) => n as u32,
        None => {
            return None;
        },
    };
    if parts.len() < 2 {
        return None;
    }
    let (p1, q1) = parts[1];
    let (pp, qq) = trim_range(v, p1, q1);
    match parse_int_range(v, pp, qq, 2147483648, 2147483647) {
        Some((neg, x)) => {
            let raw: i32 = if neg {
                if x == 2147483648 {
                    i32::MIN
                } else {
                    -(x as i32)
                }
            } else {
                x as i32
            };
            if raw != 0 {
                Some((id, raw))
            } else {
                None
            }
        },
        None => None,
    }
}

/// The first reading of sensor `id`.
pub open spec fn first_reading(rs: Seq<(u32, i32)>, id: u32) -> Option<i32>
    decreases rs.len(),
{
    if rs.len() == 0 {
        None
    } else if rs[0].0 == id {
        Some(rs[0].1)
    } else {
        first_reading(rs.drop_first(), id)
    }
}

/// The highest reading (the first of equal ones kept).
pub open spec fn peak_reading(rs: Seq<(u32, i32)>) -> Option<i32>
    decreases rs.len(),
{
    if rs.len() == 0 {
        None
    } else {
        match peak_reading(rs.drop_last()) {
            Some(x) => if x >= rs.last().1 { Some(x) } else { Some(rs.last().1) },
            None => Some(rs.last().1),
        }
    }
}

/// The readings the status shows, in thousandths of a degree: the 5G
/// baseband (sensor 10), the chip maximum (sensor 1), and the highest of all.
#[derive(Debug, Clone, Copy, PartialEq, Eq, Structural)]
pub struct TempSummary {
    pub modem: Option<i32>,
    pub soc_max: Option<i32>,
    pub peak: Option<i32>,
}

/// The summary of the fitted sensors' readings; `None` without any.
pub fn temp_summary(rs: &Vec<(u32, i32)>) -> (r: Option<TempSummary>)
    ensures
        rs@.len() == 0 ==> r is None,
        rs@.len() > 0 ==> r == Some(
            TempSummary {
                modem: first_reading(rs@, 10),
                soc_max: first_reading(rs@, 1),
                peak: peak_reading(rs@),
            },
        ),
{
    if rs.len() == 0 {
        return None;
    }
    Some(TempSummary { modem: find_reading(rs, 10), soc_max: find_reading(rs, 1), peak: peak_of(rs) })
}

fn find_reading(rs: &Vec<(u32, i32)>, id: u32) -> (r: Option<i32>)
    ensures
        r == first_reading(rs@, id),
{
    let mut i: usize = 0;
    assert(rs@.skip(0) == rs@);
    while i < rs.len()
        invariant
            i <= rs@.len(),
            first_reading(rs@, id) == first_reading(rs@.skip(i as int), id),
        decreases rs.len() - i,
    {
        assert(rs@.skip(i as int)[0] == rs@[i as int]);
        assert(rs@.skip(i as int).drop_first() == rs@.skip(i + 1));
        if rs[i].0 == id {
            return Some(rs[i].1);
        }
        i += 1;
    }
    None
}

fn peak_of(rs: &Vec<(u32, i32)>) -> (r: Option<i32>)
    ensures
        r == peak_reading(rs@),
{
    let mut acc: Option<i32> = None;
    let mut i: usize = 0;
    while i < rs.len()
        invariant
            i <= rs@.len(),
            acc == peak_reading(rs@.take(i as int)),
        decreases rs.len() - i,
    {
        assert(rs@.take(i + 1).drop_last() == rs@.take(i as int));
        let v = rs[i].1;
        acc = match acc {
            Some(x) => if x >= v { Some(x) } else { Some(v) },
            None => Some(v),
        };
        i += 1;
    }
    assert(rs@.take(rs@.len() as int) == rs@);
    acc
}

} // verus!
