//! Network preferences: band lock, cell lock, RAT preference order.
//!
//! Band (`+GTACT`) and cell (`+EMMCHLCK`) locks need the modem offline, so
//! they are sent as `CFUN=0`, the lock, `CFUN=1`; only the middle command's
//! failure is reported to the caller.
use crate::at::cmd::{set_emmchclk, set_eprartl, set_gtact, str_views};
use crate::text::{chars_of, join, push_str, trim, trim_range, str_eq, dec_str};
use vstd::prelude::*;

verus! {

/// `char::to_ascii_uppercase`: `a`..`z` become `A`..`Z`, anything else is
/// kept.
pub open spec fn ascii_upper(c: char) -> char {
    if 'a' <= c && c <= 'z' {
        ((c as int) - 32) as char
    } else {
        c
    }
}

/// `str::to_ascii_uppercase`.
pub open spec fn ascii_upper_str(s: Seq<char>) -> Seq<char> {
    s.map_values(|c: char| ascii_upper(c))
}

/// The `+EPRATL` code (2 UMTS, 4 LTE, 128 NR) of a RAT name or code, after
/// trimming and ASCII uppercasing. These codes differ from `+GTACT`'s.
pub open spec fn spec_rat_code(item: Seq<char>) -> Option<Seq<char>> {
    let u = ascii_upper_str(trim(item));
    if u == "UMTS"@ || u == "WCDMA"@ || u == "3G"@ || u == "2"@ {
        Some("2"@)
    } else if u == "LTE"@ || u == "4G"@ || u == "4"@ {
        Some("4"@)
    } else if u == "NR"@ || u == "5G"@ || u == "128"@ {
        Some("128"@)
    } else {
        None
    }
}

fn upper_range(v: &Vec<char>, a: usize, b: usize) -> (r: String)
    requires
        a <= b <= v@.len(),
    ensures
        r@ == ascii_upper_str(v@.subrange(a as int, b as int)),
{
    let mut s = String::new();
    let mut i = a;
    while i < b
        invariant
            a <= i <= b <= v@.len(),
            s@ == ascii_upper_str(v@.subrange(a as int, i as int)),
        decreases b - i,
    {
        let c = v[i];
        let u = if 'a' <= c && c <= 'z' {
            ((c as u32) - 32) as u8 as char
        } else {
            c
        };
        assert(u == ascii_upper(c)) by {
            if 'a' <= c && c <= 'z' {
                assert((c as u32) - 32 < 128);
            }
        }
        crate::text::push_char(&mut s, u);
        i += 1;
        assert(s@ =~= ascii_upper_str(v@.subrange(a as int, i as int)));
    }
    s
}

/// The `+EPRATL` code of a RAT name or code (`UMTS`/`WCDMA`/`3G`/`2` → 2,
/// `LTE`/`4G`/`4` → 4, `NR`/`5G`/`128` → 128, case-insensitive).
pub fn rat_code(item: &str) -> (r: Option<&'static str>)
    ensures
        crate::modem::band::opt_str_view(r) == spec_rat_code(item@),
{
    let v = chars_of(item);
    assert(v@.subrange(0, v@.len() as int) == v@);
    let (a, b) = trim_range(&v, 0, v.len());
    let u = upper_range(&v, a, b);
    let us = u.as_str();
    if str_eq(us, "UMTS") || str_eq(us, "WCDMA") || str_eq(us, "3G") || str_eq(us, "2") {
        Some("2")
    } else if str_eq(us, "LTE") || str_eq(us, "4G") || str_eq(us, "4") {
        Some("4")
    } else if str_eq(us, "NR") || str_eq(us, "5G") || str_eq(us, "128") {
        Some("128")
    } else {
        None
    }
}

/// The distinct codes of a preference list, in first-seen order.
pub open spec fn rat_codes_of(order: Seq<Seq<char>>) -> Seq<Seq<char>>
    decreases order.len(),
{
    if order.len() == 0 {
        seq![]
    } else {
        let prev = rat_codes_of(order.drop_last());
        match spec_rat_code(order.last()) {
            Some(c) => if prev.contains(c) {
                prev
            } else {
                prev.push(c)
            },
            None => prev,
        }
    }
}

/// The command that sets a RAT preference order, or why the list is
/// refused: no valid RAT in it, or more than four.
pub open spec fn spec_rat_order_command(order: Seq<Seq<char>>) -> Result<Seq<char>, Seq<char>> {
    let codes = rat_codes_of(order);
    if codes.len() == 0 {
        Err("缺少有效制式：可填 UMTS / LTE / NR（或编码 2 / 4 / 128）"@)
    } else if codes.len() > 4 {
        Err("优先制式最多 4 个"@)
    } else {
        Ok("AT+EPRATL="@ + dec_str(codes.len() as nat) + ","@ + join(codes, ","@))
    }
}

/// The view of a result of strings.
pub open spec fn result_view(r: Result<String, String>) -> Result<Seq<char>, Seq<char>> {
    match r {
        Ok(s) => Ok(s@),
        Err(e) => Err(e@),
    }
}

/// The `AT+EPRATL` command for a preference list (names or codes; repeats
/// and unknown names are dropped).
pub fn rat_order_command(order: &Vec<String>) -> (r: Result<String, String>)
    ensures
        result_view(r) == spec_rat_order_command(crate::text::strs(order@)),
{
    let mut codes: Vec<&'static str> = Vec::new();
    let mut k: usize = 0;
    let ghost ov = crate::text::strs(order@);
    while k < order.len()
        invariant
            k <= order@.len(),
            ov == crate::text::strs(order@),
            str_views(codes@) == rat_codes_of(ov.take(k as int)),
            codes@.len() <= 3,
            codes@.len() <= k,
        decreases order.len() - k,
    {
        let ghost before = ov.take(k as int);
        let ghost after = ov.take(k + 1);
        assert(after.drop_last() == before);
        assert(after.last() == order@[k as int]@);
        match rat_code(order[k].as_str()) {
            Some(c) => {
                let mut seen = false;
                let mut j: usize = 0;
                while j < codes.len()
                    invariant
                        j <= codes@.len(),
                        seen == str_views(codes@.take(j as int)).contains(c@),
                    decreases codes.len() - j,
                {
                    let ghost pre = str_views(codes@.take(j as int));
                    let ghost post = str_views(codes@.take(j + 1));
                    assert(post =~= pre.push(codes@[j as int]@));
                    let eq = str_eq(codes[j], c);
                    if eq {
                        seen = true;
                    }
                    proof {
                        if pre.contains(c@) {
                            let i = choose|i: int| 0 <= i < pre.len() && pre[i] == c@;
                            assert(post[i] == pre[i]);
                        }
                        if eq {
                            assert(post[j as int] == c@);
                        }
                        if post.contains(c@) {
                            let i = choose|i: int| 0 <= i < post.len() && post[i] == c@;
                            if i < j {
                                assert(pre[i] == post[i]);
                            }
                        }
                    }
                    j += 1;
                }
                assert(codes@.take(codes@.len() as int) == codes@);
                if !seen {
                    proof {
                        lemma_codes_distinct_bound(ov.take(k as int));
                    }
                    codes.push(c);
                    assert(str_views(codes@) =~= str_views(codes@.drop_last()).push(c@));
                }
            },
            None => {},
        }
        proof {
            lemma_codes_distinct_bound(after);
        }
        k += 1;
    }
    assert(ov.take(order@.len() as int) == ov);
    if codes.len() == 0 {
        return Err(String::from_str("缺少有效制式：可填 UMTS / LTE / NR（或编码 2 / 4 / 128）"));
    }
    if codes.len() > 4 {
        return Err(String::from_str("优先制式最多 4 个"));
    }
    Ok(set_eprartl(codes.as_slice()))
}

/// The distinct codes are among `2`, `4`, `128`: at most three.
proof fn lemma_codes_distinct_bound(order: Seq<Seq<char>>)
    ensures
        rat_codes_of(order).len() <= 3,
        forall|i: int|
            0 <= i < rat_codes_of(order).len() ==> #[trigger] rat_codes_of(order)[i] == "2"@
                || rat_codes_of(order)[i] == "4"@ || rat_codes_of(order)[i] == "128"@,
        forall|i: int, j: int|
            0 <= i < j < rat_codes_of(order).len() ==> rat_codes_of(order)[i] != rat_codes_of(
                order,
            )[j],
    decreases order.len(),
{
    if order.len() > 0 {
        lemma_codes_distinct_bound(order.drop_last());
        let prev = rat_codes_of(order.drop_last());
        match spec_rat_code(order.last()) {
            Some(c) => {
                if !prev.contains(c) {
                    let nw = prev.push(c);
                    assert forall|i: int, j: int| 0 <= i < j < nw.len() implies nw[i] != nw[j] by {
                        if j == prev.len() {
                            assert(nw[i] == prev[i]);
                            if nw[i] == c {
                                assert(prev.contains(c));
                            }
                        }
                    }
                    if prev.len() >= 3 {
                        proof_three_codes_cover(prev, c);
                    }
                }
            },
            None => {},
        }
    }
}

/// Three distinct codes among `2`, `4`, `128` contain every code.
proof fn proof_three_codes_cover(prev: Seq<Seq<char>>, c: Seq<char>)
    requires
        prev.len() >= 3,
        forall|i: int|
            0 <= i < prev.len() ==> #[trigger] prev[i] == "2"@ || prev[i] == "4"@ || prev[i]
                == "128"@,
        forall|i: int, j: int| 0 <= i < j < prev.len() ==> prev[i] != prev[j],
        c == "2"@ || c == "4"@ || c == "128"@,
    ensures
        prev.contains(c),
{
    reveal_strlit("2");
    reveal_strlit("4");
    reveal_strlit("128");
    let a = prev[0];
    let b = prev[1];
    let d = prev[2];
    assert(a != b && a != d && b != d);
    if c != a && c != b && c != d {
        assert(false);
    }
}

/// The commands of an offline lock: `AT+CFUN=0`, the lock, `AT+CFUN=1`.
fn offline_sequence(cmd: String) -> (r: Vec<String>)
    ensures
        r@.len() == 3,
        r@[0]@ == "AT+CFUN=0"@,
        r@[1]@ == cmd@,
        r@[2]@ == "AT+CFUN=1"@,
{
    let mut r: Vec<String> = Vec::new();
    r.push(String::from_str("AT+CFUN=0"));
    r.push(cmd);
    r.push(String::from_str("AT+CFUN=1"));
    r
}

/// The commands of a band lock (`AT+GTACT=<args joined by ,>` between
/// `CFUN=0` and `CFUN=1`); an empty argument list is refused.
pub fn lock_band_commands(args: &Vec<String>) -> (r: Result<Vec<String>, String>)
    ensures
        args@.len() == 0 ==> (r matches Err(e) && e@ == "缺少 AT+GTACT 参数，例如 14 / 2 / 20 / 20,6,3,5078"@),
        args@.len() > 0 ==> (r matches Ok(v) && v@.len() == 3 && v@[0]@ == "AT+CFUN=0"@ && v@[1]@
            == "AT+GTACT="@ + join(crate::text::strs(args@), ","@) && v@[2]@ == "AT+CFUN=1"@),
{
    if args.len() == 0 {
        return Err(String::from_str("缺少 AT+GTACT 参数，例如 14 / 2 / 20 / 20,6,3,5078"));
    }
    let joined = crate::text::join_strings(args, ",");
    Ok(offline_sequence(set_gtact(joined.as_str())))
}

/// The commands of a cell lock (`AT+EMMCHLCK=<args joined by ,>` between
/// `CFUN=0` and `CFUN=1`); an empty argument list is refused.
pub fn lock_cell_commands(args: &Vec<String>) -> (r: Result<Vec<String>, String>)
    ensures
        args@.len() == 0 ==> (r matches Err(e) && e@ == "缺少 AT+EMMCHLCK 参数，例如 1,11,0,627264,280,3 或 0（取消）"@),
        args@.len() > 0 ==> (r matches Ok(v) && v@.len() == 3 && v@[0]@ == "AT+CFUN=0"@ && v@[1]@
            == "AT+EMMCHLCK="@ + join(crate::text::strs(args@), ","@) && v@[2]@ == "AT+CFUN=1"@),
{
    if args.len() == 0 {
        return Err(String::from_str("缺少 AT+EMMCHLCK 参数，例如 1,11,0,627264,280,3 或 0（取消）"));
    }
    let joined = crate::text::join_strings(args, ",");
    Ok(offline_sequence(set_emmchclk(joined.as_str())))
}

} // verus!
