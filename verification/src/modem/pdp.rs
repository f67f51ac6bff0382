//! PDP context state, dial diagnostics.
//!
//! The one authority on whether a context is active is `AT+CGACT?`: while a
//! context is inactive, `AT+CGCONTRDP` and `AT+CGPADDR` still answer the
//! addresses of the previous session. Those commands only supply addresses
//! and DNS servers, and addresses of an inactive context are never taken.
use crate::addr::{is_valid_ipv4, looks_v6, normalize_ipv6, spec_is_valid_ipv4, spec_looks_v6, spec_normalize_ipv6};
use crate::at::parse::{first, first_ipv4, first_ipv4_of, rows, rows_view, spec_first, spec_rows};
use crate::config::Config;
use crate::text::{
    chars_of, contains_str, dec_str, lines, parse_uint, push_dec, push_str, strs, str_eq,
    parse_uint_range, join,
};
use vstd::prelude::*;

verus! {

/// The PDP context as the daemon reports it.
#[derive(Debug, Default)]
pub struct PdpState {
    pub cid: u32,
    pub apn: String,
    pub pdp_type: String,
    pub active: bool,
    pub ipv4: String,
    pub ipv6: String,
    pub dns: Vec<String>,
    /// IPv4 gateway reported in field 4 of `AT+CGCONTRDP` (empty when none).
    pub gw4: String,
    /// IPv6 gateway of the same field, decoded (display only).
    pub gw6: String,
    /// The raw command answers, for diagnosis.
    pub raw: Vec<(String, String)>,
}

impl PdpState {
    /// Whether an address of either family was obtained (an IPv6-only
    /// session is a session too).
    pub fn has_address(&self) -> (b: bool)
        ensures
            b == (self.ipv4@.len() > 0 || self.ipv6@.len() > 0),
    {
        !self.ipv4.as_str().is_empty() || !self.ipv6.as_str().is_empty()
    }
}

/// Whether field 0 of a row is the decimal `cid`.
pub open spec fn row_cid_is(row: Seq<Seq<char>>, cid: u32) -> bool {
    row.len() > 0 && parse_uint(row[0], u32::MAX as int) == Some(cid as int)
}

/// The `AT+CGACT?` state of `cid` over rows: `None` when there are no rows;
/// otherwise whether the last row for `cid` says `1` in field 1.
pub open spec fn cgact_of(rs: Seq<Seq<Seq<char>>>, cid: u32) -> Option<bool>
    decreases rs.len(),
{
    if rs.len() == 0 {
        None
    } else {
        let prev = cgact_of(rs.drop_last(), cid);
        let row = rs.last();
        if row_cid_is(row, cid) {
            Some(row.len() > 1 && row[1] == "1"@)
        } else {
            match prev {
                Some(a) => Some(a),
                None => Some(false),
            }
        }
    }
}

/// Whether `s` is the decimal `cid` (as `str::parse::<u32>` reads it).
fn is_cid(s: &str, cid: u32) -> (b: bool)
    ensures
        b == (parse_uint(s@, u32::MAX as int) == Some(cid as int)),
{
    let v = chars_of(s);
    assert(v@.subrange(0, v@.len() as int) == v@);
    match parse_uint_range(&v, 0, v.len(), 4294967295) {
        Some(n) => n == cid as u64,
        None => false,
    }
}

/// The activation state of `cid` from an `AT+CGACT?` answer: `None` when
/// the answer lists no context at all (the command is not usable and the
/// caller falls back to address heuristics); `Some(false)` when contexts
/// are listed but `cid` is missing or 0 — an authoritative "inactive".
pub fn cgact_state(resp: &str, cid: u32) -> (r: Option<bool>)
    ensures
        r == cgact_of(spec_rows(resp@, "+CGACT"@), cid),
{
    let rs = rows(resp, "+CGACT");
    let ghost rv = rows_view(rs@);
    let mut seen = false;
    let mut active = false;
    let mut k: usize = 0;
    while k < rs.len()
        invariant
            k <= rs@.len(),
            rv == rows_view(rs@),
            (if seen {
                Some(active)
            } else {
                None::<bool>
            }) == cgact_of(rv.take(k as int), cid),
            seen == (k > 0),
        decreases rs.len() - k,
    {
        let ghost before = rv.take(k as int);
        let ghost after = rv.take(k + 1);
        assert(after.drop_last() == before);
        assert(after.last() == strs(rs@[k as int]@));
        let row = &rs[k];
        let ghost sr = strs(row@);
        let is_c = row.len() > 0 && is_cid(row[0].as_str(), cid);
        let st1 = row.len() > 1 && str_eq(row[1].as_str(), "1");
        proof {
            if row@.len() > 0 {
                assert(sr[0] == row@[0]@);
            }
            if row@.len() > 1 {
                assert(sr[1] == row@[1]@);
            }
            assert(is_c == row_cid_is(sr, cid));
            assert(st1 == (sr.len() > 1 && sr[1] == "1"@));
            assert(after.last() == sr);
        }
        if is_c {
            active = st1;
        } else if !seen {
            active = false;
        }
        seen = true;
        k += 1;
    }
    assert(rv.take(rs@.len() as int) == rv);
    if !seen {
        None
    } else {
        Some(active)
    }
}

/// Whether an activation error is the "already active" one (5847): the
/// context is in fact active and the addresses decide.
pub fn is_duplicate_activate(resp: &str) -> (b: bool)
    ensures
        b == contains_str(resp@, "5847"@),
{
    let v = chars_of(resp);
    assert(v@.subrange(0, v@.len() as int) == v@);
    crate::text::range_contains_str(&v, 0, v.len(), "5847")
}

/// The dial preconditions found before a dial fails.
#[derive(Debug, Default)]
pub struct Readiness {
    /// SIM ready (`+CPIN: READY`).
    pub sim_ready: Option<bool>,
    /// Functionality level (`+CFUN: 1` is online).
    pub cfun: Option<u32>,
    /// EPS registration (`+CEREG` field 1: 1 home, 5 roaming).
    pub reg_state: Option<u32>,
    /// The raw answers, for diagnosis.
    pub raw: Vec<(String, String)>,
}

/// Ready to dial: SIM ready, online, registered (home or roaming).
pub open spec fn spec_ready(sim: Option<bool>, cfun: Option<u32>, reg: Option<u32>) -> bool {
    sim == Some(true) && cfun == Some(1u32) && (reg == Some(1u32) || reg == Some(5u32))
}

/// `{:?}` of an `Option<u32>`.
pub open spec fn debug_opt(o: Option<u32>) -> Seq<char> {
    match o {
        Some(n) => "Some("@ + dec_str(n as nat) + ")"@,
        None => "None"@,
    }
}

/// The missing pieces, in order.
pub open spec fn reason_parts(sim: Option<bool>, cfun: Option<u32>, reg: Option<u32>) -> Seq<Seq<char>> {
    let a: Seq<Seq<char>> = if sim == Some(true) {
        seq![]
    } else {
        seq!["SIM 未就绪"@]
    };
    let b = if cfun == Some(1u32) {
        a
    } else {
        a.push("模组未在线（CFUN="@ + debug_opt(cfun) + "）"@)
    };
    if reg == Some(1u32) || reg == Some(5u32) {
        b
    } else {
        b.push("网络未注册（CEREG="@ + debug_opt(reg) + "）"@)
    }
}

fn push_debug_opt(s: &mut String, o: Option<u32>)
    ensures
        final(s)@ == old(s)@ + debug_opt(o),
{
    match o {
        Some(n) => {
            push_str(s, "Some(");
            push_dec(s, n as u64);
            push_str(s, ")");
        },
        None => {
            push_str(s, "None");
        },
    }
}

impl Readiness {
    /// Whether the modem is ready to dial.
    pub fn ok(&self) -> (b: bool)
        ensures
            b == spec_ready(self.sim_ready, self.cfun, self.reg_state),
    {
        (match self.sim_ready {
            Some(true) => true,
            _ => false,
        }) && (match self.cfun {
            Some(1) => true,
            _ => false,
        }) && (match self.reg_state {
            Some(1) | Some(5) => true,
            _ => false,
        })
    }

    /// The missing pieces in words, joined by `，` (empty when ready).
    pub fn reason(&self) -> (r: String)
        ensures
            r@ == join(reason_parts(self.sim_ready, self.cfun, self.reg_state), "，"@),
    {
        let mut why: Vec<String> = Vec::new();
        if !(match self.sim_ready {
            Some(true) => true,
            _ => false,
        }) {
            why.push(String::from_str("SIM 未就绪"));
        }
        if !(match self.cfun {
            Some(1) => true,
            _ => false,
        }) {
            let mut s = String::new();
            push_str(&mut s, "模组未在线（CFUN=");
            push_debug_opt(&mut s, self.cfun);
            push_str(&mut s, "）");
            why.push(s);
        }
        if !(match self.reg_state {
            Some(1) | Some(5) => true,
            _ => false,
        }) {
            let mut s = String::new();
            push_str(&mut s, "网络未注册（CEREG=");
            push_debug_opt(&mut s, self.reg_state);
            push_str(&mut s, "）");
            why.push(s);
        }
        assert(strs(why@) =~= reason_parts(self.sim_ready, self.cfun, self.reg_state));
        crate::text::join_strings(&why, "，")
    }
}

/// Field `i` of the first row parsed as `u32`.
pub open spec fn first_u32(row: Seq<Seq<char>>, i: int) -> Option<u32> {
    if 0 <= i < row.len() {
        match parse_uint(row[i], u32::MAX as int) {
            Some(n) => Some(n as u32),
            None => None,
        }
    } else {
        None
    }
}

pub(crate) fn field_u32(row: &Vec<String>, i: usize) -> (r: Option<u32>)
    ensures
        r == first_u32(strs(row@), i as int),
{
    if i < row.len() {
        assert(strs(row@)[i as int] == row@[i as int]@);
        let v = chars_of(row[i].as_str());
        assert(v@.subrange(0, v@.len() as int) == v@);
        match parse_uint_range(&v, 0, v.len(), 4294967295) {
            Some(n) => Some(n as u32),
            None => None,
        }
    } else {
        None
    }
}

/// The preconditions from the answers to `AT+CPIN?`, `AT+CFUN?` and
/// `AT+CEREG?` (a failed command passes its error text).
pub fn readiness_from(cpin: &str, cfun: &str, cereg: &str) -> (r: Readiness)
    ensures
        r.sim_ready == Some(contains_str(cpin@, "READY"@)),
        r.cfun == first_u32(spec_first(cfun@, "+CFUN"@), 0),
        r.reg_state == (if spec_first(cereg@, "+CEREG"@).len() > 1 {
            first_u32(spec_first(cereg@, "+CEREG"@), 1)
        } else {
            first_u32(spec_first(cereg@, "+CEREG"@), 0)
        }),
        r.raw@.len() == 0,
{
    let v = chars_of(cpin);
    assert(v@.subrange(0, v@.len() as int) == v@);
    let sim = crate::text::range_contains_str(&v, 0, v.len(), "READY");
    let fr = first(cfun, "+CFUN");
    let cf = field_u32(&fr, 0);
    let er = first(cereg, "+CEREG");
    let reg = if er.len() > 1 {
        field_u32(&er, 1)
    } else {
        field_u32(&er, 0)
    };
    Readiness { sim_ready: Some(sim), cfun: cf, reg_state: reg, raw: Vec::new() }
}

// ---------------------------------------------------------------- context state

/// The `AT+CGDCONT?` row of `cid` (the last one listed).
pub open spec fn cgdcont_row(rs: Seq<Seq<Seq<char>>>, cid: u32) -> Option<Seq<Seq<char>>>
    decreases rs.len(),
{
    if rs.len() == 0 {
        None
    } else if row_cid_is(rs.last(), cid) {
        Some(rs.last())
    } else {
        cgdcont_row(rs.drop_last(), cid)
    }
}

/// Field `i` of a row, or empty.
pub open spec fn field_or_empty(row: Seq<Seq<char>>, i: int) -> Seq<char> {
    if 0 <= i < row.len() {
        row[i]
    } else {
        seq![]
    }
}

/// What `AT+CGCONTRDP` supplies: the first valid IPv4 address (field 3),
/// the first gateway (field 4, IPv4 or decoded IPv6), the IPv4 DNS servers
/// of fields 5 and 6, and the first IPv6 found there.
pub struct ContrView {
    pub ipv4: Seq<char>,
    pub gw4: Seq<char>,
    pub gw6: Seq<char>,
    pub ipv6: Seq<char>,
    pub dns: Seq<Seq<char>>,
}

/// Field 5 or 6 of a row taken into the DNS list / IPv6 fallback.
pub open spec fn contr_dns_item(acc: ContrView, item: Seq<char>) -> ContrView {
    if spec_is_valid_ipv4(item) {
        ContrView { dns: acc.dns.push(item), ..acc }
    } else if acc.ipv6.len() == 0 && spec_normalize_ipv6(item) is Some {
        ContrView { ipv6: spec_normalize_ipv6(item)->Some_0, ..acc }
    } else {
        acc
    }
}

/// One `+CGCONTRDP` row taken in.
pub open spec fn contr_step(acc: ContrView, row: Seq<Seq<char>>) -> ContrView {
    let a1 = if acc.ipv4.len() == 0 && row.len() > 3 && spec_is_valid_ipv4(row[3]) {
        ContrView { ipv4: row[3], ..acc }
    } else {
        acc
    };
    let a2 = if a1.gw4.len() == 0 && a1.gw6.len() == 0 && row.len() > 4 {
        if spec_is_valid_ipv4(row[4]) {
            ContrView { gw4: row[4], ..a1 }
        } else if spec_normalize_ipv6(row[4]) is Some {
            ContrView { gw6: spec_normalize_ipv6(row[4])->Some_0, ..a1 }
        } else {
            a1
        }
    } else {
        a1
    };
    let a3 = if row.len() > 5 {
        contr_dns_item(a2, row[5])
    } else {
        a2
    };
    if row.len() > 6 {
        contr_dns_item(a3, row[6])
    } else {
        a3
    }
}

pub open spec fn contr_empty() -> ContrView {
    ContrView { ipv4: seq![], gw4: seq![], gw6: seq![], ipv6: seq![], dns: seq![] }
}

/// All `+CGCONTRDP` rows taken in, in order.
pub open spec fn contr_fold(rs: Seq<Seq<Seq<char>>>) -> ContrView
    decreases rs.len(),
{
    if rs.len() == 0 {
        contr_empty()
    } else {
        contr_step(contr_fold(rs.drop_last()), rs.last())
    }
}

/// What `AT+CGPADDR` supplies: whether an IPv6 field appeared at all (even
/// a placeholder), the first IPv4 and the first valid IPv6 (decoded).
pub struct AddrView {
    pub v6_seen: bool,
    pub ipv4: Seq<char>,
    pub ipv6: Seq<char>,
}

/// One field after the cid taken in.
pub open spec fn addr_step(acc: AddrView, item: Seq<char>) -> AddrView {
    let seen = acc.v6_seen || spec_looks_v6(item);
    if spec_normalize_ipv6(item) is Some {
        AddrView {
            v6_seen: seen,
            ipv6: if acc.ipv6.len() == 0 {
                spec_normalize_ipv6(item)->Some_0
            } else {
                acc.ipv6
            },
            ..acc
        }
    } else if spec_is_valid_ipv4(item) {
        AddrView {
            v6_seen: seen,
            ipv4: if acc.ipv4.len() == 0 {
                item
            } else {
                acc.ipv4
            },
            ..acc
        }
    } else {
        AddrView { v6_seen: seen, ..acc }
    }
}

/// The fields taken in, in order.
pub open spec fn addr_fold(items: Seq<Seq<char>>) -> AddrView
    decreases items.len(),
{
    if items.len() == 0 {
        AddrView { v6_seen: false, ipv4: seq![], ipv6: seq![] }
    } else {
        addr_step(addr_fold(items.drop_last()), items.last())
    }
}

/// The `AT+CGPADDR` result: the fields of the first row after the cid;
/// when no IPv4 was among them, the first dotted IPv4 token of the answer
/// (if valid).
pub open spec fn addr_of(resp: Seq<char>) -> AddrView {
    let row = spec_first(resp, "+CGPADDR"@);
    let a = addr_fold(if row.len() > 0 {
        row.drop_first()
    } else {
        row
    });
    if a.ipv4.len() == 0 {
        match first_ipv4_of(lines(resp)) {
            Some(x) => if spec_is_valid_ipv4(x) {
                AddrView { ipv4: x, ..a }
            } else {
                a
            },
            None => a,
        }
    } else {
        a
    }
}

/// What `AT+CGCONTRDP` supplied, as values.
pub struct ContrInfo {
    /// Whether the answer listed any context at all.
    pub present: bool,
    pub ipv4: String,
    pub gw4: String,
    pub gw6: String,
    pub ipv6: String,
    pub dns: Vec<String>,
}

/// The values are those of the view.
pub open spec fn contr_is(c: ContrInfo, v: ContrView) -> bool {
    c.ipv4@ == v.ipv4 && c.gw4@ == v.gw4 && c.gw6@ == v.gw6 && c.ipv6@ == v.ipv6 && strs(c.dns@) == v.dns
}

fn contr_item(acc: &mut ContrInfo, item: &String, v: Ghost<ContrView>)
    requires
        contr_is(*old(acc), v@),
    ensures
        contr_is(*final(acc), contr_dns_item(v@, item@)),
        final(acc).present == old(acc).present,
{
    if is_valid_ipv4(item.as_str()) {
        acc.dns.push(item.clone());
        assert(strs(acc.dns@) =~= v@.dns.push(item@));
    } else if acc.ipv6.as_str().is_empty() {
        match normalize_ipv6(item.as_str()) {
            Some(a6) => {
                acc.ipv6 = a6;
            },
            None => {},
        }
    }
}

/// The addresses, gateways and DNS servers an `AT+CGCONTRDP` answer
/// supplies (see [`contr_step`]).
pub fn contr_info(resp: &str) -> (c: ContrInfo)
    ensures
        c.present == (spec_rows(resp@, "+CGCONTRDP"@).len() > 0),
        contr_is(c, contr_fold(spec_rows(resp@, "+CGCONTRDP"@))),
{
    let rs = rows(resp, "+CGCONTRDP");
    let ghost rv = rows_view(rs@);
    let mut c = ContrInfo {
        present: rs.len() > 0,
        ipv4: String::new(),
        gw4: String::new(),
        gw6: String::new(),
        ipv6: String::new(),
        dns: Vec::new(),
    };
    assert(strs(c.dns@) =~= Seq::<Seq<char>>::empty());
    let mut k: usize = 0;
    while k < rs.len()
        invariant
            k <= rs@.len(),
            rv == rows_view(rs@),
            c.present == (rv.len() > 0),
            contr_is(c, contr_fold(rv.take(k as int))),
        decreases rs.len() - k,
    {
        let ghost before = rv.take(k as int);
        let ghost after = rv.take(k + 1);
        assert(after.drop_last() == before);
        let row = &rs[k];
        let ghost sr = strs(row@);
        assert(after.last() == sr);
        let ghost a0 = contr_fold(before);
        if row.len() > 3 {
            assert(sr[3] == row@[3]@);
        }
        if row.len() > 4 {
            assert(sr[4] == row@[4]@);
        }
        if row.len() > 5 {
            assert(sr[5] == row@[5]@);
        }
        if row.len() > 6 {
            assert(sr[6] == row@[6]@);
        }
        if c.ipv4.as_str().is_empty() && row.len() > 3 && is_valid_ipv4(row[3].as_str()) {
            c.ipv4 = row[3].clone();
        }
        let ghost a1 = if a0.ipv4.len() == 0 && sr.len() > 3 && spec_is_valid_ipv4(sr[3]) {
            ContrView { ipv4: sr[3], ..a0 }
        } else {
            a0
        };
        assert(contr_is(c, a1));
        if c.gw4.as_str().is_empty() && c.gw6.as_str().is_empty() && row.len() > 4 {
            if is_valid_ipv4(row[4].as_str()) {
                c.gw4 = row[4].clone();
            } else {
                match normalize_ipv6(row[4].as_str()) {
                    Some(g) => {
                        c.gw6 = g;
                    },
                    None => {},
                }
            }
        }
        let ghost a2 = if a1.gw4.len() == 0 && a1.gw6.len() == 0 && sr.len() > 4 {
            if spec_is_valid_ipv4(sr[4]) {
                ContrView { gw4: sr[4], ..a1 }
            } else if spec_normalize_ipv6(sr[4]) is Some {
                ContrView { gw6: spec_normalize_ipv6(sr[4])->Some_0, ..a1 }
            } else {
                a1
            }
        } else {
            a1
        };
        assert(contr_is(c, a2));
        let ghost a3 = if sr.len() > 5 {
            contr_dns_item(a2, sr[5])
        } else {
            a2
        };
        if row.len() > 5 {
            contr_item(&mut c, &row[5], Ghost(a2));
        }
        if row.len() > 6 {
            contr_item(&mut c, &row[6], Ghost(a3));
        }
        assert(contr_step(a0, sr) == (if sr.len() > 6 {
            contr_dns_item(a3, sr[6])
        } else {
            a3
        }));
        k += 1;
    }
    assert(rv.take(rs@.len() as int) == rv);
    c
}

/// What `AT+CGPADDR` supplied, as values.
pub struct AddrInfo {
    pub v6_seen: bool,
    pub ipv4: String,
    pub ipv6: String,
}

/// The addresses an `AT+CGPADDR` answer supplies (see [`addr_of`]).
pub fn addr_info(resp: &str) -> (a: AddrInfo)
    ensures
        a.v6_seen == addr_of(resp@).v6_seen,
        a.ipv4@ == addr_of(resp@).ipv4,
        a.ipv6@ == addr_of(resp@).ipv6,
{
    let row = first(resp, "+CGPADDR");
    let ghost sr = strs(row@);
    let ghost items = if sr.len() > 0 {
        sr.drop_first()
    } else {
        sr
    };
    let mut a = AddrInfo { v6_seen: false, ipv4: String::new(), ipv6: String::new() };
    let mut k: usize = 1;
    if row.len() == 0 {
        k = 0;
    }
    let ghost start: int = k as int;
    assert(items.take(0) =~= Seq::<Seq<char>>::empty());
    while k < row.len()
        invariant
            sr == strs(row@),
            start == (if sr.len() > 0 {
                1int
            } else {
                0int
            }),
            items == (if sr.len() > 0 {
                sr.drop_first()
            } else {
                sr
            }),
            start <= k <= row@.len(),
            sr.len() == 0 ==> k == 0,
            ({
                let v = addr_fold(items.take(k - start));
                a.v6_seen == v.v6_seen && a.ipv4@ == v.ipv4 && a.ipv6@ == v.ipv6
            }),
        decreases row.len() - k,
    {
        let ghost before = items.take(k - start);
        let ghost after = items.take(k - start + 1);
        assert(after.drop_last() == before);
        assert(sr[k as int] == row@[k as int]@);
        assert(after.last() == row@[k as int]@);
        let item = &row[k];
        if looks_v6(item.as_str()) {
            a.v6_seen = true;
        }
        match normalize_ipv6(item.as_str()) {
            Some(a6) => {
                if a.ipv6.as_str().is_empty() {
                    a.ipv6 = a6;
                }
            },
            None => {
                if is_valid_ipv4(item.as_str()) && a.ipv4.as_str().is_empty() {
                    a.ipv4 = item.clone();
                }
            },
        }
        k += 1;
    }
    assert(items.take(items.len() as int) == items);
    if a.ipv4.as_str().is_empty() {
        match first_ipv4(resp) {
            Some(x) => {
                if is_valid_ipv4(x.as_str()) {
                    a.ipv4 = x;
                }
            },
            None => {},
        }
    }
    a
}

/// The fields of a [`PdpState`] computed from the answers (a command that
/// failed is `None`): see [`pdp_state`].
pub open spec fn pdp_fields_ok(
    st: PdpState,
    cfg: Config,
    cgdcont: Option<Seq<char>>,
    cgact: Option<Seq<char>>,
    contrdp: Option<Seq<char>>,
    cgpaddr: Option<Seq<char>>,
) -> bool {
    let row = match cgdcont {
        Some(r) => cgdcont_row(spec_rows(r, "+CGDCONT"@), cfg.cid),
        None => None,
    };
    let t = match row {
        Some(r) => field_or_empty(r, 1),
        None => seq![],
    };
    let n = match row {
        Some(r) => field_or_empty(r, 2),
        None => seq![],
    };
    let cg = match cgact {
        Some(r) => cgact_of(spec_rows(r, "+CGACT"@), cfg.cid),
        None => None,
    };
    let present = match contrdp {
        Some(r) => spec_rows(r, "+CGCONTRDP"@).len() > 0,
        None => false,
    };
    let contr = match contrdp {
        Some(r) => contr_fold(spec_rows(r, "+CGCONTRDP"@)),
        None => contr_empty(),
    };
    let addr = match cgpaddr {
        Some(r) => addr_of(r),
        None => AddrView { v6_seen: false, ipv4: seq![], ipv6: seq![] },
    };
    let active = match cg {
        Some(b) => b,
        None => present || addr.ipv4.len() > 0 || addr.ipv6.len() > 0,
    };
    &&& st.cid == cfg.cid
    &&& st.pdp_type@ == (if t.len() == 0 {
        cfg.pdp_type@
    } else {
        t
    })
    &&& st.apn@ == (if n.len() == 0 {
        cfg.apn@
    } else {
        n
    })
    &&& st.active == active
    &&& st.ipv4@ == (if !active {
        seq![]
    } else if addr.ipv4.len() > 0 {
        addr.ipv4
    } else {
        contr.ipv4
    })
    &&& st.ipv6@ == (if !active {
        seq![]
    } else if addr.ipv6.len() == 0 && !addr.v6_seen {
        contr.ipv6
    } else {
        addr.ipv6
    })
    &&& st.gw4@ == (if active {
        contr.gw4
    } else {
        seq![]
    })
    &&& st.gw6@ == (if active {
        contr.gw6
    } else {
        seq![]
    })
    &&& strs(st.dns@) == (if active {
        contr.dns
    } else {
        seq![]
    })
    &&& st.raw@.len() == 0
}

/// The view of an optional string.
pub open spec fn opt_view(o: Option<String>) -> Option<Seq<char>> {
    match o {
        Some(s) => Some(s@),
        None => None,
    }
}

fn cgdcont_pick(resp: &str, cid: u32) -> (r: (String, String))
    ensures
        ({
            let row = cgdcont_row(spec_rows(resp@, "+CGDCONT"@), cid);
            &&& r.0@ == (match row {
                Some(x) => field_or_empty(x, 1),
                None => seq![],
            })
            &&& r.1@ == (match row {
                Some(x) => field_or_empty(x, 2),
                None => seq![],
            })
        }),
{
    let rs = rows(resp, "+CGDCONT");
    let ghost rv = rows_view(rs@);
    let mut k: usize = rs.len();
    assert(rv.take(rs@.len() as int) =~= rv);
    while k > 0
        invariant
            k <= rs@.len(),
            rv == rows_view(rs@),
            rv == spec_rows(resp@, "+CGDCONT"@),
            cgdcont_row(rv, cid) == cgdcont_row(rv.take(k as int), cid),
        decreases k,
    {
        let ghost t = rv.take(k as int);
        assert(t.drop_last() == rv.take(k - 1));
        let row = &rs[k - 1];
        let ghost sr = strs(row@);
        assert(t.last() == sr);
        if row.len() > 0 {
            assert(sr[0] == row@[0]@);
        }
        if row.len() > 0 && is_cid(row[0].as_str(), cid) {
            let t1 = if row.len() > 1 {
                assert(sr[1] == row@[1]@);
                row[1].clone()
            } else {
                String::new()
            };
            let t2 = if row.len() > 2 {
                assert(sr[2] == row@[2]@);
                row[2].clone()
            } else {
                String::new()
            };
            return (t1, t2);
        }
        k -= 1;
    }
    assert(rv.take(0) =~= Seq::<Seq<Seq<char>>>::empty());
    (String::new(), String::new())
}

/// The PDP context state from the answers to `AT+CGDCONT?`, `AT+CGACT?`,
/// `AT+CGCONTRDP=<cid>` and `AT+CGPADDR=<cid>` (`None` for a command that
/// failed). `AT+CGACT?` decides activation when it lists contexts; else
/// any address or `+CGCONTRDP` row counts. Addresses are only taken when
/// active; `AT+CGPADDR` comes first, `AT+CGCONTRDP` fills in (its IPv6 only
/// when `AT+CGPADDR` showed no IPv6 field at all). The DNS servers are
/// those of `AT+CGCONTRDP` until [`apply_gtdns`] replaces them.
pub fn pdp_state(
    cfg: &Config,
    cgdcont: Option<String>,
    cgact: Option<String>,
    contrdp: Option<String>,
    cgpaddr: Option<String>,
) -> (st: PdpState)
    ensures
        pdp_fields_ok(st, *cfg, opt_view(cgdcont), opt_view(cgact), opt_view(contrdp), opt_view(cgpaddr)),
{
    let (t, n) = match &cgdcont {
        Some(r) => cgdcont_pick(r.as_str(), cfg.cid),
        None => (String::new(), String::new()),
    };
    let pdp_type = if t.as_str().is_empty() {
        cfg.pdp_type.clone()
    } else {
        t
    };
    let apn = if n.as_str().is_empty() {
        cfg.apn.clone()
    } else {
        n
    };
    let cg = match &cgact {
        Some(r) => cgact_state(r.as_str(), cfg.cid),
        None => None,
    };
    let contr = match &contrdp {
        Some(r) => contr_info(r.as_str()),
        None => {
            let c = ContrInfo {
                present: false,
                ipv4: String::new(),
                gw4: String::new(),
                gw6: String::new(),
                ipv6: String::new(),
                dns: Vec::new(),
            };
            assert(strs(c.dns@) =~= Seq::<Seq<char>>::empty());
            c
        },
    };
    let addr = match &cgpaddr {
        Some(r) => addr_info(r.as_str()),
        None => AddrInfo { v6_seen: false, ipv4: String::new(), ipv6: String::new() },
    };
    let active = match cg {
        Some(b) => b,
        None => contr.present || !addr.ipv4.as_str().is_empty() || !addr.ipv6.as_str().is_empty(),
    };
    let mut st = PdpState {
        cid: cfg.cid,
        apn,
        pdp_type,
        active,
        ipv4: String::new(),
        ipv6: String::new(),
        dns: Vec::new(),
        gw4: String::new(),
        gw6: String::new(),
        raw: Vec::new(),
    };
    if active {
        st.ipv4 = if !addr.ipv4.as_str().is_empty() {
            addr.ipv4
        } else {
            contr.ipv4
        };
        st.ipv6 = if addr.ipv6.as_str().is_empty() && !addr.v6_seen {
            contr.ipv6
        } else {
            addr.ipv6
        };
        st.gw4 = contr.gw4;
        st.gw6 = contr.gw6;
        st.dns = contr.dns;
    } else {
        assert(strs(st.dns@) =~= Seq::<Seq<char>>::empty());
    }
    st
}

/// The DNS servers of a `+GTDNS` row after the cid: IPv4 as written, IPv6
/// decoded, anything else dropped.
pub open spec fn gtdns_list(items: Seq<Seq<char>>) -> Seq<Seq<char>>
    decreases items.len(),
{
    if items.len() == 0 {
        seq![]
    } else {
        let prev = gtdns_list(items.drop_last());
        let x = items.last();
        if spec_is_valid_ipv4(x) {
            prev.push(x)
        } else if spec_normalize_ipv6(x) is Some {
            prev.push(spec_normalize_ipv6(x)->Some_0)
        } else {
            prev
        }
    }
}

/// The servers of an `AT+GTDNS=<cid>` answer.
pub open spec fn gtdns_of(resp: Seq<char>) -> Seq<Seq<char>> {
    let row = spec_first(resp, "+GTDNS"@);
    gtdns_list(if row.len() > 0 {
        row.drop_first()
    } else {
        row
    })
}

/// Takes the DNS servers of an `AT+GTDNS` answer (IPv4 and IPv6) in place
/// of those of `AT+CGCONTRDP`, unless it lists none.
pub fn apply_gtdns(st: &mut PdpState, resp: &str)
    ensures
        gtdns_of(resp@).len() > 0 ==> strs(final(st).dns@) == gtdns_of(resp@),
        gtdns_of(resp@).len() == 0 ==> final(st).dns@ == old(st).dns@,
        final(st).cid == old(st).cid,
        final(st).apn == old(st).apn,
        final(st).pdp_type == old(st).pdp_type,
        final(st).active == old(st).active,
        final(st).ipv4 == old(st).ipv4,
        final(st).ipv6 == old(st).ipv6,
        final(st).gw4 == old(st).gw4,
        final(st).gw6 == old(st).gw6,
        final(st).raw == old(st).raw,
{
    let row = first(resp, "+GTDNS");
    let ghost sr = strs(row@);
    let ghost items = if sr.len() > 0 {
        sr.drop_first()
    } else {
        sr
    };
    let mut out: Vec<String> = Vec::new();
    let mut k: usize = if row.len() > 0 {
        1
    } else {
        0
    };
    let ghost start: int = k as int;
    assert(strs(out@) =~= gtdns_list(items.take(0)));
    while k < row.len()
        invariant
            sr == strs(row@),
            start == (if sr.len() > 0 {
                1int
            } else {
                0int
            }),
            items == (if sr.len() > 0 {
                sr.drop_first()
            } else {
                sr
            }),
            start <= k <= row@.len(),
            sr.len() == 0 ==> k == 0,
            strs(out@) == gtdns_list(items.take(k - start)),
        decreases row.len() - k,
    {
        let ghost before = items.take(k - start);
        let ghost after = items.take(k - start + 1);
        assert(after.drop_last() == before);
        assert(sr[k as int] == row@[k as int]@);
        assert(after.last() == row@[k as int]@);
        let x = &row[k];
        if is_valid_ipv4(x.as_str()) {
            out.push(x.clone());
            assert(strs(out@) =~= gtdns_list(before).push(x@));
        } else {
            match normalize_ipv6(x.as_str()) {
                Some(a6) => {
                    let ghost a6v = a6@;
                    out.push(a6);
                    assert(strs(out@) =~= gtdns_list(before).push(a6v));
                },
                None => {},
            }
        }
        k += 1;
    }
    assert(items.take(items.len() as int) == items);
    if out.len() > 0 {
        st.dns = out;
    }
}

/// A dial's result: the context, and on failure the preconditions found.
#[derive(Debug)]
pub struct DialOutcome {
    pub pdp: PdpState,
    /// Filled only when the dial failed.
    pub readiness: Option<Readiness>,
}

/// The APN command for a dial, refused when the APN is empty.
pub fn apn_command(cfg: &Config, apn: &str, pdp_type: &str) -> (r: Result<String, String>)
    ensures
        apn@.len() == 0 ==> (r matches Err(e) && e@ == "APN 不能为空"@),
        apn@.len() > 0 ==> (r matches Ok(c) && c@ == "AT+CGDCONT="@ + dec_str(cfg.cid as nat) + ",\""@
            + pdp_type@ + "\",\""@ + apn@ + "\""@),
{
    if apn.is_empty() {
        return Err(String::from_str("APN 不能为空"));
    }
    Ok(crate::at::cmd::set_apn(cfg.cid, pdp_type, apn))
}

/// The authentication command of the configuration (also sent for `none`,
/// so that the modem forgets earlier credentials).
pub fn auth_command(cfg: &Config) -> (r: String)
    ensures
        crate::at::cmd::spec_auth_code(cfg.auth@) == 0 ==> r@ == "AT+CGAUTH="@ + dec_str(
            cfg.cid as nat,
        ) + ",0"@,
        crate::at::cmd::spec_auth_code(cfg.auth@) != 0 ==> r@ == "AT+CGAUTH="@ + dec_str(
            cfg.cid as nat,
        ) + ","@ + dec_str(crate::at::cmd::spec_auth_code(cfg.auth@) as nat) + ",\""@ + cfg.username@
            + "\",\""@ + cfg.password@ + "\""@,
{
    crate::at::cmd::set_auth(cfg.cid, cfg.auth.as_str(), cfg.username.as_str(), cfg.password.as_str())
}

/// A dial is not needed: the context is active and has an address already
/// (a repeated activation would answer `+CME ERROR: 5847`).
pub fn already_dialed(st: &PdpState) -> (b: bool)
    ensures
        b == (st.active && (st.ipv4@.len() > 0 || st.ipv6@.len() > 0)),
{
    st.active && st.has_address()
}

/// The message of a failed activation: the modem's answer on one line,
/// a note when it reported a repeated activation, and the missing
/// preconditions when not ready.
pub fn activation_failure(resp: &str, dup: bool, rd: &Readiness) -> (r: String)
    ensures
        r@ == "激活 PDP 失败: "@ + crate::text::replace_char(resp@, '\n', ' ') + (if dup {
            "（模组报告重复激活，但上下文中未取到任何地址）"@
        } else {
            ""@
        }) + (if !spec_ready(rd.sim_ready, rd.cfun, rd.reg_state) {
            "；前置体检："@ + join(reason_parts(rd.sim_ready, rd.cfun, rd.reg_state), "，"@)
        } else {
            ""@
        }),
{
    proof {
        reveal_strlit("");
    }
    let mut s = String::new();
    push_str(&mut s, "激活 PDP 失败: ");
    let v = chars_of(resp);
    assert(v@.subrange(0, v@.len() as int) == v@);
    let r1 = crate::text::replace_char_range(&v, 0, v.len(), '\n', ' ');
    crate::text::push_chars(&mut s, &r1);
    if dup {
        push_str(&mut s, "（模组报告重复激活，但上下文中未取到任何地址）");
    } else {
        assert(s@ + ""@ =~= s@);
    }
    let ghost s1 = s@;
    if !rd.ok() {
        push_str(&mut s, "；前置体检：");
        let why = rd.reason();
        push_str(&mut s, why.as_str());
    } else {
        assert(s1 + ""@ =~= s1);
    }
    s
}

} // verus!
