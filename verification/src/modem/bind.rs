//! Data channel binding (`AT+EMBIND`): does the data of a context reach the
//! host, or the modem's own kernel?
//!
//! `M-CCMNI` and `M-RNDIS` / `M-MBIM` are alternative destinations: data
//! goes either to the modem's internal `ccmni` devices (invisible to the
//! host) or to the USB network device of the host. The binding is read and
//! judged here; rebinding is a manual repair, never part of a dial.
use crate::at::cmd;
use crate::text::{
    chars_of, lines, lines_range, parse_uint, parse_uint_range, split_char, split_range,
    starts_with, string_of_range, strs, trim, trim_char, trim_char_range, trim_range, str_eq,
};
use vstd::prelude::*;

verus! {

/// The binding state of one L2P.
#[derive(Debug, Clone)]
pub struct BindEntry {
    pub l2p: String,
    pub bound: bool,
}

/// The parsed answer to `AT+EMBIND?`.
#[derive(Debug, Default)]
pub struct BindState {
    /// The entries, in the order the modem listed them, each L2P once.
    pub entries: Vec<BindEntry>,
    /// The raw `+EMBIND` lines (the only evidence when nothing parses).
    pub raw: Vec<String>,
}

/// The view of entries: `(l2p, bound)` pairs.
pub open spec fn entries_view(e: Seq<BindEntry>) -> Seq<(Seq<char>, bool)> {
    e.map_values(|x: BindEntry| (x.l2p@, x.bound))
}

/// An L2P that delivers data to the host.
pub open spec fn host_l2p(l: Seq<char>) -> bool {
    l == "M-RNDIS"@ || l == "M-MBIM"@
}

/// Some bound entry delivers to the host.
pub open spec fn spec_host_bound(e: Seq<(Seq<char>, bool)>) -> bool {
    exists|i: int| 0 <= i < e.len() && (#[trigger] e[i]).1 && host_l2p(e[i].0)
}

/// `M-CCMNI` is bound.
pub open spec fn spec_ccmni_bound(e: Seq<(Seq<char>, bool)>) -> bool {
    exists|i: int| 0 <= i < e.len() && (#[trigger] e[i]).1 && e[i].0 == "M-CCMNI"@
}

/// The data path the bindings give: unknown without entries, else host,
/// CCMNI alone, or none.
pub open spec fn spec_verdict(e: Seq<(Seq<char>, bool)>) -> Seq<char> {
    if e.len() == 0 {
        "unknown"@
    } else if spec_host_bound(e) {
        "host"@
    } else if spec_ccmni_bound(e) {
        "ccmni-only"@
    } else {
        "none"@
    }
}

/// The explanation of a verdict shown to the user.
pub open spec fn spec_explain(verdict: Seq<char>) -> Seq<char> {
    if verdict == "host"@ {
        "数据通道已绑定到主机侧（M-RNDIS / M-MBIM）"@
    } else if verdict == "ccmni-only"@ {
        "数据通道被绑定到 M-CCMNI：数据去了模组自身 AP 域的 ccmni，主机侧拿不到地址"@
    } else if verdict == "none"@ {
        "没有任何 L2P 处于绑定态，数据通道未建立"@
    } else {
        "未能解析 AT+EMBIND 回显，数据通道方向未知"@
    }
}

impl BindState {
    /// Whether a bound entry delivers to the host (`M-RNDIS` / `M-MBIM`).
    pub fn host_bound(&self) -> (b: bool)
        ensures
            b == spec_host_bound(entries_view(self.entries@)),
    {
        let mut i: usize = 0;
        while i < self.entries.len()
            invariant
                i <= self.entries@.len(),
                forall|j: int|
                    0 <= j < i ==> !((#[trigger] entries_view(self.entries@)[j]).1 && host_l2p(
                        entries_view(self.entries@)[j].0,
                    )),
            decreases self.entries.len() - i,
        {
            let e = &self.entries[i];
            assert(entries_view(self.entries@)[i as int] == (e.l2p@, e.bound));
            if e.bound && (str_eq(e.l2p.as_str(), cmd::L2P_RNDIS) || str_eq(
                e.l2p.as_str(),
                cmd::L2P_MBIM,
            )) {
                return true;
            }
            i += 1;
        }
        false
    }

    /// Whether `M-CCMNI` is bound (data goes to the modem itself).
    pub fn ccmni_bound(&self) -> (b: bool)
        ensures
            b == spec_ccmni_bound(entries_view(self.entries@)),
    {
        let mut i: usize = 0;
        while i < self.entries.len()
            invariant
                i <= self.entries@.len(),
                forall|j: int|
                    0 <= j < i ==> !((#[trigger] entries_view(self.entries@)[j]).1 && entries_view(
                        self.entries@,
                    )[j].0 == "M-CCMNI"@),
            decreases self.entries.len() - i,
        {
            let e = &self.entries[i];
            assert(entries_view(self.entries@)[i as int] == (e.l2p@, e.bound));
            if e.bound && str_eq(e.l2p.as_str(), cmd::L2P_CCMNI) {
                return true;
            }
            i += 1;
        }
        false
    }

    /// The verdict of the binding (see [`spec_verdict`]).
    pub fn verdict(&self) -> (r: &'static str)
        ensures
            r@ == spec_verdict(entries_view(self.entries@)),
    {
        if self.entries.len() == 0 {
            return "unknown";
        }
        if self.host_bound() {
            return "host";
        }
        if self.ccmni_bound() {
            return "ccmni-only";
        }
        "none"
    }

    /// The explanation shown for the verdict.
    pub fn explain(&self) -> (r: &'static str)
        ensures
            r@ == spec_explain(spec_verdict(entries_view(self.entries@))),
    {
        let v = self.verdict();
        proof {
            reveal_strlit("host");
            reveal_strlit("ccmni-only");
            reveal_strlit("none");
            reveal_strlit("unknown");
        }
        if str_eq(v, "host") {
            "数据通道已绑定到主机侧（M-RNDIS / M-MBIM）"
        } else if str_eq(v, "ccmni-only") {
            "数据通道被绑定到 M-CCMNI：数据去了模组自身 AP 域的 ccmni，主机侧拿不到地址"
        } else if str_eq(v, "none") {
            "没有任何 L2P 处于绑定态，数据通道未建立"
        } else {
            "未能解析 AT+EMBIND 回显，数据通道方向未知"
        }
    }
}

/// A line of the binding answer: `+EMBIND...` or a continuation `,"M-...`.
pub open spec fn bind_line(l: Seq<char>) -> bool {
    starts_with(l, "+EMBIND"@) || starts_with(l, ",\"M-"@)
}

/// The binding lines, trimmed.
pub open spec fn bind_lines(ls: Seq<Seq<char>>) -> Seq<Seq<char>>
    decreases ls.len(),
{
    if ls.len() == 0 {
        seq![]
    } else if bind_line(trim(ls.last())) {
        bind_lines(ls.drop_last()).push(trim(ls.last()))
    } else {
        bind_lines(ls.drop_last())
    }
}

/// The binding lines run together, each followed by `,`.
pub open spec fn flat_of(rl: Seq<Seq<char>>) -> Seq<char>
    decreases rl.len(),
{
    if rl.len() == 0 {
        seq![]
    } else {
        flat_of(rl.drop_last()) + rl.last() + seq![',']
    }
}

/// The tokens of the run-together lines: split at `,`, trimmed, unquoted.
pub open spec fn bind_tokens(resp: Seq<char>) -> Seq<Seq<char>> {
    split_char(flat_of(bind_lines(lines(resp))), ',').map_values(|t: Seq<char>| trim_char(trim(t), '"'))
}

/// Whether `acc` already has an entry for `l`.
pub open spec fn has_l2p(acc: Seq<(Seq<char>, bool)>, l: Seq<char>) -> bool {
    exists|j: int| 0 <= j < acc.len() && (#[trigger] acc[j]).0 == l
}

/// The entries of the tokens from `i`: an `M-...` token followed by a
/// number is an entry (bound when the number is not 0; only the first entry
/// of an L2P counts), and both tokens are consumed.
pub open spec fn entries_from(toks: Seq<Seq<char>>, i: int, acc: Seq<(Seq<char>, bool)>) -> Seq<
    (Seq<char>, bool),
>
    decreases toks.len() - i,
{
    if i < 0 || i >= toks.len() {
        acc
    } else if starts_with(toks[i], "M-"@) && i + 1 < toks.len() && parse_uint(
        toks[i + 1],
        u32::MAX as int,
    ) is Some {
        let v = parse_uint(toks[i + 1], u32::MAX as int)->Some_0;
        let acc2 = if has_l2p(acc, toks[i]) {
            acc
        } else {
            acc.push((toks[i], v != 0))
        };
        entries_from(toks, i + 2, acc2)
    } else {
        entries_from(toks, i + 1, acc)
    }
}

/// L2P names occur at most once.
pub open spec fn distinct_l2p(acc: Seq<(Seq<char>, bool)>) -> bool {
    forall|a: int, b: int| 0 <= a < b < acc.len() ==> acc[a].0 != acc[b].0
}

/// Parses an `AT+EMBIND?` answer, whether the entries come on one line or
/// as continuation lines. Nothing parsed leaves `entries` empty (verdict
/// `unknown`); no default is assumed.
pub fn parse(resp: &str) -> (st: BindState)
    ensures
        strs(st.raw@) == bind_lines(lines(resp@)),
        entries_view(st.entries@) == entries_from(bind_tokens(resp@), 0, seq![]),
        distinct_l2p(entries_view(st.entries@)),
{
    let v = chars_of(resp);
    assert(v@.subrange(0, v@.len() as int) == v@);
    let ls = lines_range(&v, 0, v.len());
    let ghost all = lines(v@);
    let mut raw: Vec<String> = Vec::new();
    let mut flat: Vec<char> = Vec::new();
    let mut k: usize = 0;
    while k < ls.len()
        invariant
            all == lines(v@),
            v@ == resp@,
            ls@.len() == all.len(),
            forall|j: int|
                0 <= j < ls@.len() ==> 0 <= (#[trigger] ls@[j]).0 <= ls@[j].1 <= v@.len()
                    && v@.subrange(ls@[j].0 as int, ls@[j].1 as int) == all[j],
            k <= ls@.len(),
            strs(raw@) == bind_lines(all.take(k as int)),
            flat@ == flat_of(bind_lines(all.take(k as int))),
        decreases ls.len() - k,
    {
        let ghost before = all.take(k as int);
        let ghost after = all.take(k + 1);
        assert(after.drop_last() == before);
        assert(after.last() == all[k as int]);
        let (a0, b0) = ls[k];
        let (a, b) = trim_range(&v, a0, b0);
        if crate::text::range_starts_with_str(&v, a, b, "+EMBIND")
            || crate::text::range_starts_with_str(&v, a, b, ",\"M-") {
            let ghost rl = bind_lines(before);
            raw.push(string_of_range(&v, a, b));
            assert(strs(raw@) =~= strs(raw@.drop_last()).push(v@.subrange(a as int, b as int)));
            let mut i = a;
            let ghost f0 = flat@;
            while i < b
                invariant
                    a <= i <= b <= v@.len(),
                    flat@ == f0 + v@.subrange(a as int, i as int),
                decreases b - i,
            {
                flat.push(v[i]);
                i += 1;
                assert(flat@ =~= f0 + v@.subrange(a as int, i as int));
            }
            flat.push(',');
            assert(bind_lines(after) == rl.push(v@.subrange(a as int, b as int)));
            assert(flat_of(rl.push(v@.subrange(a as int, b as int))) =~= flat_of(rl) + v@.subrange(
                a as int,
                b as int,
            ) + seq![',']) by {
                assert(rl.push(v@.subrange(a as int, b as int)).drop_last() == rl);
            }
        }
        k += 1;
    }
    assert(all.take(all.len() as int) == all);
    assert(flat@.subrange(0, flat@.len() as int) == flat@);
    let pieces = split_range(&flat, 0, flat.len(), ',');
    let ghost raw_toks = split_char(flat@, ',');
    let ghost toks = bind_tokens(resp@);
    // the tokens, trimmed and unquoted, as ranges of `flat`
    let mut tr: Vec<(usize, usize)> = Vec::new();
    let mut j: usize = 0;
    while j < pieces.len()
        invariant
            raw_toks == split_char(flat@, ','),
            toks == raw_toks.map_values(|t: Seq<char>| trim_char(trim(t), '"')),
            pieces@.len() == raw_toks.len(),
            forall|m: int|
                0 <= m < pieces@.len() ==> 0 <= (#[trigger] pieces@[m]).0 <= pieces@[m].1
                    <= flat@.len() && flat@.subrange(pieces@[m].0 as int, pieces@[m].1 as int)
                    == raw_toks[m],
            j <= pieces@.len(),
            tr@.len() == j,
            forall|m: int|
                0 <= m < j ==> 0 <= (#[trigger] tr@[m]).0 <= tr@[m].1 <= flat@.len()
                    && flat@.subrange(tr@[m].0 as int, tr@[m].1 as int) == toks[m],
        decreases pieces.len() - j,
    {
        let (s, e) = pieces[j];
        let (s1, e1) = trim_range(&flat, s, e);
        let (s2, e2) = trim_char_range(&flat, s1, e1, '"');
        tr.push((s2, e2));
        j += 1;
    }
    let mut entries: Vec<BindEntry> = Vec::new();
    let mut i: usize = 0;
    assert(entries_view(entries@) =~= Seq::<(Seq<char>, bool)>::empty());
    proof {
        reveal_strlit("M-");
    }
    while i < tr.len()
        invariant
            tr@.len() == toks.len(),
            forall|m: int|
                0 <= m < tr@.len() ==> 0 <= (#[trigger] tr@[m]).0 <= tr@[m].1 <= flat@.len()
                    && flat@.subrange(tr@[m].0 as int, tr@[m].1 as int) == toks[m],
            i <= tr@.len() + 1,
            entries_from(toks, 0, seq![]) == entries_from(toks, i as int, entries_view(entries@)),
            distinct_l2p(entries_view(entries@)),
        decreases tr.len() + 1 - i,
    {
        let (s, e) = tr[i];
        if crate::text::range_starts_with_str(&flat, s, e, "M-") && i + 1 < tr.len() {
            let (s2, e2) = tr[i + 1];
            match parse_uint_range(&flat, s2, e2, 4294967295) {
                Some(n) => {
                    let l2p = string_of_range(&flat, s, e);
                    let mut dup = false;
                    let mut q: usize = 0;
                    while q < entries.len()
                        invariant
                            q <= entries@.len(),
                            dup == has_l2p(entries_view(entries@.take(q as int)), l2p@),
                        decreases entries.len() - q,
                    {
                        let ghost pre = entries_view(entries@.take(q as int));
                        let ghost post = entries_view(entries@.take(q + 1));
                        assert(post =~= pre.push((entries@[q as int].l2p@, entries@[q as int].bound)));
                        let eq = str_eq(entries[q].l2p.as_str(), l2p.as_str());
                        if eq {
                            dup = true;
                        }
                        proof {
                            if has_l2p(pre, l2p@) {
                                let w = choose|w: int| 0 <= w < pre.len() && (#[trigger] pre[w]).0 == l2p@;
                                assert(post[w] == pre[w]);
                            }
                            if eq {
                                assert(post[q as int].0 == l2p@);
                            }
                            if has_l2p(post, l2p@) {
                                let w = choose|w: int| 0 <= w < post.len() && (#[trigger] post[w]).0 == l2p@;
                                if w < q {
                                    assert(pre[w] == post[w]);
                                }
                            }
                        }
                        q += 1;
                    }
                    assert(entries@.take(entries@.len() as int) == entries@);
                    if !dup {
                        let ghost ev = entries_view(entries@);
                        entries.push(BindEntry { l2p, bound: n != 0 });
                        assert(entries_view(entries@) =~= ev.push((toks[i as int], n != 0)));
                        assert forall|x: int, y: int|
                            0 <= x < y < entries_view(entries@).len() implies entries_view(
                            entries@,
                        )[x].0 != entries_view(entries@)[y].0 by {
                            if y == ev.len() {
                                assert(entries_view(entries@)[x] == ev[x]);
                                if ev[x].0 == toks[i as int] {
                                    assert(has_l2p(ev, toks[i as int]));
                                }
                            } else {
                                assert(entries_view(entries@)[x] == ev[x]);
                                assert(entries_view(entries@)[y] == ev[y]);
                            }
                        }
                    }
                    i += 2;
                    continue;
                },
                None => {},
            }
        }
        i += 1;
    }
    BindState { entries, raw }
}

} // verus!
