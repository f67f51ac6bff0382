//! Finding the AT port among the ttys the modem exports.
//!
//! The FM350 exports several Fibocom interfaces (DIAG, GNSS, AT, MODEM);
//! only the one answering `AT` is the AT port. The order of judgement:
//! the name (`ttyUSB*` / `ttyACM*`), then the USB descriptors (vendor id
//! `2cb7`, or "Fibocom" / "FM350" in the strings), then, only when the
//! configured port has vanished, an `AT` probe.
use crate::at::session::{lower_of, to_lower};
use crate::config::Config;
use crate::text::{chars_of, contains_str, is_digit, starts_with, trim, trim_range, string_of_range, range_contains_str, range_eq_str};
use vstd::prelude::*;

verus! {

/// Fibocom's USB vendor id.
pub const FIBOCOM_VID: &'static str = "2cb7";

/// What follows a candidate prefix: not empty, digits, `.` and `-` only.
pub open spec fn tty_suffix_ok(rest: Seq<char>) -> bool {
    rest.len() > 0 && forall|i: int|
        0 <= i < rest.len() ==> is_digit(#[trigger] rest[i]) || rest[i] == '.' || rest[i] == '-'
}

/// A candidate AT port name: `ttyUSB` or `ttyACM` followed by a suffix of
/// digits, dots and dashes (`ttyUSB0`, `ttyACM1`, `ttyUSB1.2`).
pub open spec fn spec_is_candidate_tty(name: Seq<char>) -> bool {
    ||| starts_with(name, "ttyUSB"@) && tty_suffix_ok(name.skip(6))
    ||| starts_with(name, "ttyACM"@) && tty_suffix_ok(name.skip(6))
}

fn suffix_ok(v: &Vec<char>, a: usize) -> (r: bool)
    requires
        a <= v@.len(),
    ensures
        r == tty_suffix_ok(v@.skip(a as int)),
{
    if a == v.len() {
        return false;
    }
    let mut i = a;
    while i < v.len()
        invariant
            a <= i <= v@.len(),
            forall|j: int| a <= j < i ==> is_digit(#[trigger] v@[j]) || v@[j] == '.' || v@[j] == '-',
        decreases v.len() - i,
    {
        let c = v[i];
        if !(('0' <= c && c <= '9') || c == '.' || c == '-') {
            assert(v@.skip(a as int)[i - a] == c);
            return false;
        }
        i += 1;
    }
    assert forall|j: int| 0 <= j < v@.skip(a as int).len() implies is_digit(#[trigger] v@.skip(a as int)[j])
        || v@.skip(a as int)[j] == '.' || v@.skip(a as int)[j] == '-' by {
        assert(v@.skip(a as int)[j] == v@[a + j]);
    }
    true
}

/// Whether a device name is a candidate AT port.
pub fn is_candidate_tty(name: &str) -> (b: bool)
    ensures
        b == spec_is_candidate_tty(name@),
{
    let v = chars_of(name);
    assert(v@.subrange(0, v@.len() as int) == v@);
    proof {
        reveal_strlit("ttyUSB");
        reveal_strlit("ttyACM");
    }
    (crate::text::range_starts_with_str(&v, 0, v.len(), "ttyUSB") && suffix_ok(&v, 6)) || (
    crate::text::range_starts_with_str(&v, 0, v.len(), "ttyACM") && suffix_ok(&v, 6))
}

/// Judgement on the lowercase, trimmed descriptors: vendor id `2cb7`, or
/// "fibocom" in the vendor or product string, or "fm350" in the product.
pub open spec fn fm350_descriptors(v: Seq<char>, vend: Seq<char>, prod: Seq<char>) -> bool {
    v == "2cb7"@ || contains_str(vend, "fibocom"@) || contains_str(prod, "fibocom"@) || contains_str(
        prod,
        "fm350"@,
    )
}

/// Whether the USB descriptors are those of a Fibocom FM350.
pub fn looks_like_fm350(vid: &str, vendor: &str, product: &str) -> (b: bool)
    ensures
        b == fm350_descriptors(lower_of(trim(vid@)), lower_of(trim(vendor@)), lower_of(trim(product@))),
{
    let a = to_lower(trimmed(vid).as_str());
    let b = to_lower(trimmed(vendor).as_str());
    let c = to_lower(trimmed(product).as_str());
    looks_like_fm350_lower(a.as_str(), b.as_str(), c.as_str())
}

/// [`looks_like_fm350`] on descriptors already trimmed and lowercased.
pub fn looks_like_fm350_lower(v: &str, vend: &str, prod: &str) -> (b: bool)
    ensures
        b == fm350_descriptors(v@, vend@, prod@),
{
    let vv = chars_of(v);
    let ve = chars_of(vend);
    let pr = chars_of(prod);
    assert(vv@.subrange(0, vv@.len() as int) == vv@);
    assert(ve@.subrange(0, ve@.len() as int) == ve@);
    assert(pr@.subrange(0, pr@.len() as int) == pr@);
    range_eq_str(&vv, 0, vv.len(), FIBOCOM_VID) || range_contains_str(&ve, 0, ve.len(), "fibocom")
        || range_contains_str(&pr, 0, pr.len(), "fibocom") || range_contains_str(
        &pr,
        0,
        pr.len(),
        "fm350",
    )
}

/// `s.trim()` as a new string.
pub fn trimmed(s: &str) -> (r: String)
    ensures
        r@ == trim(s@),
{
    let v = chars_of(s);
    assert(v@.subrange(0, v@.len() as int) == v@);
    let (a, b) = trim_range(&v, 0, v.len());
    string_of_range(&v, a, b)
}

/// One candidate port, as `/api/ports` and the `ports` command show it.
#[derive(Debug, Clone)]
pub struct PortCandidate {
    /// Device node, such as `/dev/ttyUSB1`.
    pub path: String,
    /// Device name, such as `ttyUSB1`.
    pub name: String,
    /// Kernel driver (option, usbserial, cdc_acm, ...).
    pub driver: String,
    pub vid: String,
    pub pid: String,
    pub vendor: String,
    pub product: String,
    /// Whether the descriptors are those of a Fibocom device.
    pub likely_fm350: bool,
    /// Whether this is the configured `at_port`.
    pub current: bool,
    /// Probe result: `Some(true)` could not be opened, `Some(false)` free.
    pub busy: Option<bool>,
    /// Probe failure or status note.
    pub note: String,
}

/// The port to switch to when the configured one has vanished: the first
/// candidate (in order) that looks like an FM350, is not the configured
/// path, and answered `AT` (`answered[i]` for `ports[i]`; a port that was
/// not probed counts as not answering).
///
/// The caller probes the ports [`worth_probing`] in order and stops at the
/// first that answers.
pub open spec fn spec_identify(cfg_port: Seq<char>, ports: Seq<PortCandidate>, answered: Seq<bool>) -> Option<
    int,
>
    decreases ports.len(),
{
    if ports.len() == 0 {
        None
    } else {
        let p = ports[0];
        if p.likely_fm350 && p.path@ != cfg_port && answered[0] {
            Some(0)
        } else {
            match spec_identify(cfg_port, ports.drop_first(), answered.drop_first()) {
                Some(i) => Some(i + 1),
                None => None,
            }
        }
    }
}

/// Whether `ports[i]` is to be probed (it looks like an FM350 and is not
/// the configured path). The caller probes those in order and stops at the
/// first that answers.
pub fn worth_probing(cfg: &Config, p: &PortCandidate) -> (b: bool)
    ensures
        b == (p.likely_fm350 && p.path@ != cfg.at_port@),
{
    p.likely_fm350 && !crate::text::str_eq(p.path.as_str(), cfg.at_port.as_str())
}

/// The replacement AT port (see [`spec_identify`]).
pub fn identify_at_port(cfg: &Config, ports: &Vec<PortCandidate>, answered: &Vec<bool>) -> (r: Option<String>)
    requires
        answered@.len() == ports@.len(),
    ensures
        match spec_identify(cfg.at_port@, ports@, answered@) {
            Some(i) => 0 <= i < ports@.len() && (r matches Some(s) && s@ == ports@[i].path@),
            None => r is None,
        },
{
    let mut k: usize = 0;
    assert(ports@.skip(0) == ports@ && answered@.skip(0) == answered@);
    while k < ports.len()
        invariant
            k <= ports@.len(),
            answered@.len() == ports@.len(),
            match spec_identify(cfg.at_port@, ports@, answered@) {
                Some(i) => match spec_identify(
                    cfg.at_port@,
                    ports@.skip(k as int),
                    answered@.skip(k as int),
                ) {
                    Some(j) => i == j + k,
                    None => false,
                },
                None => spec_identify(cfg.at_port@, ports@.skip(k as int), answered@.skip(k as int))
                    is None,
            },
        decreases ports.len() - k,
    {
        let ghost ps = ports@.skip(k as int);
        let ghost an = answered@.skip(k as int);
        assert(ps[0] == ports@[k as int]);
        assert(ps.drop_first() == ports@.skip(k + 1));
        assert(an[0] == answered@[k as int]);
        assert(an.drop_first() == answered@.skip(k + 1));
        if worth_probing(cfg, &ports[k]) && answered[k] {
            return Some(ports[k].path.clone());
        }
        k += 1;
    }
    None
}

} // verus!

verus! {

/// Whether `a` is `b` or comes before it in the order of `str`: code point
/// by code point, a prefix before any longer text.
pub open spec fn name_le(a: Seq<char>, b: Seq<char>) -> bool
    decreases a.len(),
{
    if a.len() == 0 {
        true
    } else if b.len() == 0 {
        false
    } else if a[0] != b[0] {
        (a[0] as int) < (b[0] as int)
    } else {
        name_le(a.drop_first(), b.drop_first())
    }
}

/// Whether `a` may stand before `b` in the list of ports: the configured
/// port first, then those that look like an FM350, then by name.
pub open spec fn port_before(a: PortCandidate, b: PortCandidate) -> bool {
    if a.current != b.current {
        a.current
    } else if a.likely_fm350 != b.likely_fm350 {
        a.likely_fm350
    } else {
        name_le(a.name@, b.name@)
    }
}

/// Every port may stand before every later one.
pub open spec fn ports_sorted(s: Seq<PortCandidate>) -> bool {
    forall|i: int, j: int| 0 <= i < j < s.len() ==> port_before(#[trigger] s[i], #[trigger] s[j])
}

/// Of two names one is not after the other.
pub proof fn lemma_name_le_total(a: Seq<char>, b: Seq<char>)
    ensures
        name_le(a, b) || name_le(b, a),
    decreases a.len(),
{
    if a.len() > 0 && b.len() > 0 && a[0] == b[0] {
        lemma_name_le_total(a.drop_first(), b.drop_first());
    }
}

/// The order of names is transitive.
pub proof fn lemma_name_le_trans(a: Seq<char>, b: Seq<char>, c: Seq<char>)
    requires
        name_le(a, b),
        name_le(b, c),
    ensures
        name_le(a, c),
    decreases a.len(),
{
    if a.len() > 0 && b.len() > 0 && c.len() > 0 && a[0] == b[0] && b[0] == c[0] {
        lemma_name_le_trans(a.drop_first(), b.drop_first(), c.drop_first());
    }
}

/// Two names each not after the other are the same name.
pub proof fn lemma_name_le_antisym(a: Seq<char>, b: Seq<char>)
    requires
        name_le(a, b),
        name_le(b, a),
    ensures
        a == b,
    decreases a.len(),
{
    if a.len() > 0 && b.len() > 0 {
        lemma_name_le_antisym(a.drop_first(), b.drop_first());
        assert(a == seq![a[0]] + a.drop_first());
        assert(b == seq![b[0]] + b.drop_first());
    }
}

/// The sort key of a port.
pub open spec fn port_key(p: PortCandidate) -> (bool, bool, Seq<char>) {
    (p.current, p.likely_fm350, p.name@)
}

/// The ports of `s` whose sort key is `k`, in their order in `s`.
pub open spec fn ports_with_key(s: Seq<PortCandidate>, k: (bool, bool, Seq<char>)) -> Seq<PortCandidate> {
    s.filter(|q: PortCandidate| port_key(q) == k)
}

proof fn lemma_name_le_refl(a: Seq<char>)
    ensures
        name_le(a, a),
    decreases a.len(),
{
    if a.len() > 0 {
        lemma_name_le_refl(a.drop_first());
    }
}

/// Inserting `x` where no later port shares its key appends `x` to its key
/// class and leaves the other classes as they were.
proof fn lemma_insert_keeps_classes(prev: Seq<PortCandidate>, p: int, x: PortCandidate, k: (bool, bool, Seq<char>))
    requires
        0 <= p <= prev.len(),
        forall|j: int| p <= j < prev.len() ==> port_key(#[trigger] prev[j]) != port_key(x),
    ensures
        ports_with_key(prev.insert(p, x), k) == ports_with_key(prev, k) + ports_with_key(seq![x], k),
{
    let pred = |q: PortCandidate| port_key(q) == k;
    let a = prev.take(p);
    let b = prev.skip(p);
    assert(prev.insert(p, x) =~= a + (seq![x] + b));
    assert(prev =~= a + b);
    Seq::filter_distributes_over_add(a, seq![x] + b, pred);
    Seq::filter_distributes_over_add(seq![x], b, pred);
    Seq::filter_distributes_over_add(a, b, pred);
    if port_key(x) == k {
        assert(b.all(|q: PortCandidate| !pred(q))) by {
            assert forall|j: int| 0 <= j < b.len() implies !pred(#[trigger] b[j]) by {
                assert(b[j] == prev[p + j]);
            }
        }
        b.lemma_all_neg_filter_empty(pred);
        assert(b.filter(pred) =~= Seq::<PortCandidate>::empty());
        assert(seq![x].filter(pred) + b.filter(pred) =~= seq![x].filter(pred));
    } else {
        assert(seq![x].all(|q: PortCandidate| !pred(q))) by {
            assert forall|j: int| 0 <= j < seq![x].len() implies !pred(#[trigger] seq![x][j]) by {
                assert(seq![x][j] == x);
            }
        }
        seq![x].lemma_all_neg_filter_empty(pred);
        assert(seq![x].filter(pred) =~= Seq::<PortCandidate>::empty());
        assert(prev.insert(p, x).filter(pred) =~= a.filter(pred) + b.filter(pred));
    }
}

proof fn lemma_port_before_total(a: PortCandidate, b: PortCandidate)
    ensures
        port_before(a, b) || port_before(b, a),
{
    lemma_name_le_total(a.name@, b.name@);
}

proof fn lemma_port_before_trans(a: PortCandidate, b: PortCandidate, c: PortCandidate)
    requires
        port_before(a, b),
        port_before(b, c),
    ensures
        port_before(a, c),
{
    if a.current == b.current && b.current == c.current && a.likely_fm350 == b.likely_fm350
        && b.likely_fm350 == c.likely_fm350 {
        lemma_name_le_trans(a.name@, b.name@, c.name@);
    }
}

/// Whether `a` is `b` or comes before it, as `str` orders them.
pub fn name_le_exec(a: &str, b: &str) -> (r: bool)
    ensures
        r == name_le(a@, b@),
{
    let x = chars_of(a);
    let y = chars_of(b);
    let mut i: usize = 0;
    assert(x@.skip(0) == x@ && y@.skip(0) == y@);
    while i < x.len() && i < y.len() && x[i] == y[i]
        invariant
            i <= x.len(),
            i <= y.len(),
            x@ == a@,
            y@ == b@,
            name_le(a@, b@) == name_le(x@.skip(i as int), y@.skip(i as int)),
        decreases x.len() - i,
    {
        proof {
            assert(x@.skip(i as int).drop_first() == x@.skip(i + 1));
            assert(y@.skip(i as int).drop_first() == y@.skip(i + 1));
        }
        i = i + 1;
    }
    if i == x.len() {
        true
    } else if i == y.len() {
        false
    } else {
        assert(x@.skip(i as int)[0] == x[i as int]);
        assert(y@.skip(i as int)[0] == y[i as int]);
        x[i] < y[i]
    }
}

fn port_before_exec(a: &PortCandidate, b: &PortCandidate) -> (r: bool)
    ensures
        r == port_before(*a, *b),
{
    if a.current != b.current {
        a.current
    } else if a.likely_fm350 != b.likely_fm350 {
        a.likely_fm350
    } else {
        name_le_exec(a.name.as_str(), b.name.as_str())
    }
}

/// Orders the ports for display: the configured one first, then those that
/// look like an FM350, then by name; ports with the same key keep their
/// order.
pub fn sort_ports(v: &mut Vec<PortCandidate>)
    ensures
        final(v)@.to_multiset() == old(v)@.to_multiset(),
        ports_sorted(final(v)@),
        forall|k: (bool, bool, Seq<char>)| #[trigger] ports_with_key(final(v)@, k) == ports_with_key(old(v)@, k),
{
    broadcast use vstd::seq_lib::group_to_multiset_ensures;

    let mut out: Vec<PortCandidate> = Vec::new();
    let ghost orig = v@;
    while v.len() > 0
        invariant
            ports_sorted(out@),
            out@.to_multiset().add(v@.to_multiset()) == orig.to_multiset(),
            forall|k: (bool, bool, Seq<char>)|
                ports_with_key(out@, k) + ports_with_key(v@, k) == #[trigger] ports_with_key(orig, k),
        decreases v.len(),
    {
        let ghost before = v@;
        let x = v.remove(0);
        proof {
            vstd::seq_lib::to_multiset_remove(before, 0);
            assert(before[0] == x);
            assert(before.contains(x));
            vstd::seq_lib::to_multiset_contains(before, x);
            assert(before.to_multiset().count(x) > 0);
        }
        let mut p: usize = 0;
        while p < out.len() && port_before_exec(&out[p], &x)
            invariant
                p <= out.len(),
                forall|k: int| 0 <= k < p ==> port_before(#[trigger] out@[k], x),
            decreases out.len() - p,
        {
            p = p + 1;
        }
        proof {
            assert forall|j: int| p <= j < out@.len() implies port_key(#[trigger] out@[j]) != port_key(x) by {
                if port_key(out@[j]) == port_key(x) {
                    lemma_name_le_refl(x.name@);
                    assert(port_before(out@[j], x));
                    if j > p {
                        lemma_port_before_trans(out@[p as int], out@[j], x);
                    }
                }
            }
            if p < out.len() {
                lemma_port_before_total(out@[p as int], x);
                assert forall|k: int| p <= k < out.len() implies port_before(x, #[trigger] out@[k]) by {
                    if k > p {
                        lemma_port_before_trans(x, out@[p as int], out@[k]);
                    }
                }
            }
        }
        let ghost prev = out@;
        out.insert(p, x);
        proof {
            vstd::seq_lib::to_multiset_insert(prev, p as int, x);
            assert forall|i: int, j: int| 0 <= i < j < out@.len() implies port_before(
                #[trigger] out@[i],
                #[trigger] out@[j],
            ) by {
                if j < p {
                    assert(out@[i] == prev[i] && out@[j] == prev[j]);
                } else if j == p {
                    assert(out@[i] == prev[i]);
                } else if i == p {
                    assert(out@[j] == prev[j - 1]);
                } else if i < p {
                    assert(out@[i] == prev[i] && out@[j] == prev[j - 1]);
                } else {
                    assert(out@[i] == prev[i - 1] && out@[j] == prev[j - 1]);
                }
            }
            broadcast use vstd::multiset::group_multiset_axioms;
            assert(out@.to_multiset() == prev.to_multiset().insert(x));
            assert(v@.to_multiset() == before.to_multiset().remove(x));
            assert(out@.to_multiset().add(v@.to_multiset()) =~= prev.to_multiset().add(before.to_multiset()));
            assert forall|k: (bool, bool, Seq<char>)|
                ports_with_key(out@, k) + ports_with_key(v@, k) == #[trigger] ports_with_key(orig, k) by {
                lemma_insert_keeps_classes(prev, p as int, x, k);
                assert(out@ == prev.insert(p as int, x));
                assert(before =~= seq![x] + v@);
                Seq::filter_distributes_over_add(seq![x], v@, |q: PortCandidate| port_key(q) == k);
                assert(ports_with_key(prev, k) + ports_with_key(before, k) == ports_with_key(orig, k));
                assert(ports_with_key(out@, k) + ports_with_key(v@, k) =~= ports_with_key(prev, k) + ports_with_key(before, k));
            }
        }
    }
    proof {
        assert(v@.to_multiset() =~= vstd::multiset::Multiset::empty());
        assert(out@.to_multiset() =~= orig.to_multiset());
        assert forall|k: (bool, bool, Seq<char>)| #[trigger] ports_with_key(out@, k) == ports_with_key(orig, k) by {
            assert(ports_with_key(v@, k) =~= Seq::<PortCandidate>::empty()) by {
                reveal(Seq::filter);
            }
            assert(ports_with_key(out@, k) + ports_with_key(v@, k) == ports_with_key(orig, k));
            assert(ports_with_key(out@, k) + ports_with_key(v@, k) =~= ports_with_key(out@, k));
        }
    }
    *v = out;
}

/// The probe state and note shown for a port: after a probe, free
/// (`Some(false)`) or not openable (`Some(true)`, with the reason), the
/// configured port marked; without a probe, only the mark.
pub open spec fn spec_port_probe(current: bool, probe: Option<Result<(), String>>) -> (Option<bool>, Seq<char>) {
    match probe {
        Some(Ok(())) => (Some(false), "空闲，可独占打开"@ + if current { "（当前配置端口）"@ } else { seq![] }),
        Some(Err(e)) => (Some(true), "无法打开："@ + e@ + if current { "（当前配置端口）"@ } else { seq![] }),
        None => (None, if current { "当前配置端口"@ } else { seq![] }),
    }
}

/// One port as listed: `/dev/<name>`, the configured one marked `current`,
/// `likely_fm350` from its descriptors, and the probe outcome (`None`
/// when not probed; else whether opening it exclusively failed).
pub fn port_candidate(
    cfg: &Config,
    name: &str,
    driver: &str,
    vid: &str,
    pid: &str,
    vendor: &str,
    product: &str,
    probe: Option<Result<(), String>>,
) -> (p: PortCandidate)
    ensures
        p.path@ == "/dev/"@ + name@,
        p.name@ == name@,
        p.driver@ == driver@,
        p.vid@ == vid@,
        p.pid@ == pid@,
        p.vendor@ == vendor@,
        p.product@ == product@,
        p.current == (p.path@ == cfg.at_port@),
        p.likely_fm350 == fm350_descriptors(lower_of(trim(vid@)), lower_of(trim(vendor@)), lower_of(trim(product@))),
        (p.busy, p.note@) == spec_port_probe(p.current, probe),
{
    let mut path = String::new();
    crate::text::push_str(&mut path, "/dev/");
    crate::text::push_str(&mut path, name);
    proof {
        assert(Seq::<char>::empty() + "/dev/"@ == "/dev/"@);
    }
    let current = crate::text::str_eq(path.as_str(), cfg.at_port.as_str());
    let mut note = String::new();
    let busy = match &probe {
        Some(Ok(())) => {
            crate::text::push_str(&mut note, "空闲，可独占打开");
            Some(false)
        },
        Some(Err(e)) => {
            crate::text::push_str(&mut note, "无法打开：");
            crate::text::push_str(&mut note, e.as_str());
            Some(true)
        },
        None => None,
    };
    if current {
        if probe.is_some() {
            crate::text::push_str(&mut note, "（当前配置端口）");
        } else {
            crate::text::push_str(&mut note, "当前配置端口");
        }
    }
    proof {
        assert(Seq::<char>::empty() + "空闲，可独占打开"@ == "空闲，可独占打开"@);
        assert(Seq::<char>::empty() + "无法打开："@ == "无法打开："@);
        assert(Seq::<char>::empty() + "当前配置端口"@ == "当前配置端口"@);
        assert("空闲，可独占打开"@ + Seq::<char>::empty() == "空闲，可独占打开"@);
        match probe {
            Some(Err(e)) => {
                assert("无法打开："@ + e@ + Seq::<char>::empty() == "无法打开："@ + e@);
            },
            _ => {},
        }
    }
    PortCandidate {
        path,
        name: String::from_str(name),
        driver: String::from_str(driver),
        vid: String::from_str(vid),
        pid: String::from_str(pid),
        vendor: String::from_str(vendor),
        product: String::from_str(product),
        likely_fm350: looks_like_fm350(vid, vendor, product),
        current,
        busy,
        note,
    }
}

/// Whether what a port answered to `AT` shows an AT port: `OK`, `ERROR`,
/// `+CME` or `+CMS` (a port in a bad state is still the AT port).
pub fn answered_at(buf: &str) -> (b: bool)
    ensures
        b == (contains_str(buf@, "OK"@) || contains_str(buf@, "ERROR"@) || contains_str(buf@, "+CME"@)
            || contains_str(buf@, "+CMS"@)),
{
    let v = chars_of(buf);
    assert(v@.subrange(0, v@.len() as int) == v@);
    crate::text::range_contains_str(&v, 0, v.len(), "OK") || crate::text::range_contains_str(&v, 0, v.len(), "ERROR")
        || crate::text::range_contains_str(&v, 0, v.len(), "+CME") || crate::text::range_contains_str(
        &v,
        0,
        v.len(),
        "+CMS",
    )
}

} // verus!
