//! Decoding of the request line: the query string and percent-encoding.
//! Only flat `?a=b&c=d` strings are used, so no library is needed for them.
use crate::at::urc::{lossy, lossy_of};
use crate::text::{chars_of, find_char, push_char, split_char, split_range, str_eq, string_of_range, strs};
use vstd::prelude::*;
use vstd::utf8::encode_utf8;

verus! {

/// The value of a hex digit byte.
pub open spec fn spec_hexval(c: u8) -> Option<u8> {
    if 48 <= c <= 57 {
        Some((c - 48) as u8)
    } else if 97 <= c <= 102 {
        Some((c - 97 + 10) as u8)
    } else if 65 <= c <= 70 {
        Some((c - 65 + 10) as u8)
    } else {
        None
    }
}

/// The value of one hex digit byte.
pub fn hexval(c: u8) -> (r: Option<u8>)
    ensures
        r == spec_hexval(c),
{
    if 48 <= c && c <= 57 {
        Some(c - 48)
    } else if 97 <= c && c <= 102 {
        Some(c - 97 + 10)
    } else if 65 <= c && c <= 70 {
        Some(c - 65 + 10)
    } else {
        None
    }
}

/// Percent-decoding of bytes: `%XY` with two hex digits is the byte `XY`,
/// `+` is a space, anything else (an invalid escape too) stays.
pub open spec fn pct_bytes(b: Seq<u8>) -> Seq<u8>
    decreases b.len(),
{
    if b.len() == 0 {
        seq![]
    } else if b[0] == 37 && 2 < b.len() && spec_hexval(b[1]) is Some && spec_hexval(b[2]) is Some {
        seq![(spec_hexval(b[1])->0 * 16 + spec_hexval(b[2])->0) as u8] + pct_bytes(b.skip(3))
    } else {
        seq![if b[0] == 43 {
            32u8
        } else {
            b[0]
        }] + pct_bytes(b.skip(1))
    }
}

pub open spec fn spec_percent_decode(s: Seq<char>) -> Seq<char> {
    lossy_of(pct_bytes(encode_utf8(s)))
}

/// Percent-decodes a query value (`+` is a space; invalid escapes stay as
/// they are); the bytes are read back as UTF-8, invalid sequences replaced.
pub fn percent_decode(s: &str) -> (r: String)
    ensures
        r@ == spec_percent_decode(s@),
{
    let b = s.as_bytes();
    let ghost all = b@;
    let mut out: Vec<u8> = Vec::new();
    let mut i: usize = 0;
    assert(all.skip(0) == all);
    while i < b.len()
        invariant
            all == b@,
            i <= all.len(),
            out@ + pct_bytes(all.skip(i as int)) == pct_bytes(all),
        decreases b.len() - i,
    {
        let ghost rest = all.skip(i as int);
        if b[i] == 37 && b.len() - i > 2 {
            match (hexval(b[i + 1]), hexval(b[i + 2])) {
                (Some(h), Some(l)) => {
                    proof {
                        assert(rest[0] == b[i as int] && rest[1] == b[i + 1] && rest[2] == b[i + 2]);
                        assert(rest.skip(3) =~= all.skip(i + 3));
                    }
                    let ghost before = out@;
                    out.push(h * 16 + l);
                    assert(out@ + pct_bytes(all.skip(i + 3)) =~= before + pct_bytes(rest));
                    i += 3;
                    continue;
                },
                _ => {},
            }
        }
        let c = b[i];
        proof {
            assert(rest[0] == c);
            assert(rest.skip(1) =~= all.skip(i + 1));
        }
        let ghost before = out@;
        out.push(if c == 43 {
            32
        } else {
            c
        });
        assert(out@ + pct_bytes(all.skip(i + 1)) =~= before + pct_bytes(rest));
        i += 1;
    }
    assert(all.skip(i as int) =~= Seq::<u8>::empty());
    assert(out@ =~= pct_bytes(all));
    lossy(out.as_slice())
}

/// Decoded query parameters, keys in order of first appearance; a repeated
/// key keeps the last value.
#[derive(Debug, Clone)]
pub struct Query {
    pub entries: Vec<(String, String)>,
}

pub open spec fn entries_view(es: Seq<(String, String)>) -> Seq<(Seq<char>, Seq<char>)> {
    es.map_values(|e: (String, String)| (e.0@, e.1@))
}

/// Index of the key among the entries, or `-1`.
pub open spec fn key_index(es: Seq<(Seq<char>, Seq<char>)>, k: Seq<char>) -> int
    decreases es.len(),
{
    if es.len() == 0 {
        -1
    } else if es[0].0 == k {
        0
    } else {
        let r = key_index(es.drop_first(), k);
        if r < 0 {
            -1
        } else {
            r + 1
        }
    }
}

/// Inserting a pair: a known key gets the new value in place.
pub open spec fn upsert(es: Seq<(Seq<char>, Seq<char>)>, k: Seq<char>, v: Seq<char>) -> Seq<(Seq<char>, Seq<char>)> {
    let i = key_index(es, k);
    if i >= 0 {
        es.update(i, (k, v))
    } else {
        es.push((k, v))
    }
}

/// One `key=value` piece: the key up to the first `=`, the value after it
/// (empty without `=`).
pub open spec fn pair_key(p: Seq<char>) -> Seq<char> {
    split_char(p, '=')[0]
}

pub open spec fn pair_value(p: Seq<char>) -> Seq<char> {
    let i = find_char(p, '=');
    if i >= 0 {
        p.skip(i + 1)
    } else {
        seq![]
    }
}

pub open spec fn query_fold(ps: Seq<Seq<char>>) -> Seq<(Seq<char>, Seq<char>)>
    decreases ps.len(),
{
    if ps.len() == 0 {
        seq![]
    } else {
        let es = query_fold(ps.drop_last());
        let p = ps.last();
        if pair_key(p).len() > 0 {
            upsert(es, pair_key(p), spec_percent_decode(pair_value(p)))
        } else {
            es
        }
    }
}

pub open spec fn spec_query(url: Seq<char>) -> Seq<(Seq<char>, Seq<char>)> {
    let q = find_char(url, '?');
    if q < 0 {
        seq![]
    } else {
        query_fold(split_char(url.skip(q + 1), '&'))
    }
}

proof fn lemma_key_index(es: Seq<(Seq<char>, Seq<char>)>, k: Seq<char>)
    ensures
        -1 <= key_index(es, k) < es.len(),
        key_index(es, k) >= 0 ==> es[key_index(es, k)].0 == k,
        key_index(es, k) < 0 ==> forall|j: int| 0 <= j < es.len() ==> es[j].0 != k,
        forall|j: int| 0 <= j < key_index(es, k) ==> es[j].0 != k,
    decreases es.len(),
{
    if es.len() > 0 && es[0].0 != k {
        let t = es.drop_first();
        lemma_key_index(t, k);
        let r = key_index(t, k);
        if r >= 0 {
            assert(es[r + 1] == t[r]);
            assert forall|j: int| 0 <= j < r + 1 implies es[j].0 != k by {
                if j > 0 {
                    assert(es[j] == t[j - 1]);
                }
            }
        } else {
            assert forall|j: int| 0 <= j < es.len() implies es[j].0 != k by {
                if j > 0 {
                    assert(es[j] == t[j - 1]);
                }
            }
        }
    }
}

impl Query {
    /// The value of a key.
    pub fn get(&self, k: &str) -> (r: Option<&String>)
        ensures
            match r {
                Some(v) => key_index(entries_view(self.entries@), k@) >= 0 && v@ == entries_view(
                    self.entries@,
                )[key_index(entries_view(self.entries@), k@)].1,
                None => key_index(entries_view(self.entries@), k@) < 0,
            },
    {
        let ghost es = entries_view(self.entries@);
        proof {
            lemma_key_index(es, k@);
        }
        let mut i: usize = 0;
        while i < self.entries.len()
            invariant
                es == entries_view(self.entries@),
                i <= self.entries@.len(),
                forall|j: int| 0 <= j < i ==> es[j].0 != k@,
                -1 <= key_index(es, k@) < es.len(),
                key_index(es, k@) >= 0 ==> es[key_index(es, k@)].0 == k@,
                key_index(es, k@) < 0 ==> forall|j: int| 0 <= j < es.len() ==> es[j].0 != k@,
                forall|j: int| 0 <= j < key_index(es, k@) ==> es[j].0 != k@,
            decreases self.entries.len() - i,
        {
            if str_eq(self.entries[i].0.as_str(), k) {
                assert(es[i as int].0 == k@);
                return Some(&self.entries[i].1);
            }
            i += 1;
        }
        None
    }

    /// Whether the key is present.
    pub fn contains_key(&self, k: &str) -> (b: bool)
        ensures
            b == (key_index(entries_view(self.entries@), k@) >= 0),
    {
        self.get(k).is_some()
    }

    /// Whether there is no parameter.
    pub fn is_empty(&self) -> (b: bool)
        ensures
            b == (self.entries@.len() == 0),
    {
        self.entries.len() == 0
    }

    /// Inserts a pair; a known key gets the new value in place.
    pub fn insert(&mut self, k: String, v: String)
        ensures
            entries_view(final(self).entries@) == upsert(entries_view(old(self).entries@), k@, v@),
    {
        let ghost es = entries_view(self.entries@);
        proof {
            lemma_key_index(es, k@);
        }
        let mut i: usize = 0;
        while i < self.entries.len()
            invariant
                es == entries_view(self.entries@),
                es == entries_view(old(self).entries@),
                i <= self.entries@.len(),
                forall|j: int| 0 <= j < i ==> es[j].0 != k@,
                -1 <= key_index(es, k@) < es.len(),
                key_index(es, k@) >= 0 ==> es[key_index(es, k@)].0 == k@,
                key_index(es, k@) < 0 ==> forall|j: int| 0 <= j < es.len() ==> es[j].0 != k@,
                forall|j: int| 0 <= j < key_index(es, k@) ==> es[j].0 != k@,
            decreases self.entries.len() - i,
        {
            if str_eq(self.entries[i].0.as_str(), k.as_str()) {
                assert(es[i as int].0 == k@);
                assert(key_index(es, k@) == i);
                let ghost before = self.entries@;
                self.entries.set(i, (k, v));
                assert(entries_view(self.entries@) =~= es.update(i as int, (k@, v@)));
                assert(upsert(es, k@, v@) == es.update(i as int, (k@, v@)));
                return;
            }
            i += 1;
        }
        let ghost before = self.entries@;
        self.entries.push((k, v));
        assert(entries_view(self.entries@) =~= es.push((k@, v@)));
    }
}

/// Splits one `key=value` piece of `v[a..b]`.
fn split_pair(v: &Vec<char>, a: usize, b: usize) -> (r: (String, String))
    requires
        a <= b <= v@.len(),
    ensures
        r.0@ == pair_key(v@.subrange(a as int, b as int)),
        r.1@ == pair_value(v@.subrange(a as int, b as int)),
{
    let ghost p = v@.subrange(a as int, b as int);
    let mut i = a;
    while i < b && v[i] != '='
        invariant
            a <= i <= b <= v@.len(),
            forall|j: int| a <= j < i ==> v@[j] != '=',
        decreases b - i,
    {
        i += 1;
    }
    proof {
        let k = i - a;
        assert forall|j: int| 0 <= j < k implies p[j] != '=' by {
            assert(p[j] == v@[a + j]);
        }
        if i < b {
            assert(p[k] == '=');
            crate::text::lemma_find_char_at(p, '=', k);
            assert(p.take(k) =~= v@.subrange(a as int, i as int));
            assert(p.skip(k + 1) =~= v@.subrange(i + 1, b as int));
            assert(split_char(p, '=') == seq![p.take(k)] + split_char(p.skip(k + 1), '='));
        } else {
            assert(forall|j: int| 0 <= j < p.len() ==> p[j] != '=');
            crate::text::lemma_find_char_none(p, '=');
            assert(split_char(p, '=') == seq![p]);
            assert(p.take(k) =~= p);
        }
    }
    let key = string_of_range(v, a, i);
    let val = if i < b {
        string_of_range(v, i + 1, b)
    } else {
        String::new()
    };
    (key, val)
}

/// The query string of a request URL, decoded. Pieces with an empty key
/// are dropped; values are percent-decoded.
pub fn query(url: &str) -> (q: Query)
    ensures
        entries_view(q.entries@) == spec_query(url@),
{
    let v = chars_of(url);
    let mut q = Query { entries: Vec::new() };
    assert(entries_view(q.entries@) =~= Seq::<(Seq<char>, Seq<char>)>::empty());
    let mut p: usize = 0;
    while p < v.len() && v[p] != '?'
        invariant
            p <= v@.len(),
            v@ == url@,
            forall|j: int| 0 <= j < p ==> v@[j] != '?',
        decreases v.len() - p,
    {
        p += 1;
    }
    if p == v.len() {
        proof {
            crate::text::lemma_find_char_none(v@, '?');
        }
        return q;
    }
    proof {
        crate::text::lemma_find_char_at(v@, '?', p as int);
        assert(url@.skip(p + 1) =~= v@.subrange(p + 1, v@.len() as int));
    }
    let pieces = split_range(&v, p + 1, v.len(), '&');
    let ghost ps = split_char(v@.subrange(p + 1, v@.len() as int), '&');
    let mut k: usize = 0;
    while k < pieces.len()
        invariant
            pieces@.len() == ps.len(),
            forall|j: int|
                0 <= j < pieces@.len() ==> p + 1 <= (#[trigger] pieces@[j]).0 <= pieces@[j].1 <= v@.len()
                    && v@.subrange(pieces@[j].0 as int, pieces@[j].1 as int) == ps[j],
            k <= pieces@.len(),
            entries_view(q.entries@) == query_fold(ps.take(k as int)),
        decreases pieces.len() - k,
    {
        let (a, b) = pieces[k];
        proof {
            assert(ps.take(k + 1).drop_last() == ps.take(k as int));
            assert(ps.take(k + 1).last() == ps[k as int]);
        }
        let (key, val) = split_pair(&v, a, b);
        if !key.as_str().is_empty() {
            let dec = percent_decode(val.as_str());
            q.insert(key, dec);
        }
        k += 1;
    }
    assert(ps.take(ps.len() as int) == ps);
    q
}

} // verus!
