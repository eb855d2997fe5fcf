//! The two representations of a snapshot: a structured document (a JSON
//! array of `{"country": ..., "count": ...}` objects) and a human-readable
//! line form, one `country: count` line per entry. The structured form has
//! a verified parser, and parsing is proved to invert rendering.

use vstd::prelude::*;
use crate::numeral::dec_digits;
use crate::numeral::spec_parse_count;
use crate::numeral::lemma_parse_count_inverts;
use crate::numeral::render_count;
use crate::numeral::parse_count_at;
use crate::snapshot::AnalyticsEntry;
use crate::snapshot::AnalyticsSnapshot;
use crate::snapshot::country_wf;
use crate::snapshot::models_of;

verus! {

pub open spec fn lit_entry_head() -> Seq<char> {
    "{\"country\":\""@
}

pub open spec fn lit_entry_mid() -> Seq<char> {
    "\",\"count\":"@
}

/// The structured rendering of one entry.
pub open spec fn spec_entry_json(country: Seq<char>, count: u64) -> Seq<char> {
    lit_entry_head() + country + lit_entry_mid() + dec_digits(count as nat) + seq!['}']
}

/// The structured rendering of the entries from index `i` on, joined with
/// commas.
pub open spec fn spec_entries_json_from(m: Seq<(Seq<char>, u64)>, i: int) -> Seq<char>
    decreases m.len() - i,
{
    if i < 0 || i >= m.len() {
        Seq::empty()
    } else if i == m.len() - 1 {
        spec_entry_json(m[i].0, m[i].1)
    } else {
        spec_entry_json(m[i].0, m[i].1) + seq![','] + spec_entries_json_from(m, i + 1)
    }
}

/// The structured rendering of a whole snapshot: a JSON array.
pub open spec fn spec_snapshot_json(m: Seq<(Seq<char>, u64)>) -> Seq<char> {
    seq!['['] + spec_entries_json_from(m, 0) + seq![']']
}

/// The line rendering of one entry.
pub open spec fn spec_entry_line(country: Seq<char>, count: u64) -> Seq<char> {
    country + seq![':', ' '] + dec_digits(count as nat)
}

/// The line rendering of the entries from index `i` on, joined with
/// newlines.
pub open spec fn spec_plain_from(m: Seq<(Seq<char>, u64)>, i: int) -> Seq<char>
    decreases m.len() - i,
{
    if i < 0 || i >= m.len() {
        Seq::empty()
    } else if i == m.len() - 1 {
        spec_entry_line(m[i].0, m[i].1)
    } else {
        spec_entry_line(m[i].0, m[i].1) + seq!['\n'] + spec_plain_from(m, i + 1)
    }
}

pub open spec fn spec_snapshot_plain(m: Seq<(Seq<char>, u64)>) -> Seq<char> {
    spec_plain_from(m, 0)
}

fn render_entry_json_into(out: &mut String, e: &AnalyticsEntry)
    ensures
        final(out)@ == old(out)@ + spec_entry_json(e.country@, e.count),
{
    out.append("{\"country\":\"");
    out.append(e.country.as_str());
    out.append("\",\"count\":");
    let d = render_count(e.count);
    out.append(d.as_str());
    out.append("}");
    proof {
        reveal_strlit("}");
        assert("}"@ =~= seq!['}']);
        assert(out@ =~= old(out)@ + spec_entry_json(e.country@, e.count));
    }
}

fn render_entries_json_from(v: &Vec<AnalyticsEntry>, i: usize, out: &mut String)
    requires
        i <= v@.len(),
    ensures
        final(out)@ == old(out)@ + spec_entries_json_from(models_of(v@), i as int),
    decreases v@.len() - i,
{
    if i < v.len() {
        render_entry_json_into(out, &v[i]);
        if i + 1 < v.len() {
            out.append(",");
            proof {
                reveal_strlit(",");
                assert(","@ =~= seq![',']);
            }
            let ghost before = out@;
            render_entries_json_from(v, i + 1, out);
            proof {
                assert(out@ =~= old(out)@ + spec_entries_json_from(models_of(v@), i as int));
            }
        } else {
            proof {
                assert(out@ =~= old(out)@ + spec_entries_json_from(models_of(v@), i as int));
            }
        }
    } else {
        proof {
            assert(out@ =~= old(out)@ + spec_entries_json_from(models_of(v@), i as int));
        }
    }
}

/// Renders the snapshot as its structured document.
pub fn render_structured(s: &AnalyticsSnapshot) -> (r: String)
    ensures
        r@ == spec_snapshot_json(s.models()),
{
    let mut out = String::from_str("[");
    proof {
        reveal_strlit("[");
        assert("["@ =~= seq!['[']);
    }
    render_entries_json_from(&s.entries, 0, &mut out);
    out.append("]");
    proof {
        reveal_strlit("]");
        assert("]"@ =~= seq![']']);
        assert(out@ =~= spec_snapshot_json(s.models()));
    }
    out
}

fn render_entries_plain_from(v: &Vec<AnalyticsEntry>, i: usize, out: &mut String)
    requires
        i <= v@.len(),
    ensures
        final(out)@ == old(out)@ + spec_plain_from(models_of(v@), i as int),
    decreases v@.len() - i,
{
    if i < v.len() {
        out.append(v[i].country.as_str());
        out.append(": ");
        let d = render_count(v[i].count);
        out.append(d.as_str());
        proof {
            reveal_strlit(": ");
            assert(": "@ =~= seq![':', ' ']);
        }
        if i + 1 < v.len() {
            out.append("\n");
            proof {
                reveal_strlit("\n");
                assert("\n"@ =~= seq!['\n']);
            }
            render_entries_plain_from(v, i + 1, out);
            proof {
                assert(out@ =~= old(out)@ + spec_plain_from(models_of(v@), i as int));
            }
        } else {
            proof {
                assert(out@ =~= old(out)@ + spec_plain_from(models_of(v@), i as int));
            }
        }
    } else {
        proof {
            assert(out@ =~= old(out)@ + spec_plain_from(models_of(v@), i as int));
        }
    }
}

/// Renders the snapshot as newline-joined human-readable lines, one per
/// entry.
pub fn render_plain(s: &AnalyticsSnapshot) -> (r: String)
    ensures
        r@ == spec_snapshot_plain(s.models()),
{
    let mut out = String::new();
    render_entries_plain_from(&s.entries, 0, &mut out);
    proof {
        assert(out@ =~= spec_snapshot_plain(s.models()));
    }
    out
}

/// `s` with the prefix `p` removed, or `None` when `p` is not a prefix.
pub open spec fn strip_prefix(s: Seq<char>, p: Seq<char>) -> Option<Seq<char>> {
    if p.len() <= s.len() && s.take(p.len() as int) == p {
        Some(s.skip(p.len() as int))
    } else {
        None
    }
}

/// Index of the first `"` in `s`, or -1 when there is none.
pub open spec fn quote_pos(s: Seq<char>) -> int
    decreases s.len(),
{
    if s.len() == 0 {
        -1
    } else if s[0] == '"' {
        0
    } else if quote_pos(s.skip(1)) < 0 {
        -1
    } else {
        1 + quote_pos(s.skip(1))
    }
}

/// Strict parse of one rendered entry at the head of `s`: the entry's
/// model and the unread remainder, or `None` when `s` does not begin with
/// an entry in rendered form.
pub open spec fn spec_parse_entry(s: Seq<char>) -> Option<((Seq<char>, u64), Seq<char>)> {
    match strip_prefix(s, lit_entry_head()) {
        Option::None => None,
        Option::Some(r1) => {
            let q = quote_pos(r1);
            if q < 0 {
                None
            } else {
                let country = r1.take(q);
                match strip_prefix(r1.skip(q), lit_entry_mid()) {
                    Option::None => None,
                    Option::Some(r2) => match spec_parse_count(r2) {
                        Option::None => None,
                        Option::Some(p) => if p.1.len() > 0 && p.1[0] == '}' {
                            Some(((country, p.0), p.1.skip(1)))
                        } else {
                            None
                        },
                    },
                }
            }
        },
    }
}

/// Strict parse of a non-empty comma-separated entry list closed by `]`.
pub open spec fn spec_parse_entries(s: Seq<char>) -> Option<(Seq<(Seq<char>, u64)>, Seq<char>)>
    decreases s.len(),
{
    match spec_parse_entry(s) {
        Option::None => None,
        Option::Some(pe) => {
            let rest = pe.1;
            if rest.len() > 0 && rest[0] == ',' {
                if rest.len() <= s.len() {
                    match spec_parse_entries(rest.skip(1)) {
                        Option::None => None,
                        Option::Some(pm) => Some((seq![pe.0] + pm.0, pm.1)),
                    }
                } else {
                    None
                }
            } else if rest.len() > 0 && rest[0] == ']' {
                Some((seq![pe.0], rest.skip(1)))
            } else {
                None
            }
        },
    }
}

/// Strict parse of a whole structured document: the entry models, in
/// order, or `None` when `s` is not exactly a rendered snapshot.
pub open spec fn spec_parse_snapshot(s: Seq<char>) -> Option<Seq<(Seq<char>, u64)>> {
    if s.len() >= 2 && s[0] == '[' {
        if s[1] == ']' {
            if s.len() == 2 {
                Some(Seq::empty())
            } else {
                None
            }
        } else {
            match spec_parse_entries(s.skip(1)) {
                Option::None => None,
                Option::Some(pm) => if pm.1.len() == 0 {
                    Some(pm.0)
                } else {
                    None
                },
            }
        }
    } else {
        None
    }
}

proof fn lemma_strip_prefix_concat(p: Seq<char>, rest: Seq<char>)
    ensures
        strip_prefix(p + rest, p) == Some(rest),
{
    assert((p + rest).take(p.len() as int) =~= p);
    assert((p + rest).skip(p.len() as int) =~= rest);
}

proof fn lemma_quote_pos_concat(c: Seq<char>, rest: Seq<char>)
    requires
        forall|i: int| 0 <= i < c.len() ==> c[i] != '"',
        rest.len() > 0,
        rest[0] == '"',
    ensures
        quote_pos(c + rest) == c.len(),
    decreases c.len(),
{
    if c.len() == 0 {
        assert(c + rest =~= rest);
    } else {
        assert((c + rest)[0] == c[0]);
        assert((c + rest).skip(1) =~= c.skip(1) + rest);
        lemma_quote_pos_concat(c.skip(1), rest);
    }
}

/// Parsing inverts rendering for one entry, whatever follows it.
pub proof fn lemma_parse_entry_inverts(country: Seq<char>, count: u64, rest: Seq<char>)
    requires
        country_wf(country),
    ensures
        spec_parse_entry(spec_entry_json(country, count) + rest) == Some(
            ((country, count), rest),
        ),
{
    let dec = dec_digits(count as nat);
    let tail3 = dec + (seq!['}'] + rest);
    let tail2 = lit_entry_mid() + tail3;
    let tail1 = country + tail2;
    let s = spec_entry_json(country, count) + rest;
    assert(s =~= lit_entry_head() + tail1);
    lemma_strip_prefix_concat(lit_entry_head(), tail1);
    reveal_strlit("\",\"count\":");
    assert(lit_entry_mid()[0] == '"');
    assert(tail2[0] == '"');
    assert(forall|i: int| 0 <= i < country.len() ==> country[i] != '"');
    lemma_quote_pos_concat(country, tail2);
    assert(quote_pos(tail1) == country.len());
    assert(tail1.take(country.len() as int) =~= country);
    assert(tail1.skip(country.len() as int) =~= tail2);
    lemma_strip_prefix_concat(lit_entry_mid(), tail3);
    lemma_parse_count_inverts(count, seq!['}'] + rest);
    assert((seq!['}'] + rest)[0] == '}');
    assert((seq!['}'] + rest).skip(1) =~= rest);
}

/// Parsing inverts rendering for the rendered entries from `i` on,
/// followed by the closing bracket and anything after it.
pub proof fn lemma_parse_entries_inverts(m: Seq<(Seq<char>, u64)>, i: int, rest: Seq<char>)
    requires
        0 <= i < m.len(),
        forall|k: int| 0 <= k < m.len() ==> country_wf(m[k].0),
    ensures
        spec_parse_entries(spec_entries_json_from(m, i) + seq![']'] + rest) == Some(
            (m.skip(i), rest),
        ),
    decreases m.len() - i,
{
    let s = spec_entries_json_from(m, i) + seq![']'] + rest;
    if i == m.len() - 1 {
        let r0 = seq![']'] + rest;
        assert(s =~= spec_entry_json(m[i].0, m[i].1) + r0);
        lemma_parse_entry_inverts(m[i].0, m[i].1, r0);
        assert(r0[0] == ']');
        assert(r0.skip(1) =~= rest);
        assert(m.skip(i) =~= seq![m[i]]);
    } else {
        let t = spec_entries_json_from(m, i + 1) + seq![']'] + rest;
        let r0 = seq![','] + t;
        assert(s =~= spec_entry_json(m[i].0, m[i].1) + r0);
        lemma_parse_entry_inverts(m[i].0, m[i].1, r0);
        assert(r0[0] == ',');
        assert(r0.skip(1) =~= t);
        lemma_parse_entries_inverts(m, i + 1, rest);
        assert(seq![m[i]] + m.skip(i + 1) =~= m.skip(i));
    }
}

/// Parsing inverts rendering for whole snapshots, at the level of entry
/// models.
pub proof fn lemma_round_trip_models(m: Seq<(Seq<char>, u64)>)
    requires
        forall|k: int| 0 <= k < m.len() ==> country_wf(m[k].0),
    ensures
        spec_parse_snapshot(spec_snapshot_json(m)) == Some(m),
{
    let s = spec_snapshot_json(m);
    if m.len() == 0 {
        assert(s =~= seq!['[', ']']);
        assert(m =~= Seq::<(Seq<char>, u64)>::empty());
    } else {
        assert(s[0] == '[');
        reveal_strlit("{\"country\":\"");
        assert(lit_entry_head().len() == 12);
        assert(lit_entry_head()[0] == '{');
        assert(spec_entries_json_from(m, 0)[0] == '{');
        assert(s[1] == '{');
        assert(s.skip(1) =~= spec_entries_json_from(m, 0) + seq![']'] + Seq::<char>::empty());
        lemma_parse_entries_inverts(m, 0, Seq::<char>::empty());
        assert(m.skip(0) =~= m);
    }
}

/// Round trip: the structured document of a well-formed snapshot, parsed
/// back, yields exactly the snapshot's entry models — the same sequence,
/// entry for entry, that the line rendering walks.
pub proof fn lemma_structured_round_trip(s: AnalyticsSnapshot)
    requires
        s.wf(),
    ensures
        spec_parse_snapshot(spec_snapshot_json(s.models())) == Some(s.models()),
{
    assert forall|k: int| 0 <= k < s.models().len() implies country_wf(s.models()[k].0) by {
        assert(s.entries@[k].wf());
    }
    lemma_round_trip_models(s.models());
}

fn lit_head_str() -> (r: &'static str)
    ensures
        r@ == lit_entry_head(),
{
    "{\"country\":\""
}

fn lit_mid_str() -> (r: &'static str)
    ensures
        r@ == lit_entry_mid(),
{
    "\",\"count\":"
}

fn expect_lit(s: &str, i: usize, lit: &str) -> (r: Option<usize>)
    requires
        i <= s@.len(),
    ensures
        match r {
            Some(j) => i <= j <= s@.len() && j - i == lit@.len() && strip_prefix(
                s@.skip(i as int),
                lit@,
            ) == Some(s@.skip(j as int)),
            None => strip_prefix(s@.skip(i as int), lit@) is None,
        },
{
    let m = lit.unicode_len();
    let n = s.unicode_len();
    if n - i < m {
        return None;
    }
    let mut k: usize = 0;
    while k < m
        invariant
            k <= m,
            i <= n,
            m == lit@.len(),
            n == s@.len(),
            n - i >= m,
            forall|t: int| 0 <= t < k ==> s@[i + t] == lit@[t],
        decreases m - k,
    {
        if s.get_char(i + k) != lit.get_char(k) {
            proof {
                assert(s@.skip(i as int).take(m as int)[k as int] == s@[i + k]);
            }
            return None;
        }
        k += 1;
    }
    proof {
        assert(s@.skip(i as int).take(m as int) =~= lit@);
        assert(s@.skip(i as int).skip(m as int) =~= s@.skip(i + m));
    }
    Some(i + m)
}

fn scan_quote(s: &str, i: usize) -> (r: Option<usize>)
    requires
        i <= s@.len(),
    ensures
        match r {
            Some(q) => i <= q < s@.len() && quote_pos(s@.skip(i as int)) == q - i,
            None => quote_pos(s@.skip(i as int)) < 0,
        },
{
    let n = s.unicode_len();
    let mut j: usize = i;
    while j < n
        invariant
            i <= j <= n,
            n == s@.len(),
            quote_pos(s@.skip(i as int)) == (if quote_pos(s@.skip(j as int)) < 0 {
                -1
            } else {
                (j - i) + quote_pos(s@.skip(j as int))
            }),
        decreases n - j,
    {
        let c = s.get_char(j);
        proof {
            assert(s@.skip(j as int)[0] == s@[j as int]);
            assert(s@.skip(j as int).skip(1) =~= s@.skip(j as int + 1));
        }
        if c == '"' {
            return Some(j);
        }
        j += 1;
    }
    proof {
        assert(s@.skip(j as int).len() == 0);
    }
    None
}

/// Parses one rendered entry at position `i`, returning the entry and the
/// position just past it.
pub fn parse_entry_at(s: &str, i: usize) -> (r: Option<(AnalyticsEntry, usize)>)
    requires
        i <= s@.len(),
    ensures
        match r {
            Some(p) => i < p.1 <= s@.len() && spec_parse_entry(s@.skip(i as int)) == Some(
                ((p.0.country@, p.0.count), s@.skip(p.1 as int)),
            ),
            None => spec_parse_entry(s@.skip(i as int)) is None,
        },
{
    let n = s.unicode_len();
    let j1 = match expect_lit(s, i, lit_head_str()) {
        None => {
            return None;
        },
        Some(j1) => j1,
    };
    let q = match scan_quote(s, j1) {
        None => {
            return None;
        },
        Some(q) => q,
    };
    proof {
        assert(s@.skip(j1 as int).take((q - j1) as int) =~= s@.subrange(j1 as int, q as int));
        assert(s@.skip(j1 as int).skip((q - j1) as int) =~= s@.skip(q as int));
    }
    let country = String::from_str(s.substring_char(j1, q));
    let j2 = match expect_lit(s, q, lit_mid_str()) {
        None => {
            return None;
        },
        Some(j2) => j2,
    };
    let (v, j3) = match parse_count_at(s, j2) {
        None => {
            return None;
        },
        Some(p) => p,
    };
    proof {
        assert(s@.skip(j3 as int).len() == s@.len() - j3);
        if j3 < s@.len() {
            assert(s@.skip(j3 as int)[0] == s@[j3 as int]);
            assert(s@.skip(j3 as int).skip(1) =~= s@.skip(j3 as int + 1));
        }
    }
    if j3 < n {
        let c = s.get_char(j3);
        if c == '}' {
            proof {
                assert(country@ =~= s@.skip(j1 as int).take((q - j1) as int));
            }
            return Some((AnalyticsEntry { country, count: v }, j3 + 1));
        }
    }
    None
}

/// Parses a rendered entry list at position `i` up to and including its
/// closing `]`.
pub fn parse_entries_at(s: &str, i: usize) -> (r: Option<(Vec<AnalyticsEntry>, usize)>)
    requires
        i <= s@.len(),
    ensures
        match r {
            Some(p) => i < p.1 <= s@.len() && spec_parse_entries(s@.skip(i as int)) == Some(
                (models_of(p.0@), s@.skip(p.1 as int)),
            ),
            None => spec_parse_entries(s@.skip(i as int)) is None,
        },
    decreases s@.len() - i,
{
    let n = s.unicode_len();
    let (e, j) = match parse_entry_at(s, i) {
        None => {
            return None;
        },
        Some(p) => p,
    };
    proof {
        if j < s@.len() {
            assert(s@.skip(j as int)[0] == s@[j as int]);
            assert(s@.skip(j as int).skip(1) =~= s@.skip(j as int + 1));
        }
    }
    if j < n {
        let c = s.get_char(j);
        if c == ',' {
            match parse_entries_at(s, j + 1) {
                None => {
                    return None;
                },
                Some((mut v, j2)) => {
                    let ghost tail = v@;
                    let ghost em = (e.country@, e.count);
                    v.insert(0, e);
                    proof {
                        assert(models_of(v@) =~= seq![em] + models_of(tail));
                    }
                    return Some((v, j2));
                },
            }
        } else if c == ']' {
            let ghost em = (e.country@, e.count);
            let mut v: Vec<AnalyticsEntry> = Vec::new();
            v.push(e);
            proof {
                assert(models_of(v@) =~= seq![em]);
            }
            return Some((v, j + 1));
        } else {
            return None;
        }
    }
    None
}

/// Parses a structured document back into a snapshot; `None` exactly when
/// the input is not a rendered snapshot.
pub fn parse_structured(s: &str) -> (r: Option<AnalyticsSnapshot>)
    ensures
        match r {
            Some(snap) => spec_parse_snapshot(s@) == Some(snap.models()),
            None => spec_parse_snapshot(s@) is None,
        },
{
    let n = s.unicode_len();
    if n < 2 {
        return None;
    }
    if s.get_char(0) != '[' {
        return None;
    }
    if s.get_char(1) == ']' {
        if n == 2 {
            let snap = AnalyticsSnapshot { entries: Vec::new() };
            proof {
                assert(snap.models() =~= Seq::<(Seq<char>, u64)>::empty());
            }
            return Some(snap);
        }
        return None;
    }
    proof {
        assert(s@.skip(1)[0] == s@[1]);
    }
    match parse_entries_at(s, 1) {
        None => None,
        Some((v, j)) => {
            if j == n {
                proof {
                    assert(s@.skip(j as int).len() == 0);
                }
                Some(AnalyticsSnapshot { entries: v })
            } else {
                None
            }
        },
    }
}

} // verus!
