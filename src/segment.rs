//! Segment parameters: `;key=value` annotations carried by the last path
//! segment of a locator.
use vstd::prelude::*;
use crate::error::Error;
use crate::text::{chars_of, push_char, push_str, sub_string};

verus! {

/// A parameter as plain character sequences.
pub type ParamView = (Seq<char>, Seq<char>);

/// The position of the last `;` that lies after the last `/` of `s`, or -1.
pub open spec fn last_sep(s: Seq<char>) -> int
    decreases s.len(),
{
    if s.len() == 0 {
        -1
    } else if s.last() == '/' {
        -1
    } else if s.last() == ';' {
        s.len() - 1
    } else {
        last_sep(s.drop_last())
    }
}

/// The position of the first `c` in `t`, or -1.
pub open spec fn first_index(t: Seq<char>, c: char) -> int
    decreases t.len(),
{
    if t.len() == 0 {
        -1
    } else if t[0] == c {
        0
    } else {
        let r = first_index(t.drop_first(), c);
        if r < 0 {
            -1
        } else {
            r + 1
        }
    }
}

/// Splits a locator into the part before its segment parameters and the
/// parameters in the order written; `None` when a parameter has no `=`.
pub open spec fn parse_segment(s: Seq<char>) -> Option<(Seq<char>, Seq<ParamView>)>
    decreases s.len(),
{
    let l = last_sep(s);
    if 0 <= l < s.len() {
        let piece = s.subrange(l + 1, s.len() as int);
        let e = first_index(piece, '=');
        if e < 0 {
            None
        } else {
            match parse_segment(s.take(l)) {
                Some((raw, ps)) => Some((raw, ps.push((piece.take(e), piece.skip(e + 1))))),
                None => None,
            }
        }
    } else {
        Some((s, Seq::empty()))
    }
}

/// The text `;key=value`.
pub open spec fn param_text(p: ParamView) -> Seq<char> {
    seq![';'] + p.0 + seq!['='] + p.1
}

/// `raw` followed by each parameter in order.
pub open spec fn joined(raw: Seq<char>, ps: Seq<ParamView>) -> Seq<char>
    decreases ps.len(),
{
    if ps.len() == 0 {
        raw
    } else {
        joined(raw, ps.drop_last()) + param_text(ps.last())
    }
}

/// `t` holds no `c`.
pub open spec fn lacks(t: Seq<char>, c: char) -> bool {
    forall|i: int| 0 <= i < t.len() ==> t[i] != c
}

/// A key can be written into a segment: no `;`, `/` or `=`.
pub open spec fn key_ok(k: Seq<char>) -> bool {
    lacks(k, ';') && lacks(k, '/') && lacks(k, '=')
}

/// A value can be written into a segment: no `;` or `/`.
pub open spec fn value_ok(v: Seq<char>) -> bool {
    lacks(v, ';') && lacks(v, '/')
}

/// A parameter can be written into a segment.
pub open spec fn pair_ok(p: ParamView) -> bool {
    key_ok(p.0) && value_ok(p.1)
}

pub open spec fn pairs_ok(ps: Seq<ParamView>) -> bool {
    forall|i: int| 0 <= i < ps.len() ==> #[trigger] pair_ok(ps[i])
}

/// The mapping the parameters denote: a later key replaces an earlier one.
pub open spec fn params_map(ps: Seq<ParamView>) -> Map<Seq<char>, Seq<char>>
    decreases ps.len(),
{
    if ps.len() == 0 {
        Map::empty()
    } else {
        params_map(ps.drop_last()).insert(ps.last().0, ps.last().1)
    }
}

pub open spec fn pairs_view(ps: Seq<(String, String)>) -> Seq<ParamView> {
    ps.map_values(|p: (String, String)| (p.0@, p.1@))
}

pub proof fn lemma_last_sep_bounds(s: Seq<char>)
    ensures
        -1 <= last_sep(s) < s.len(),
        last_sep(s) >= 0 ==> s[last_sep(s)] == ';',
    decreases s.len(),
{
    if s.len() > 0 && s.last() != '/' && s.last() != ';' {
        lemma_last_sep_bounds(s.drop_last());
    }
}

/// Text free of `;` and `/` does not move the last separator.
pub proof fn lemma_last_sep_append(a: Seq<char>, b: Seq<char>)
    requires
        lacks(b, ';'),
        lacks(b, '/'),
    ensures
        last_sep(a + b) == last_sep(a),
    decreases b.len(),
{
    if b.len() == 0 {
        assert(a + b =~= a);
    } else {
        assert((a + b).drop_last() =~= a + b.drop_last());
        assert((a + b).last() == b.last());
        lemma_last_sep_append(a, b.drop_last());
    }
}

pub proof fn lemma_first_index(t: Seq<char>, c: char, m: int)
    requires
        0 <= m <= t.len(),
        forall|k: int| 0 <= k < m ==> t[k] != c,
        m < t.len() ==> t[m] == c,
    ensures
        first_index(t, c) == if m < t.len() { m } else { -1 },
    decreases m,
{
    if m > 0 {
        lemma_first_index(t.drop_first(), c, m - 1);
    }
}

pub proof fn lemma_last_sep_at_least(s: Seq<char>, j: int)
    requires
        0 <= j < s.len(),
        s[j] == ';',
        forall|k: int| j <= k < s.len() ==> s[k] != '/',
    ensures
        last_sep(s) >= j,
    decreases s.len(),
{
    if s.last() != ';' {
        lemma_last_sep_at_least(s.drop_last(), j);
    }
}

/// A parameter without `=` spoils every longer segment.
pub proof fn lemma_parse_none_grows(s: Seq<char>, j: int)
    requires
        0 <= j <= s.len(),
        parse_segment(s.take(j)) is None,
        j < s.len() ==> s[j] == ';',
        forall|k: int| j <= k < s.len() ==> s[k] != '/',
    ensures
        parse_segment(s) is None,
    decreases s.len(),
{
    if j == s.len() {
        assert(s.take(j) =~= s);
    } else {
        lemma_last_sep_at_least(s, j);
        lemma_last_sep_bounds(s);
        let l = last_sep(s);
        if l > j {
            assert(s.take(l).take(j) =~= s.take(j));
            lemma_parse_none_grows(s.take(l), j);
        }
    }
}

/// Reading back the parameters written after `raw` gives `raw` and the
/// same parameters, in the same order.
pub proof fn lemma_segment_round_trip(raw: Seq<char>, ps: Seq<ParamView>)
    requires
        last_sep(raw) < 0,
        pairs_ok(ps),
    ensures
        parse_segment(joined(raw, ps)) == Some((raw, ps)),
    decreases ps.len(),
{
    lemma_last_sep_bounds(raw);
    if ps.len() == 0 {
        assert(ps =~= Seq::<ParamView>::empty());
    } else {
        let j = joined(raw, ps.drop_last());
        let p = ps.last();
        assert(pairs_ok(ps.drop_last())) by {
            assert forall|i: int| 0 <= i < ps.drop_last().len() implies pair_ok(#[trigger] ps.drop_last()[i]) by {
                assert(ps.drop_last()[i] == ps[i]);
            }
        }
        lemma_segment_round_trip(raw, ps.drop_last());
        assert(pair_ok(ps[ps.len() - 1]));
        let b = p.0 + seq!['='] + p.1;
        let s = joined(raw, ps);
        assert(s =~= (j + seq![';']) + b);
        lemma_last_sep_append(j + seq![';'], b);
        assert((j + seq![';']).drop_last() =~= j);
        assert(last_sep(s) == j.len());
        let piece = s.subrange(j.len() as int + 1, s.len() as int);
        assert(piece =~= b);
        lemma_first_index(piece, '=', p.0.len() as int);
        assert(piece.take(p.0.len() as int) =~= p.0);
        assert(piece.skip(p.0.len() as int + 1) =~= p.1);
        assert(s.take(j.len() as int) =~= j);
        assert(ps.drop_last().push(p) =~= ps);
    }
}

/// The mapping after setting `key` to `value`, or removing it when absent.
pub open spec fn with_param(
    m: Map<Seq<char>, Seq<char>>,
    key: Seq<char>,
    value: Option<Seq<char>>,
) -> Map<Seq<char>, Seq<char>> {
    match value {
        Some(v) => m.insert(key, v),
        None => m.remove(key),
    }
}

/// Setting a parameter, writing the segment out and reading it back gives the
/// value just set; removing a parameter leaves it absent.
pub proof fn lemma_set_then_get(
    raw: Seq<char>,
    before: Seq<ParamView>,
    key: Seq<char>,
    value: Option<Seq<char>>,
)
    requires
        last_sep(raw) < 0,
        pairs_ok(set_pairs(before, key, value)),
    ensures
        parse_segment(joined(raw, set_pairs(before, key, value))) is Some,
        ({
            let got = parse_segment(joined(raw, set_pairs(before, key, value)))->0;
            let m = params_map(got.1);
            match value {
                Some(v) => m.contains_key(key) && m[key] == v,
                None => !m.contains_key(key),
            }
        }),
{
    lemma_segment_round_trip(raw, set_pairs(before, key, value));
    lemma_set_pairs(before, key, value);
}

/// The first position in `from..to` that holds `c`, or `to`.
pub(crate) fn find_in(cs: &Vec<char>, c: char, from: usize, to: usize) -> (r: usize)
    requires
        from <= to <= cs.len(),
    ensures
        from <= r <= to,
        forall|k: int| from <= k < r ==> cs@[k] != c,
        r < to ==> cs@[r as int] == c,
{
    let mut i: usize = from;
    while i < to && cs[i] != c
        invariant
            from <= i <= to <= cs.len(),
            forall|k: int| from <= k < i ==> cs@[k] != c,
        decreases to - i,
    {
        i = i + 1;
    }
    i
}

/// Whether `t` holds `c`.
fn contains_char(t: &str, c: char) -> (r: bool)
    ensures
        r == !lacks(t@, c),
{
    let cs = chars_of(t);
    let k = find_in(&cs, c, 0, cs.len());
    k < cs.len()
}

/// Splits `url` into the text before its segment parameters and the
/// parameters in the order written. Fails with `MalformedLocator` exactly
/// when a parameter has no `=`.
pub fn split_segment_parameters(url: &str) -> (r: Result<(String, Vec<(String, String)>), Error>)
    ensures
        match r {
            Ok((raw, ps)) => parse_segment(url@) == Some((raw@, pairs_view(ps@)))
                && last_sep(raw@) < 0 && pairs_ok(pairs_view(ps@)),
            Err(e) => parse_segment(url@) is None && e == Error::MalformedLocator,
        },
{
    let cs = chars_of(url);
    let ghost s = cs@;
    let n = cs.len();
    let mut seg: usize = n;
    while seg > 0 && cs[seg - 1] != '/'
        invariant
            seg <= n == s.len(),
            cs@ == s,
            forall|k: int| seg <= k < n ==> s[k] != '/',
        decreases seg,
    {
        seg = seg - 1;
    }
    let p = find_in(&cs, ';', seg, n);
    proof {
        let b = s.subrange(seg as int, p as int);
        assert(s.take(p as int) =~= s.take(seg as int) + b);
        lemma_last_sep_append(s.take(seg as int), b);
        if seg > 0 {
            assert(s.take(seg as int).last() == '/');
        }
        assert(last_sep(s.take(p as int)) == -1);
        lemma_last_sep_bounds(s.take(p as int));
        assert(pairs_view(Seq::empty()) =~= Seq::<ParamView>::empty());
    }
    let raw = sub_string(&cs, 0, p);
    assert(raw@ =~= s.take(p as int));
    let mut ps: Vec<(String, String)> = Vec::new();
    let mut i: usize = p;
    while i < n
        invariant
            seg <= p <= i <= n == s.len(),
            cs@ == s,
            url@ == s,
            i < n ==> s[i as int] == ';',
            forall|k: int| seg <= k < n ==> s[k] != '/',
            last_sep(raw@) < 0,
            pairs_ok(pairs_view(ps@)),
            parse_segment(s.take(i as int)) == Some((raw@, pairs_view(ps@))),
        decreases n - i,
    {
        let j = find_in(&cs, ';', i + 1, n);
        let e = find_in(&cs, '=', i + 1, j);
        let ghost sj = s.take(j as int);
        let ghost piece = s.subrange(i + 1, j as int);
        proof {
            assert(sj =~= s.take(i + 1) + piece);
            lemma_last_sep_append(s.take(i + 1), piece);
            assert(s.take(i + 1).last() == ';');
            assert(last_sep(sj) == i);
            assert(sj.subrange(i + 1, sj.len() as int) =~= piece);
            lemma_first_index(piece, '=', e - (i + 1));
            assert(sj.take(i as int) =~= s.take(i as int));
        }
        if e == j {
            proof {
                lemma_parse_none_grows(s, j as int);
            }
            return Err(Error::MalformedLocator);
        }
        let key = sub_string(&cs, i + 1, e);
        let value = sub_string(&cs, e + 1, j);
        proof {
            assert(key@ =~= piece.take(e - (i + 1)));
            assert(value@ =~= piece.skip(e - (i + 1) + 1));
            assert(key_ok(key@));
            assert(value_ok(value@));
        }
        let ghost old_ps = ps@;
        ps.push((key, value));
        proof {
            assert(pairs_view(ps@) =~= pairs_view(old_ps).push((key@, value@)));
            assert forall|q: int| 0 <= q < pairs_view(ps@).len() implies pair_ok(#[trigger] pairs_view(ps@)[q]) by {
                if q < old_ps.len() {
                    assert(pairs_view(ps@)[q] == pairs_view(old_ps)[q]);
                }
            }
        }
        i = j;
    }
    assert(s.take(n as int) =~= s);
    Ok((raw, ps))
}

/// Whether a `;` lies after the last `/` of `t`.
fn has_parameters(t: &str) -> (r: bool)
    ensures
        r == (last_sep(t@) >= 0),
{
    let cs = chars_of(t);
    let n = cs.len();
    let mut i: usize = n;
    while i > 0 && cs[i - 1] != '/' && cs[i - 1] != ';'
        invariant
            i <= n == cs.len(),
            forall|k: int| i <= k < n ==> cs@[k] != '/' && cs@[k] != ';',
        decreases i,
    {
        i = i - 1;
    }
    let ghost s = cs@;
    proof {
        assert(s =~= s.take(i as int) + s.subrange(i as int, n as int));
        lemma_last_sep_append(s.take(i as int), s.subrange(i as int, n as int));
        if i > 0 {
            assert(s.take(i as int).last() == s[i - 1]);
        }
    }
    i > 0 && cs[i - 1] == ';'
}

/// Writes `raw` followed by each parameter as `;key=value`. Fails with
/// `MalformedLocator` exactly when `raw` already carries parameters, a key
/// holds `;`, `/` or `=`, or a value holds `;` or `/`.
pub fn join_segment_parameters(raw: &str, ps: &[(String, String)]) -> (r: Result<String, Error>)
    ensures
        match r {
            Ok(s) => last_sep(raw@) < 0 && pairs_ok(pairs_view(ps@))
                && s@ == joined(raw@, pairs_view(ps@)),
            Err(e) => !(last_sep(raw@) < 0 && pairs_ok(pairs_view(ps@)))
                && e == Error::MalformedLocator,
        },
{
    if has_parameters(raw) {
        return Err(Error::MalformedLocator);
    }
    let ghost pv = pairs_view(ps@);
    let mut out = String::new();
    push_str(&mut out, raw);
    assert(out@ =~= raw@);
    let mut i: usize = 0;
    while i < ps.len()
        invariant
            i <= ps.len(),
            pv == pairs_view(ps@),
            pv.len() == ps@.len(),
            pairs_ok(pv.take(i as int)),
            out@ == joined(raw@, pv.take(i as int)),
        decreases ps.len() - i,
    {
        let key = ps[i].0.as_str();
        let value = ps[i].1.as_str();
        if contains_char(key, ';') || contains_char(key, '/') || contains_char(key, '=')
            || contains_char(value, ';') || contains_char(value, '/') {
            assert(!key_ok(pv[i as int].0) || !value_ok(pv[i as int].1));
            proof {
                assert(0 <= i < pv.len());
                if pairs_ok(pv) {
                    let q = i as int;
                    assert(pair_ok(pv[q]));
                }
            }
            return Err(Error::MalformedLocator);
        }
        push_char(&mut out, ';');
        push_str(&mut out, key);
        push_char(&mut out, '=');
        push_str(&mut out, value);
        proof {
            assert(pv.take(i + 1).drop_last() =~= pv.take(i as int));
            assert(out@ =~= joined(raw@, pv.take(i as int)) + param_text(pv[i as int]));
            assert forall|q: int| 0 <= q < i + 1 implies pair_ok(#[trigger] pv.take(i + 1)[q]) by {
                if q < i {
                    assert(pv.take(i + 1)[q] == pv.take(i as int)[q]);
                }
            }
        }
        i = i + 1;
    }
    assert(pv.take(ps.len() as int) =~= pv);
    Ok(out)
}

/// The parameters without those named `key`, the others in order.
pub open spec fn without_key(ps: Seq<ParamView>, key: Seq<char>) -> Seq<ParamView>
    decreases ps.len(),
{
    if ps.len() == 0 {
        ps
    } else {
        let r = without_key(ps.drop_last(), key);
        if ps.last().0 == key {
            r
        } else {
            r.push(ps.last())
        }
    }
}

/// The parameters after setting `key` to `value` (placed last), or after
/// removing `key` when `value` is absent.
pub open spec fn set_pairs(ps: Seq<ParamView>, key: Seq<char>, value: Option<Seq<char>>) -> Seq<
    ParamView,
> {
    match value {
        Some(v) => without_key(ps, key).push((key, v)),
        None => without_key(ps, key),
    }
}

pub open spec fn opt_view(v: Option<&str>) -> Option<Seq<char>> {
    match v {
        Some(t) => Some(t@),
        None => None,
    }
}

pub proof fn lemma_without_key(ps: Seq<ParamView>, key: Seq<char>)
    ensures
        params_map(without_key(ps, key)) == params_map(ps).remove(key),
        pairs_ok(ps) ==> pairs_ok(without_key(ps, key)),
    decreases ps.len(),
{
    if ps.len() == 0 {
        assert(params_map(ps).remove(key) =~= Map::<Seq<char>, Seq<char>>::empty());
    } else {
        let r = without_key(ps.drop_last(), key);
        let p = ps.last();
        lemma_without_key(ps.drop_last(), key);
        if pairs_ok(ps) {
            assert forall|i: int| 0 <= i < ps.drop_last().len() implies pair_ok(
                #[trigger] ps.drop_last()[i],
            ) by {
                assert(ps.drop_last()[i] == ps[i]);
            }
            assert(pair_ok(ps[ps.len() - 1]));
        }
        let m = params_map(ps.drop_last());
        if p.0 == key {
            assert(m.insert(p.0, p.1).remove(key) =~= m.remove(key));
        } else {
            assert(r.push(p).drop_last() =~= r);
            assert(m.remove(key).insert(p.0, p.1) =~= m.insert(p.0, p.1).remove(key));
            if pairs_ok(ps) {
                assert forall|i: int| 0 <= i < r.push(p).len() implies pair_ok(
                    #[trigger] r.push(p)[i],
                ) by {
                    if i < r.len() {
                        assert(r.push(p)[i] == r[i]);
                    }
                }
            }
        }
    }
}

/// What setting a parameter does to the mapping the parameters denote.
pub proof fn lemma_set_pairs(ps: Seq<ParamView>, key: Seq<char>, value: Option<Seq<char>>)
    ensures
        params_map(set_pairs(ps, key, value)) == with_param(params_map(ps), key, value),
        pairs_ok(ps) && key_ok(key) && (match value {
            Some(v) => value_ok(v),
            None => true,
        }) ==> pairs_ok(set_pairs(ps, key, value)),
{
    lemma_without_key(ps, key);
    let r = without_key(ps, key);
    if let Some(v) = value {
        assert(r.push((key, v)).drop_last() =~= r);
        assert(params_map(ps).remove(key).insert(key, v) =~= params_map(ps).insert(key, v));
        if pairs_ok(ps) && key_ok(key) && value_ok(v) {
            assert forall|i: int| 0 <= i < r.push((key, v)).len() implies pair_ok(
                #[trigger] r.push((key, v))[i],
            ) by {
                if i < r.len() {
                    assert(r.push((key, v))[i] == r[i]);
                }
            }
        }
    }
}

/// Sets `key` to `value` among the parameters (placed last), or removes it
/// when `value` is absent; the other parameters keep their order.
pub fn set_parameter(ps: &mut Vec<(String, String)>, key: &str, value: Option<&str>)
    ensures
        pairs_view(final(ps)@) == set_pairs(pairs_view(old(ps)@), key@, opt_view(value)),
        params_map(pairs_view(final(ps)@)) == with_param(
            params_map(pairs_view(old(ps)@)),
            key@,
            opt_view(value),
        ),
{
    let k = key.to_owned();
    let ghost pv = pairs_view(ps@);
    let mut out: Vec<(String, String)> = Vec::new();
    let mut i: usize = 0;
    assert(pairs_view(out@) =~= without_key(pv.take(0), key@));
    while i < ps.len()
        invariant
            i <= ps.len(),
            k@ == key@,
            pv == pairs_view(ps@),
            pv.len() == ps@.len(),
            pairs_view(out@) == without_key(pv.take(i as int), key@),
        decreases ps.len() - i,
    {
        let ghost before = pairs_view(out@);
        assert(pv.take(i + 1).drop_last() =~= pv.take(i as int));
        if ps[i].0 != k {
            let entry = (ps[i].0.clone(), ps[i].1.clone());
            out.push(entry);
            assert(pairs_view(out@) =~= before.push(pv[i as int]));
        }
        i = i + 1;
    }
    assert(pv.take(ps.len() as int) =~= pv);
    let ghost kept = pairs_view(out@);
    if let Some(v) = value {
        out.push((k, v.to_owned()));
        assert(pairs_view(out@) =~= kept.push((key@, v@)));
    }
    proof {
        lemma_set_pairs(pv, key@, opt_view(value));
    }
    *ps = out;
}

/// No key occurs twice.
pub open spec fn unique_keys(ps: Seq<ParamView>) -> bool {
    forall|i: int, j: int| 0 <= i < j < ps.len() ==> #[trigger] ps[i].0 != #[trigger] ps[j].0
}

/// The parameters with only the last value given for each key, each key at
/// the place of its last occurrence.
pub open spec fn last_per_key(ps: Seq<ParamView>) -> Seq<ParamView>
    decreases ps.len(),
{
    if ps.len() == 0 {
        ps
    } else {
        set_pairs(last_per_key(ps.drop_last()), ps.last().0, Some(ps.last().1))
    }
}

pub proof fn lemma_without_key_keys(ps: Seq<ParamView>, key: Seq<char>, x: Seq<char>)
    ensures
        forall|i: int| 0 <= i < without_key(ps, key).len() ==> #[trigger] without_key(ps, key)[i].0 != key,
        (forall|j: int| 0 <= j < ps.len() ==> #[trigger] ps[j].0 != x) ==> (forall|i: int|
            0 <= i < without_key(ps, key).len() ==> #[trigger] without_key(ps, key)[i].0 != x),
        unique_keys(ps) ==> unique_keys(without_key(ps, key)),
    decreases ps.len(),
{
    if ps.len() > 0 {
        let d = ps.drop_last();
        let p = ps.last();
        let r = without_key(d, key);
        lemma_without_key_keys(d, key, x);
        lemma_without_key_keys(d, key, p.0);
        if forall|j: int| 0 <= j < ps.len() ==> #[trigger] ps[j].0 != x {
            assert forall|j: int| 0 <= j < d.len() implies #[trigger] d[j].0 != x by {
                assert(d[j] == ps[j]);
            }
        }
        if unique_keys(ps) {
            assert forall|i: int, j: int| 0 <= i < j < d.len() implies #[trigger] d[i].0
                != #[trigger] d[j].0 by {
                assert(d[i] == ps[i] && d[j] == ps[j]);
            }
            assert forall|j: int| 0 <= j < d.len() implies #[trigger] d[j].0 != p.0 by {
                assert(d[j] == ps[j]);
                assert(ps[j].0 != ps[ps.len() - 1].0);
            }
        }
        if p.0 != key {
            assert forall|i: int| 0 <= i < r.push(p).len() implies #[trigger] r.push(p)[i].0
                != key by {
                if i < r.len() {
                    assert(r.push(p)[i] == r[i]);
                }
            }
            if forall|j: int| 0 <= j < ps.len() ==> #[trigger] ps[j].0 != x {
                assert(ps[ps.len() - 1].0 != x);
                assert forall|i: int| 0 <= i < r.push(p).len() implies #[trigger] r.push(p)[i].0
                    != x by {
                    if i < r.len() {
                        assert(r.push(p)[i] == r[i]);
                    }
                }
            }
            if unique_keys(ps) {
                assert forall|i: int, j: int| 0 <= i < j < r.push(p).len() implies #[trigger] r.push(
                    p,
                )[i].0 != #[trigger] r.push(p)[j].0 by {
                    assert(r.push(p)[i] == r[i]);
                    if j < r.len() {
                        assert(r.push(p)[j] == r[j]);
                    }
                }
            }
        }
    }
}

/// Keeping the last value per key leaves no key twice and denotes the same
/// mapping.
pub proof fn lemma_last_per_key(ps: Seq<ParamView>)
    ensures
        unique_keys(last_per_key(ps)),
        params_map(last_per_key(ps)) == params_map(ps),
    decreases ps.len(),
{
    if ps.len() > 0 {
        let d = last_per_key(ps.drop_last());
        let p = ps.last();
        lemma_last_per_key(ps.drop_last());
        lemma_set_pairs(d, p.0, Some(p.1));
        lemma_without_key_keys(d, p.0, p.0);
        let w = without_key(d, p.0);
        assert forall|i: int, j: int| 0 <= i < j < w.push(p).len() implies #[trigger] w.push(
            p,
        )[i].0 != #[trigger] w.push(p)[j].0 by {
            assert(w.push(p)[i] == w[i]);
            if j < w.len() {
                assert(w.push(p)[j] == w[j]);
            }
        }
        assert(w.push((p.0, p.1)) == w.push(p));
    }
}

/// The parameters with only the last value given for each key.
pub fn last_value_per_key(ps: &Vec<(String, String)>) -> (r: Vec<(String, String)>)
    ensures
        pairs_view(r@) == last_per_key(pairs_view(ps@)),
        unique_keys(pairs_view(r@)),
        params_map(pairs_view(r@)) == params_map(pairs_view(ps@)),
{
    let ghost pv = pairs_view(ps@);
    let mut out: Vec<(String, String)> = Vec::new();
    let mut i: usize = 0;
    assert(pairs_view(out@) =~= last_per_key(pv.take(0)));
    while i < ps.len()
        invariant
            i <= ps.len(),
            pv == pairs_view(ps@),
            pv.len() == ps@.len(),
            pairs_view(out@) == last_per_key(pv.take(i as int)),
        decreases ps.len() - i,
    {
        assert(pv.take(i + 1).drop_last() =~= pv.take(i as int));
        set_parameter(&mut out, ps[i].0.as_str(), Some(ps[i].1.as_str()));
        i = i + 1;
    }
    assert(pv.take(ps.len() as int) =~= pv);
    proof {
        lemma_last_per_key(pv);
    }
    out
}

} // verus!
