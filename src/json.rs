//! Reading a price out of a JSON document: the body is parsed by
//! `serde_json` and turned into a `JsonValue`; a path such as
//! `data[0].price` is walked through it; the leaf, a number or a numeric
//! string, becomes a fixed-point price through a 12-digit decimal scale.
use crate::fixed::{fixed_from_rational, fixed_from_rational_spec};
use crate::query::{str_chars, PriceSourceError};
use vstd::prelude::*;

verus! {

/// `serde_json`'s parsed value, carried through unopened.
#[verifier::external_type_specification]
#[verifier::external_body]
pub struct ExJsonValue(serde_json::Value);

/// A JSON value, with numbers kept in their printed form.
pub enum JsonValue {
    Null,
    Bool(bool),
    Number(String),
    Text(String),
    Array(Vec<JsonValue>),
    Object(Vec<JsonEntry>),
}

/// One member of a JSON object.
pub struct JsonEntry {
    pub key: String,
    pub value: JsonValue,
}

pub uninterp spec fn json_parses(s: Seq<char>) -> bool;

pub uninterp spec fn json_of(s: Seq<char>) -> JsonValue;

/// Relies on the variants of `serde_json::Value` and on `Number`'s
/// `Display`: the same value, member for member and element for element,
/// with each number in its printed form. Nesting is bounded by the depth
/// that `serde_json::from_str` accepts.
#[verifier::external_body]
fn json_from_serde(v: serde_json::Value) -> JsonValue {
    match v {
        serde_json::Value::Null => JsonValue::Null,
        serde_json::Value::Bool(b) => JsonValue::Bool(b),
        serde_json::Value::Number(n) => JsonValue::Number(n.to_string()),
        serde_json::Value::String(s) => JsonValue::Text(s),
        serde_json::Value::Array(a) => JsonValue::Array(a.into_iter().map(json_from_serde).collect()),
        serde_json::Value::Object(m) => JsonValue::Object(
            m.into_iter().map(|(key, value)| JsonEntry { key, value: json_from_serde(value) }).collect(),
        ),
    }
}

/// Relies on `serde_json::from_str::<Value>`: it succeeds exactly when the
/// text is one JSON value, and the value (converted member for member by
/// `json_from_serde`) depends on the text alone.
#[verifier::external_body]
fn parse_json(body: &str) -> (r: Option<JsonValue>)
    ensures
        r is Some == json_parses(body@),
        r matches Some(v) ==> v == json_of(body@),
{
    serde_json::from_str::<serde_json::Value>(body).ok().map(json_from_serde)
}

// ---------------------------------------------------------------------
// Paths
// ---------------------------------------------------------------------

/// One step of a path: an object member or an array element.
pub enum PathStep {
    Key(Seq<char>),
    Index(nat),
}

pub open spec fn is_digit_char(c: char) -> bool {
    '0' <= c <= '9'
}

pub open spec fn digit_of(c: char) -> nat {
    (c as nat - '0' as nat) as nat
}

/// The number that the decimal digits `s` spell.
pub open spec fn digits_value(s: Seq<char>) -> nat
    decreases s.len(),
{
    if s.len() == 0 {
        0
    } else {
        digits_value(s.drop_last()) * 10 + digit_of(s.last())
    }
}

pub open spec fn all_digits(s: Seq<char>) -> bool {
    forall|i: int| 0 <= i < s.len() ==> is_digit_char(#[trigger] s[i])
}

pub open spec fn cap(x: nat, limit: nat) -> nat {
    if x <= limit {
        x
    } else {
        limit
    }
}

/// `s` cut at every `sep`, as `str::split` does.
pub open spec fn split_on(s: Seq<char>, sep: char) -> Seq<Seq<char>>
    decreases s.len(),
{
    if s.len() == 0 {
        seq![Seq::<char>::empty()]
    } else {
        let rest = split_on(s.drop_last(), sep);
        if s.last() == sep {
            rest.push(Seq::<char>::empty())
        } else {
            rest.update(rest.len() - 1, rest.last().push(s.last()))
        }
    }
}

/// The first position at or after `p` that does not hold a digit.
pub open spec fn digit_run_end(s: Seq<char>, p: int) -> int
    decreases s.len() - p,
{
    if 0 <= p < s.len() && is_digit_char(s[p]) {
        digit_run_end(s, p + 1)
    } else {
        p
    }
}

/// Where a `[digits]` group starting at `p` ends (just past `]`), if one
/// starts there.
pub open spec fn bracket_end(s: Seq<char>, p: int) -> Option<int> {
    if 0 <= p < s.len() && s[p] == '[' {
        let e = digit_run_end(s, p + 1);
        if e > p + 1 && e < s.len() && s[e] == ']' {
            Some(e + 1)
        } else {
            None
        }
    } else {
        None
    }
}

/// The `[digits]` groups of `s` from position `p` on, leftmost first and
/// without overlap.
pub open spec fn spans_from(s: Seq<char>, p: int) -> Seq<(int, int)>
    decreases s.len() - p,
{
    if p < 0 || p >= s.len() {
        Seq::empty()
    } else {
        match bracket_end(s, p) {
            Some(e) => if e > p {
                seq![(p, e)] + spans_from(s, e)
            } else {
                Seq::empty()
            },
            None => spans_from(s, p + 1),
        }
    }
}

/// The steps of the index groups `spans` of `seg`.
pub open spec fn index_steps(seg: Seq<char>, spans: Seq<(int, int)>) -> Seq<PathStep>
    decreases spans.len(),
{
    if spans.len() == 0 {
        Seq::empty()
    } else {
        seq![
            PathStep::Index(
                cap(digits_value(seg.subrange(spans[0].0 + 1, spans[0].1 - 1)), usize::MAX as nat),
            ),
        ] + index_steps(seg, spans.drop_first())
    }
}

/// The steps of one path segment: a plain key, or an optional key followed
/// by its index groups.
pub open spec fn segment_steps(seg: Seq<char>) -> Seq<PathStep> {
    let spans = spans_from(seg, 0);
    if spans.len() == 0 {
        seq![PathStep::Key(seg)]
    } else if spans[0].0 > 0 {
        seq![PathStep::Key(seg.take(spans[0].0))] + index_steps(seg, spans)
    } else {
        index_steps(seg, spans)
    }
}

/// The steps of the segments `segs`, in order.
pub open spec fn segments_steps(segs: Seq<Seq<char>>) -> Seq<PathStep>
    decreases segs.len(),
{
    if segs.len() == 0 {
        Seq::empty()
    } else {
        segment_steps(segs[0]) + segments_steps(segs.drop_first())
    }
}

/// The steps of a path: its `.`-separated segments, in order.
pub open spec fn path_steps(path: Seq<char>) -> Seq<PathStep> {
    segments_steps(split_on(path, '.'))
}

// ---------------------------------------------------------------------
// Walking a value
// ---------------------------------------------------------------------

/// The value of the first member of `entries` named `k`.
pub open spec fn lookup_key(entries: Seq<JsonEntry>, k: Seq<char>) -> Option<JsonValue>
    decreases entries.len(),
{
    if entries.len() == 0 {
        None
    } else if entries[0].key@ == k {
        Some(entries[0].value)
    } else {
        lookup_key(entries.drop_first(), k)
    }
}

/// One step into `v`.
pub open spec fn step_into(v: JsonValue, step: PathStep) -> Option<JsonValue> {
    match step {
        PathStep::Key(k) => match v {
            JsonValue::Object(es) => lookup_key(es@, k),
            _ => None,
        },
        PathStep::Index(i) => match v {
            JsonValue::Array(items) => if i < items@.len() {
                Some(items@[i as int])
            } else {
                None
            },
            _ => None,
        },
    }
}

/// The value that `steps` lead to from `v`, if every step exists.
pub open spec fn walk(v: JsonValue, steps: Seq<PathStep>) -> Option<JsonValue>
    decreases steps.len(),
{
    if steps.len() == 0 {
        Some(v)
    } else {
        match step_into(v, steps[0]) {
            None => None,
            Some(c) => walk(c, steps.drop_first()),
        }
    }
}

/// Walking `a + b` is walking `a`, then `b` from where `a` led.
pub proof fn lemma_walk_concat(v: JsonValue, a: Seq<PathStep>, b: Seq<PathStep>)
    ensures
        walk(v, a + b) == match walk(v, a) {
            None => None,
            Some(c) => walk(c, b),
        },
    decreases a.len(),
{
    if a.len() > 0 {
        assert((a + b)[0] == a[0]);
        assert((a + b).drop_first() =~= a.drop_first() + b);
        match step_into(v, a[0]) {
            None => {},
            Some(c) => {
                lemma_walk_concat(c, a.drop_first(), b);
            },
        }
    } else {
        assert(a + b =~= b);
    }
}

/// Whether two character strings are equal.
pub(crate) fn chars_equal(a: &Vec<char>, b: &Vec<char>) -> (r: bool)
    ensures
        r == (a@ == b@),
{
    if a.len() != b.len() {
        return false;
    }
    let mut i: usize = 0;
    while i < a.len()
        invariant
            a.len() == b.len(),
            i <= a.len(),
            forall|k: int| 0 <= k < i ==> a@[k] == b@[k],
        decreases a.len() - i,
    {
        if a[i] != b[i] {
            return false;
        }
        i = i + 1;
    }
    assert(a@ =~= b@);
    true
}

/// The value of the first member of `entries` named `k`.
fn lookup_entry<'a>(entries: &'a Vec<JsonEntry>, k: &Vec<char>) -> (r: Option<&'a JsonValue>)
    ensures
        match r {
            Some(x) => lookup_key(entries@, k@) == Some(*x),
            None => lookup_key(entries@, k@) is None,
        },
{
    let mut i: usize = 0;
    assert(entries@.skip(0) =~= entries@);
    while i < entries.len()
        invariant
            i <= entries.len(),
            lookup_key(entries@, k@) == lookup_key(entries@.skip(i as int), k@),
        decreases entries.len() - i,
    {
        assert(entries@.skip(i as int).drop_first() =~= entries@.skip(i + 1));
        let key = str_chars(entries[i].key.as_str());
        if chars_equal(&key, k) {
            return Some(&entries[i].value);
        }
        i = i + 1;
    }
    None
}

/// The number that the digits of `s` from `from` to `to` spell, capped at
/// `limit`.
fn capped_digits(s: &Vec<char>, from: usize, to: usize, limit: u128) -> (r: u128)
    requires
        from <= to <= s.len(),
        all_digits(s@.subrange(from as int, to as int)),
        limit >= 9,
    ensures
        r == cap(digits_value(s@.subrange(from as int, to as int)), limit as nat),
{
    let mut acc: u128 = 0;
    let mut i: usize = from;
    while i < to
        invariant
            from <= i <= to <= s.len(),
            all_digits(s@.subrange(from as int, to as int)),
            limit >= 9,
            acc == cap(digits_value(s@.subrange(from as int, i as int)), limit as nat),
        decreases to - i,
    {
        let ghost prev = s@.subrange(from as int, i as int);
        let ghost next = s@.subrange(from as int, i + 1);
        assert(next.drop_last() =~= prev);
        assert(is_digit_char(s@.subrange(from as int, to as int)[i - from]));
        let d = (s[i] as u32 - '0' as u32) as u128;
        assert(d == digit_of(next.last()));
        let ghost v = digits_value(prev);
        if acc == limit || acc > (limit - d) / 10 {
            proof {
                let l = limit as int;
                let a = acc as int;
                let dd = d as int;
                if acc == limit {
                    assert(v >= l);
                    assert(v * 10 + dd >= l) by (nonlinear_arith)
                        requires
                            v >= l,
                            l >= 0,
                            dd >= 0,
                    ;
                } else {
                    assert(a == v);
                    assert(a * 10 + dd > l) by (nonlinear_arith)
                        requires
                            a > (l - dd) / 10,
                            0 <= dd <= 9,
                            l >= 0,
                    ;
                }
            }
            acc = limit;
        } else {
            proof {
                let l = limit as int;
                let a = acc as int;
                let dd = d as int;
                assert(a * 10 + dd <= l) by (nonlinear_arith)
                    requires
                        a <= (l - dd) / 10,
                        0 <= dd <= 9,
                        dd <= l,
                ;
            }
            acc = acc * 10 + d;
        }
        i = i + 1;
    }
    acc
}

/// `s` cut at every `sep`.
pub(crate) fn split_chars(s: &Vec<char>, sep: char) -> (r: Vec<Vec<char>>)
    ensures
        r@.map_values(|v: Vec<char>| v@) == split_on(s@, sep),
{
    let mut segs: Vec<Vec<char>> = Vec::new();
    let mut cur: Vec<char> = Vec::new();
    let mut i: usize = 0;
    assert(s@.take(0) =~= Seq::<char>::empty());
    assert(segs@.map_values(|v: Vec<char>| v@).push(cur@) =~= seq![Seq::<char>::empty()]);
    while i < s.len()
        invariant
            i <= s.len(),
            split_on(s@.take(i as int), sep) == segs@.map_values(|v: Vec<char>| v@).push(cur@),
        decreases s.len() - i,
    {
        let ghost before = segs@.map_values(|v: Vec<char>| v@);
        assert(s@.take(i + 1).drop_last() =~= s@.take(i as int));
        assert(s@.take(i + 1).last() == s@[i as int]);
        if s[i] == sep {
            let done = cur;
            segs.push(done);
            cur = Vec::new();
            assert(segs@.map_values(|v: Vec<char>| v@) =~= before.push(done@));
        } else {
            let ghost old_cur = cur@;
            cur.push(s[i]);
            assert(before.push(old_cur).update(before.len() as int, old_cur.push(s@[i as int]))
                =~= before.push(cur@));
        }
        i = i + 1;
    }
    assert(s@.take(i as int) =~= s@);
    let ghost before = segs@.map_values(|v: Vec<char>| v@);
    let last = cur;
    segs.push(last);
    assert(segs@.map_values(|v: Vec<char>| v@) =~= before.push(last@));
    segs
}

proof fn lemma_digit_run(s: Seq<char>, p: int)
    requires
        0 <= p <= s.len(),
    ensures
        p <= digit_run_end(s, p) <= s.len(),
        forall|k: int| p <= k < digit_run_end(s, p) ==> is_digit_char(#[trigger] s[k]),
    decreases s.len() - p,
{
    if p < s.len() && is_digit_char(s[p]) {
        lemma_digit_run(s, p + 1);
    }
}

/// Every group of `spans_from(s, p)` is `[`, digits and `]` inside `s`.
proof fn lemma_spans_valid(s: Seq<char>, p: int)
    ensures
        forall|i: int|
            0 <= i < spans_from(s, p).len() ==> {
                let (a, b) = #[trigger] spans_from(s, p)[i];
                &&& 0 <= a
                &&& a + 2 < b <= s.len()
                &&& all_digits(s.subrange(a + 1, b - 1))
            },
    decreases s.len() - p,
{
    if 0 <= p < s.len() {
        match bracket_end(s, p) {
            Some(e) => {
                lemma_spans_valid(s, e);
                lemma_digit_run(s, p + 1);
                assert(e > p);
                let sp = spans_from(s, p);
                assert(sp == seq![(p, e)] + spans_from(s, e));
                assert forall|i: int| 0 <= i < sp.len() implies {
                    let (a, b) = #[trigger] sp[i];
                    &&& 0 <= a
                    &&& a + 2 < b <= s.len()
                    &&& all_digits(s.subrange(a + 1, b - 1))
                } by {
                    if i > 0 {
                        assert(sp[i] == spans_from(s, e)[i - 1]);
                    } else {
                        assert(sp[0] == (p, e));
                        assert forall|k: int| 0 <= k < e - 1 - (p + 1) implies is_digit_char(
                            #[trigger] s.subrange(p + 1, e - 1)[k],
                        ) by {
                            assert(s.subrange(p + 1, e - 1)[k] == s[p + 1 + k]);
                        }
                    }
                }
            },
            None => {
                lemma_spans_valid(s, p + 1);
                assert(spans_from(s, p) == spans_from(s, p + 1));
            },
        }
    } else {
        assert(spans_from(s, p).len() == 0);
    }
}

/// Where a `[digits]` group starting at `p` ends, if one starts there.
fn bracket_end_exec(s: &Vec<char>, p: usize) -> (r: Option<usize>)
    requires
        p < s.len(),
    ensures
        match r {
            Some(e) => bracket_end(s@, p as int) == Some(e as int),
            None => bracket_end(s@, p as int) is None,
        },
{
    if s[p] != '[' {
        return None;
    }
    let mut e: usize = p + 1;
    while e < s.len() && '0' <= s[e] && s[e] <= '9'
        invariant
            p < e <= s.len(),
            digit_run_end(s@, p + 1) == digit_run_end(s@, e as int),
        decreases s.len() - e,
    {
        e = e + 1;
    }
    if e > p + 1 && e < s.len() && s[e] == ']' {
        Some(e + 1)
    } else {
        None
    }
}

/// The `[digits]` groups of `s`, leftmost first and without overlap.
fn bracket_spans(s: &Vec<char>) -> (r: Vec<(usize, usize)>)
    ensures
        r@.map_values(|x: (usize, usize)| (x.0 as int, x.1 as int)) == spans_from(s@, 0),
{
    let mut out: Vec<(usize, usize)> = Vec::new();
    let mut p: usize = 0;
    assert(out@.map_values(|x: (usize, usize)| (x.0 as int, x.1 as int)) + spans_from(s@, 0)
        =~= spans_from(s@, 0));
    while p < s.len()
        invariant
            p <= s.len(),
            spans_from(s@, 0) == out@.map_values(|x: (usize, usize)| (x.0 as int, x.1 as int))
                + spans_from(s@, p as int),
        decreases s.len() - p,
    {
        let ghost before = out@.map_values(|x: (usize, usize)| (x.0 as int, x.1 as int));
        match bracket_end_exec(s, p) {
            Some(e) => {
                out.push((p, e));
                assert(out@.map_values(|x: (usize, usize)| (x.0 as int, x.1 as int)) =~= before.push(
                    (p as int, e as int),
                ));
                assert(before + (seq![(p as int, e as int)] + spans_from(s@, e as int)) =~= before.push(
                    (p as int, e as int),
                ) + spans_from(s@, e as int));
                proof {
                    lemma_digit_run(s@, p + 1);
                }
                p = e;
            },
            None => {
                p = p + 1;
            },
        }
    }
    assert(out@.map_values(|x: (usize, usize)| (x.0 as int, x.1 as int)) + spans_from(s@, p as int)
        =~= out@.map_values(|x: (usize, usize)| (x.0 as int, x.1 as int)));
    out
}

fn step_key<'a>(v: &'a JsonValue, key: &Vec<char>) -> (r: Option<&'a JsonValue>)
    ensures
        match r {
            Some(x) => step_into(*v, PathStep::Key(key@)) == Some(*x),
            None => step_into(*v, PathStep::Key(key@)) is None,
        },
{
    match v {
        JsonValue::Object(entries) => lookup_entry(entries, key),
        _ => None,
    }
}

fn step_index<'a>(v: &'a JsonValue, i: usize) -> (r: Option<&'a JsonValue>)
    ensures
        match r {
            Some(x) => step_into(*v, PathStep::Index(i as nat)) == Some(*x),
            None => step_into(*v, PathStep::Index(i as nat)) is None,
        },
{
    match v {
        JsonValue::Array(items) => {
            if i < items.len() {
                Some(&items[i])
            } else {
                None
            }
        },
        _ => None,
    }
}

/// Follows one path segment from `v`.
fn walk_segment<'a>(v: &'a JsonValue, seg: &Vec<char>) -> (r: Option<&'a JsonValue>)
    ensures
        match r {
            Some(x) => walk(*v, segment_steps(seg@)) == Some(*x),
            None => walk(*v, segment_steps(seg@)) is None,
        },
{
    let spans = bracket_spans(seg);
    let ghost sv = spans@.map_values(|x: (usize, usize)| (x.0 as int, x.1 as int));
    proof {
        lemma_spans_valid(seg@, 0);
    }
    if spans.len() == 0 {
        let r = step_key(v, seg);
        proof {
            assert(sv.len() == 0);
            let st = seq![PathStep::Key(seg@)];
            assert(segment_steps(seg@) == st);
            assert(st.drop_first() =~= Seq::<PathStep>::empty());
            match step_into(*v, PathStep::Key(seg@)) {
                None => {},
                Some(c) => {
                    assert(walk(c, Seq::<PathStep>::empty()) == Some(c));
                },
            }
        }
        return r;
    }
    let mut cur: &JsonValue = v;
    if spans[0].0 > 0 {
        let key = slice_chars(seg, 0, spans[0].0);
        assert(key@ =~= seg@.take(sv[0].0));
        let ghost st = seq![PathStep::Key(seg@.take(sv[0].0))] + index_steps(seg@, sv);
        assert(st[0] == PathStep::Key(seg@.take(sv[0].0)));
        assert(st.drop_first() =~= index_steps(seg@, sv));
        match step_key(cur, &key) {
            None => {
                return None;
            },
            Some(c) => {
                cur = c;
            },
        }
    }
    assert(sv.skip(0) =~= sv);
    let mut k: usize = 0;
    while k < spans.len()
        invariant
            sv == spans@.map_values(|x: (usize, usize)| (x.0 as int, x.1 as int)),
            sv == spans_from(seg@, 0),
            sv.len() > 0,
            forall|i: int|
                0 <= i < sv.len() ==> {
                    let (a, b) = #[trigger] sv[i];
                    &&& 0 <= a
                    &&& a + 2 < b <= seg@.len()
                    &&& all_digits(seg@.subrange(a + 1, b - 1))
                },
            k <= spans.len(),
            walk(*v, segment_steps(seg@)) == walk(*cur, index_steps(seg@, sv.skip(k as int))),
        decreases spans.len() - k,
    {
        let (a, b) = spans[k];
        assert(sv[k as int] == (a as int, b as int));
        let idx = capped_digits(seg, a + 1, b - 1, usize::MAX as u128) as usize;
        let ghost rest = sv.skip(k as int);
        assert(rest[0] == sv[k as int]);
        assert(rest.drop_first() =~= sv.skip(k + 1));
        let ghost st = index_steps(seg@, rest);
        assert(st[0] == PathStep::Index(idx as nat));
        assert(st.drop_first() =~= index_steps(seg@, sv.skip(k + 1)));
        match step_index(cur, idx) {
            None => {
                return None;
            },
            Some(c) => {
                cur = c;
            },
        }
        k = k + 1;
    }
    assert(sv.skip(k as int) =~= Seq::<(int, int)>::empty());
    Some(cur)
}

/// The characters of `s` from `from` to `to`.
fn slice_chars(s: &Vec<char>, from: usize, to: usize) -> (r: Vec<char>)
    requires
        from <= to <= s.len(),
    ensures
        r@ == s@.subrange(from as int, to as int),
{
    let mut out: Vec<char> = Vec::new();
    let mut i: usize = from;
    while i < to
        invariant
            from <= i <= to <= s.len(),
            out@ == s@.subrange(from as int, i as int),
        decreases to - i,
    {
        out.push(s[i]);
        i = i + 1;
        assert(out@ =~= s@.subrange(from as int, i as int));
    }
    out
}

/// Follows a whole path from `v`.
fn walk_path<'a>(v: &'a JsonValue, path: &Vec<char>) -> (r: Option<&'a JsonValue>)
    ensures
        match r {
            Some(x) => walk(*v, path_steps(path@)) == Some(*x),
            None => walk(*v, path_steps(path@)) is None,
        },
{
    let segs = split_chars(path, '.');
    let ghost sv = segs@.map_values(|x: Vec<char>| x@);
    let mut cur: &JsonValue = v;
    let mut i: usize = 0;
    assert(sv.skip(0) =~= sv);
    while i < segs.len()
        invariant
            sv == segs@.map_values(|x: Vec<char>| x@),
            sv == split_on(path@, '.'),
            i <= segs.len(),
            walk(*v, path_steps(path@)) == walk(*cur, segments_steps(sv.skip(i as int))),
        decreases segs.len() - i,
    {
        let ghost rest = sv.skip(i as int);
        assert(rest[0] == segs@[i as int]@);
        assert(rest.drop_first() =~= sv.skip(i + 1));
        proof {
            lemma_walk_concat(*cur, segment_steps(rest[0]), segments_steps(rest.drop_first()));
        }
        match walk_segment(cur, &segs[i]) {
            None => {
                return None;
            },
            Some(c) => {
                cur = c;
            },
        }
        i = i + 1;
    }
    assert(sv.skip(i as int) =~= Seq::<Seq<char>>::empty());
    Some(cur)
}

/// The scale that a fetched decimal goes through: twelve decimal places.
pub const MAX_ACCURACY: u128 = 1_000_000_000_000;

/// The first position at or after `from` that holds `c`, or the length.
pub open spec fn first_index(s: Seq<char>, c: char, from: int) -> int
    decreases s.len() - from,
{
    if from < 0 || from >= s.len() {
        s.len() as int
    } else if s[from] == c {
        from
    } else {
        first_index(s, c, from + 1)
    }
}

/// The sign of a decimal text and the text after it.
pub open spec fn unsigned_part(s: Seq<char>) -> (bool, Seq<char>) {
    if s.len() > 0 && s[0] == '-' {
        (true, s.drop_first())
    } else if s.len() > 0 && s[0] == '+' {
        (false, s.drop_first())
    } else {
        (false, s)
    }
}

pub open spec fn pow10(k: nat) -> nat
    decreases k,
{
    if k == 0 {
        1
    } else {
        10 * pow10((k - 1) as nat)
    }
}

/// The first position at or after `from` that holds an exponent marker
/// (`e` or `E`), or the length.
pub open spec fn exp_index(s: Seq<char>, from: int) -> int
    decreases s.len() - from,
{
    if from < 0 || from >= s.len() {
        s.len() as int
    } else if s[from] == 'e' || s[from] == 'E' {
        from
    } else {
        exp_index(s, from + 1)
    }
}

/// The truncated value of the digits `d` shifted `k` places: times `10^k`
/// for `k >= 0`, else with the last `-k` digits dropped.
pub open spec fn shifted_value(d: Seq<char>, k: int) -> nat {
    if k >= 0 {
        digits_value(d) * pow10(k as nat)
    } else if d.len() + k <= 0 {
        0
    } else {
        digits_value(d.take(d.len() + k))
    }
}

/// The exponent that the text after an exponent marker spells, if it is
/// `[sign] digits`.
pub open spec fn exponent_of(t: Seq<char>) -> Option<int> {
    let (negative, digits) = unsigned_part(t);
    if digits.len() == 0 || !all_digits(digits) {
        None
    } else if negative {
        Some(-(digits_value(digits) as int))
    } else {
        Some(digits_value(digits) as int)
    }
}

/// The price that a decimal text `[sign] digits [. digits] [e [sign]
/// digits]` stands for: the value scaled by `MAX_ACCURACY`, truncated,
/// capped at the largest `u128` (negative values give zero), and then
/// turned into a fixed-point price.
pub open spec fn text_price(s: Seq<char>) -> Option<i64> {
    let (negative, body) = unsigned_part(s);
    let m = exp_index(body, 0);
    let mantissa = body.take(m);
    let exponent = if m < body.len() {
        exponent_of(body.skip(m + 1))
    } else {
        Some(0)
    };
    let dot = first_index(mantissa, '.', 0);
    let int_part = mantissa.take(dot);
    let frac = if dot < mantissa.len() {
        mantissa.skip(dot + 1)
    } else {
        Seq::<char>::empty()
    };
    if !all_digits(int_part) || !all_digits(frac) || int_part.len() + frac.len() == 0
        || exponent is None {
        None
    } else {
        let k = exponent->0 - frac.len() + 12;
        let scaled = if negative {
            0
        } else {
            cap(shifted_value(int_part + frac, k), u128::MAX as nat)
        };
        Some(fixed_from_rational_spec(scaled as u128, MAX_ACCURACY))
    }
}

/// The price held by a leaf: numbers and numeric strings convert, other
/// values do not.
pub open spec fn leaf_price(v: JsonValue) -> Result<i64, PriceSourceError> {
    match v {
        JsonValue::Number(t) => match text_price(t@) {
            Some(p) => Ok(p),
            None => Err(PriceSourceError::JsonPriceConversionError),
        },
        JsonValue::Text(t) => match text_price(t@) {
            Some(p) => Ok(p),
            None => Err(PriceSourceError::JsonPriceConversionError),
        },
        _ => Err(PriceSourceError::JsonValueNotANumber),
    }
}

/// The price found in `v` at `path`.
pub open spec fn price_at(v: JsonValue, path: Seq<char>) -> Result<i64, PriceSourceError> {
    match walk(v, path_steps(path)) {
        None => Err(PriceSourceError::JsonParseError),
        Some(leaf) => leaf_price(leaf),
    }
}

fn first_index_exec(s: &Vec<char>, c: char, from: usize) -> (r: usize)
    requires
        from <= s.len(),
    ensures
        r == first_index(s@, c, from as int),
        from <= r <= s.len(),
{
    let mut i: usize = from;
    while i < s.len() && s[i] != c
        invariant
            from <= i <= s.len(),
            first_index(s@, c, from as int) == first_index(s@, c, i as int),
        decreases s.len() - i,
    {
        i = i + 1;
    }
    i
}

fn all_digits_exec(s: &Vec<char>, from: usize, to: usize) -> (r: bool)
    requires
        from <= to <= s.len(),
    ensures
        r == all_digits(s@.subrange(from as int, to as int)),
{
    let mut i: usize = from;
    while i < to
        invariant
            from <= i <= to <= s.len(),
            forall|k: int| from <= k < i ==> is_digit_char(#[trigger] s@[k]),
        decreases to - i,
    {
        if !('0' <= s[i] && s[i] <= '9') {
            assert(!is_digit_char(s@.subrange(from as int, to as int)[i - from]));
            return false;
        }
        i = i + 1;
    }
    assert forall|k: int| 0 <= k < to - from implies is_digit_char(
        #[trigger] s@.subrange(from as int, to as int)[k],
    ) by {
        assert(s@.subrange(from as int, to as int)[k] == s@[from + k]);
    }
    true
}

proof fn lemma_pow10_positive(k: nat)
    ensures
        pow10(k) >= 1,
    decreases k,
{
    if k > 0 {
        lemma_pow10_positive((k - 1) as nat);
    }
}

proof fn lemma_pow10_monotonic(j: nat, k: nat)
    requires
        j <= k,
    ensures
        pow10(j) <= pow10(k),
    decreases k,
{
    if j < k {
        lemma_pow10_monotonic(j, (k - 1) as nat);
        lemma_pow10_positive((k - 1) as nat);
    }
}

proof fn lemma_pow10_large(k: nat)
    requires
        k >= 39,
    ensures
        pow10(k) > u128::MAX,
{
    reveal_with_fuel(pow10, 40);
    lemma_pow10_monotonic(39, k);
}

fn exp_index_exec(s: &Vec<char>) -> (r: usize)
    ensures
        r == exp_index(s@, 0),
        r <= s.len(),
{
    let mut i: usize = 0;
    while i < s.len() && s[i] != 'e' && s[i] != 'E'
        invariant
            i <= s.len(),
            exp_index(s@, 0) == exp_index(s@, i as int),
        decreases s.len() - i,
    {
        i = i + 1;
    }
    i
}

/// The limit on an exponent's magnitude beyond which every value is either
/// zero or saturated.
const EXPONENT_CAP: u128 = 1_000_000_000_000_000_000_000_000_000_000;

/// `cap(shifted_value(d, k), u128::MAX)` for a shift `k` read with its
/// magnitude capped at `EXPONENT_CAP`.
fn shifted_capped(d: &Vec<char>, k: i128) -> (r: u128)
    requires
        all_digits(d@),
        -(EXPONENT_CAP as int) - (usize::MAX as int) <= k <= EXPONENT_CAP as int + 12,
    ensures
        r == cap(shifted_value(d@, k as int), u128::MAX as nat),
{
    assert(d@.subrange(0, d.len() as int) =~= d@);
    if k >= 0 {
        let ghost v = digits_value(d@);
        let mut acc = capped_digits(d, 0, d.len(), u128::MAX);
        let mut j: i128 = 0;
        assert(pow10(0) == 1);
        assert(v * 1 == v);
        while j < k && acc != 0 && acc != u128::MAX
            invariant
                0 <= j <= k,
                acc == cap(v * pow10(j as nat), u128::MAX as nat),
            decreases k - j,
        {
            proof {
                assert(pow10((j + 1) as nat) == 10 * pow10(j as nat));
                let a = v * pow10(j as nat);
                assert(v * pow10((j + 1) as nat) == a * 10) by (nonlinear_arith)
                    requires
                        pow10((j + 1) as nat) == 10 * pow10(j as nat),
                        a == v * pow10(j as nat),
                ;
            }
            if acc > u128::MAX / 10 {
                acc = u128::MAX;
            } else {
                acc = acc * 10;
            }
            j = j + 1;
        }
        proof {
            lemma_pow10_monotonic(j as nat, k as nat);
            lemma_pow10_positive(j as nat);
            let pj = pow10(j as nat);
            let pk = pow10(k as nat);
            if acc == 0 {
                assert(v == 0) by (nonlinear_arith)
                    requires
                        v * pj == 0,
                        pj >= 1,
                ;
                assert(v * pk == 0) by (nonlinear_arith)
                    requires
                        v == 0,
                ;
            } else if acc == u128::MAX {
                assert(v * pk >= v * pj) by (nonlinear_arith)
                    requires
                        pk >= pj,
                        v >= 0,
                ;
            }
        }
        acc
    } else if (d.len() as i128) + k <= 0 {
        0
    } else {
        let keep = ((d.len() as i128) + k) as usize;
        assert(d@.subrange(0, keep as int) =~= d@.take(keep as int));
        assert forall|i: int| 0 <= i < keep implies is_digit_char(
            #[trigger] d@.subrange(0, keep as int)[i],
        ) by {
            assert(d@.subrange(0, keep as int)[i] == d@[i]);
        }
        capped_digits(d, 0, keep, u128::MAX)
    }
}

/// The sign and the magnitude (capped at `EXPONENT_CAP`) of an exponent
/// text, if it is `[sign] digits`.
fn parse_exponent(t: &Vec<char>) -> (r: Option<(bool, u128)>)
    ensures
        r is None == exponent_of(t@) is None,
        r matches Some((negative, magnitude)) ==> {
            let x = exponent_of(t@)->0;
            &&& negative ==> x <= 0 && magnitude == cap((-x) as nat, EXPONENT_CAP as nat)
            &&& !negative ==> x >= 0 && magnitude == cap(x as nat, EXPONENT_CAP as nat)
        },
{
    let negative = t.len() > 0 && t[0] == '-';
    let start: usize = if t.len() > 0 && (t[0] == '-' || t[0] == '+') {
        1
    } else {
        0
    };
    assert(t@.subrange(start as int, t.len() as int) =~= unsigned_part(t@).1);
    if start == t.len() || !all_digits_exec(t, start, t.len()) {
        return None;
    }
    Some((negative, capped_digits(t, start, t.len(), EXPONENT_CAP)))
}

/// The digits of a mantissa `digits [. digits]` and the number of its
/// fraction digits, if it is one.
fn mantissa_digits(m: &Vec<char>) -> (r: Option<(Vec<char>, usize)>)
    ensures
        ({
            let dot = first_index(m@, '.', 0);
            let int_part = m@.take(dot);
            let frac = if dot < m@.len() {
                m@.skip(dot + 1)
            } else {
                Seq::<char>::empty()
            };
            &&& r is None == (!all_digits(int_part) || !all_digits(frac) || int_part.len()
                + frac.len() == 0)
            &&& r matches Some((d, n)) ==> d@ == int_part + frac && n == frac.len() && all_digits(
                d@,
            )
        }),
{
    let dot = first_index_exec(m, '.', 0);
    let frac_start: usize = if dot < m.len() {
        dot + 1
    } else {
        m.len()
    };
    assert(m@.subrange(0, dot as int) =~= m@.take(dot as int));
    assert(dot < m.len() ==> m@.subrange(frac_start as int, m.len() as int) =~= m@.skip(dot + 1));
    assert(dot >= m.len() ==> m@.subrange(frac_start as int, m.len() as int)
        =~= Seq::<char>::empty());
    if !all_digits_exec(m, 0, dot) || !all_digits_exec(m, frac_start, m.len()) || dot + (m.len()
        - frac_start) == 0 {
        return None;
    }
    let ghost int_part = m@.take(dot as int);
    let ghost frac = m@.subrange(frac_start as int, m.len() as int);
    let mut digits = slice_chars(m, 0, dot);
    let mut k: usize = frac_start;
    while k < m.len()
        invariant
            frac_start <= k <= m.len(),
            digits@ == int_part + m@.subrange(frac_start as int, k as int),
        decreases m.len() - k,
    {
        digits.push(m[k]);
        k = k + 1;
        assert(digits@ =~= int_part + m@.subrange(frac_start as int, k as int));
    }
    assert forall|i: int| 0 <= i < digits@.len() implies is_digit_char(#[trigger] digits@[i]) by {
        if i < int_part.len() {
            assert(is_digit_char(int_part[i]));
        } else {
            assert(is_digit_char(frac[i - int_part.len()]));
        }
    }
    Some((digits, m.len() - frac_start))
}

/// `cap(shifted_value(d, x - frac_len + 12), u128::MAX)` where the exponent
/// `x` is known by its sign and capped magnitude.
fn scale_digits(
    d: &Vec<char>,
    frac_len: usize,
    exp_negative: bool,
    exp_magnitude: u128,
    Ghost(x): Ghost<int>,
) -> (r: u128)
    requires
        all_digits(d@),
        exp_negative ==> x <= 0 && exp_magnitude == cap((-x) as nat, EXPONENT_CAP as nat),
        !exp_negative ==> x >= 0 && exp_magnitude == cap(x as nat, EXPONENT_CAP as nat),
        frac_len <= d.len(),
    ensures
        r == cap(shifted_value(d@, x - frac_len + 12), u128::MAX as nat),
{
    let exponent: i128 = if exp_negative {
        0 - (exp_magnitude as i128)
    } else {
        exp_magnitude as i128
    };
    let shift = exponent - (frac_len as i128) + 12;
    let ghost true_shift = x - frac_len + 12;
    let r = shifted_capped(d, shift);
    proof {
        if shift != true_shift {
            let n = d@.len();
            if !exp_negative {
                assert(shift >= 39);
                assert(true_shift >= shift);
                if digits_value(d@) > 0 {
                    lemma_pow10_large(shift as nat);
                    lemma_pow10_large(true_shift as nat);
                    let v = digits_value(d@);
                    let pt = pow10(true_shift as nat);
                    let ps = pow10(shift as nat);
                    assert(v * pt >= pt) by (nonlinear_arith)
                        requires
                            v >= 1,
                            pt >= 0,
                    ;
                    assert(v * ps >= ps) by (nonlinear_arith)
                        requires
                            v >= 1,
                            ps >= 0,
                    ;
                }
            } else {
                assert(n + shift <= 0);
                assert(n + true_shift <= 0);
            }
        }
    }
    r
}

/// The price that a decimal text stands for, if it is one.
pub fn parse_price_text(text: &str) -> (r: Option<i64>)
    ensures
        r == text_price(text@),
{
    let s = str_chars(text);
    let negative = s.len() > 0 && s[0] == '-';
    let start: usize = if s.len() > 0 && (s[0] == '-' || s[0] == '+') {
        1
    } else {
        0
    };
    let body = slice_chars(&s, start, s.len());
    assert(body@ == unsigned_part(s@).1);
    let m = exp_index_exec(&body);
    let mantissa = slice_chars(&body, 0, m);
    assert(mantissa@ =~= body@.take(m as int));
    let (exp_negative, exp_magnitude) = if m < body.len() {
        let t = slice_chars(&body, m + 1, body.len());
        assert(t@ =~= body@.skip(m + 1));
        match parse_exponent(&t) {
            None => {
                return None;
            },
            Some(e) => e,
        }
    } else {
        (false, 0u128)
    };
    let ghost x = if m < body.len() {
        exponent_of(body@.skip(m + 1))->0
    } else {
        0
    };
    let (digits, frac_len) = match mantissa_digits(&mantissa) {
        None => {
            return None;
        },
        Some(parts) => parts,
    };
    let scaled: u128 = if negative {
        0
    } else {
        scale_digits(&digits, frac_len, exp_negative, exp_magnitude, Ghost(x))
    };
    Some(fixed_from_rational(scaled, MAX_ACCURACY))
}

/// The price held by a leaf value.
pub fn leaf_to_price(v: &JsonValue) -> (r: Result<i64, PriceSourceError>)
    ensures
        r == leaf_price(*v),
{
    match v {
        JsonValue::Number(t) => match parse_price_text(t.as_str()) {
            Some(p) => Ok(p),
            None => Err(PriceSourceError::JsonPriceConversionError),
        },
        JsonValue::Text(t) => match parse_price_text(t.as_str()) {
            Some(p) => Ok(p),
            None => Err(PriceSourceError::JsonPriceConversionError),
        },
        _ => Err(PriceSourceError::JsonValueNotANumber),
    }
}

/// The price found in `v` at `path`: a missing member or element is a
/// parse error, a leaf that is not a number or a numeric string is refused.
pub fn price_from_json_value(v: &JsonValue, path: &str) -> (r: Result<i64, PriceSourceError>)
    ensures
        r == price_at(*v, path@),
{
    let p = str_chars(path);
    match walk_path(v, &p) {
        None => Err(PriceSourceError::JsonParseError),
        Some(leaf) => leaf_to_price(leaf),
    }
}

/// Parses `body` as JSON and reads the price at `path`; a body that is not
/// JSON is a deserialization error.
pub fn fetch_price_from_json(body: String, path: &str) -> (r: Result<i64, PriceSourceError>)
    ensures
        !json_parses(body@) ==> r == Err::<i64, PriceSourceError>(
            PriceSourceError::DeserializationError,
        ),
        json_parses(body@) ==> r == price_at(json_of(body@), path@),
{
    match parse_json(body.as_str()) {
        None => Err(PriceSourceError::DeserializationError),
        Some(v) => price_from_json_value(&v, path),
    }
}

} // verus!
