//! Price queries: the `func(url).path` template syntax, the substitution
//! of an asset's symbol for the `{$}` placeholder, and the restriction set
//! of assets and price strategies.
use crate::asset::{AsSymbol, Asset};
use vstd::prelude::*;
use vstd::string::{StrSliceExecFns, StringExecFns};

verus! {

/// Why fetching one asset's price failed.
#[derive(Debug, Clone, Copy, PartialEq, Eq, Structural)]
pub enum PriceSourceError {
    HttpError,
    WrongUrlPattern,
    NoQueryStringInStorage,
    IncorrectQueryFormat,
    DeserializationError,
    JsonParseError,
    JsonValueNotANumber,
    JsonPriceConversionError,
    UnknownPriceStrategy,
    Symbol,
}

pub uninterp spec fn upper_of(s: Seq<char>) -> Seq<char>;

pub uninterp spec fn lower_of(s: Seq<char>) -> Seq<char>;

/// Relies on `str::to_uppercase`: the result depends on the characters
/// alone.
#[verifier::external_body]
pub(crate) fn to_upper(s: &str) -> (r: String)
    ensures
        r@ == upper_of(s@),
{
    s.to_uppercase()
}

/// Relies on `str::to_lowercase`: the result depends on the characters
/// alone.
#[verifier::external_body]
pub(crate) fn to_lower(s: &str) -> (r: String)
    ensures
        r@ == lower_of(s@),
{
    s.to_lowercase()
}

/// Relies on `String: FromIterator<&char>`: the string holds the characters
/// in order.
#[verifier::external_body]
pub(crate) fn string_from_chars(v: &Vec<char>) -> (r: String)
    ensures
        r@ == v@,
{
    v.iter().collect()
}

/// The characters of `s`.
pub fn str_chars(s: &str) -> (r: Vec<char>)
    ensures
        r@ == s@,
{
    let n = s.unicode_len();
    let mut out: Vec<char> = Vec::new();
    let mut i: usize = 0;
    while i < n
        invariant
            n == s@.len(),
            i <= n,
            out@ == s@.take(i as int),
        decreases n - i,
    {
        out.push(s.get_char(i));
        i = i + 1;
        assert(out@ =~= s@.take(i as int));
    }
    assert(s@.take(i as int) =~= s@);
    out
}

/// `pat` occurs in `s` at position `i`.
pub open spec fn occurs_at(s: Seq<char>, pat: Seq<char>, i: int) -> bool {
    0 <= i && i + pat.len() <= s.len() && s.subrange(i, i + pat.len()) == pat
}

/// `pat` occurs somewhere in `s`.
pub open spec fn contains_seq(s: Seq<char>, pat: Seq<char>) -> bool {
    exists|i: int| #[trigger] occurs_at(s, pat, i)
}

/// `s` with every occurrence of the non-empty `pat` replaced by `rep`,
/// scanning left to right without overlaps.
pub open spec fn replace_all(s: Seq<char>, pat: Seq<char>, rep: Seq<char>) -> Seq<char>
    decreases s.len(),
{
    if s.len() == 0 {
        s
    } else if pat.len() > 0 && occurs_at(s, pat, 0) {
        rep + replace_all(s.subrange(pat.len() as int, s.len() as int), pat, rep)
    } else {
        seq![s[0]] + replace_all(s.subrange(1, s.len() as int), pat, rep)
    }
}

/// Whether `pat` occurs in `s` at `i`.
fn occurs_at_exec(s: &Vec<char>, pat: &Vec<char>, i: usize) -> (r: bool)
    ensures
        r == occurs_at(s@, pat@, i as int),
{
    if i > s.len() || pat.len() > s.len() - i {
        return false;
    }
    let mut k: usize = 0;
    while k < pat.len()
        invariant
            i + pat.len() <= s.len(),
            k <= pat.len(),
            forall|m: int| 0 <= m < k ==> s@[i + m] == pat@[m],
        decreases pat.len() - k,
    {
        if s[i + k] != pat[k] {
            assert(s@.subrange(i as int, i + pat.len())[k as int] != pat@[k as int]);
            return false;
        }
        k = k + 1;
    }
    assert(s@.subrange(i as int, i + pat.len()) =~= pat@);
    true
}

/// Whether `pat` occurs in `s`.
pub fn contains_chars(s: &Vec<char>, pat: &Vec<char>) -> (r: bool)
    ensures
        r == contains_seq(s@, pat@),
{
    let mut i: usize = 0;
    while i < s.len()
        invariant
            i <= s.len(),
            forall|k: int| 0 <= k < i ==> !occurs_at(s@, pat@, k),
        decreases s.len() - i,
    {
        if occurs_at_exec(s, pat, i) {
            return true;
        }
        i = i + 1;
    }
    if occurs_at_exec(s, pat, s.len()) {
        return true;
    }
    assert forall|k: int| !(#[trigger] occurs_at(s@, pat@, k)) by {
        if 0 <= k < i {
        }
    }
    false
}

/// `s` with every occurrence of `pat` replaced by `rep`.
pub fn replace_chars(s: &Vec<char>, pat: &Vec<char>, rep: &Vec<char>) -> (r: Vec<char>)
    requires
        pat.len() > 0,
    ensures
        r@ == replace_all(s@, pat@, rep@),
{
    let mut out: Vec<char> = Vec::new();
    let mut i: usize = 0;
    assert(s@.subrange(0, s.len() as int) =~= s@);
    assert(out@ + s@ =~= s@);
    while i < s.len()
        invariant
            pat.len() > 0,
            i <= s.len(),
            replace_all(s@, pat@, rep@) == out@ + replace_all(
                s@.subrange(i as int, s.len() as int),
                pat@,
                rep@,
            ),
        decreases s.len() - i,
    {
        let ghost rest = s@.subrange(i as int, s.len() as int);
        let ghost before = out@;
        if occurs_at_exec(s, pat, i) {
            assert(rest.subrange(0, pat.len() as int) =~= s@.subrange(i as int, i + pat.len()));
            assert(rest.subrange(pat.len() as int, rest.len() as int) =~= s@.subrange(
                i + pat.len(),
                s.len() as int,
            ));
            let mut k: usize = 0;
            while k < rep.len()
                invariant
                    k <= rep.len(),
                    out@ == before + rep@.take(k as int),
                decreases rep.len() - k,
            {
                out.push(rep[k]);
                k = k + 1;
                assert(out@ =~= before + rep@.take(k as int));
            }
            assert(rep@.take(k as int) =~= rep@);
            assert(before + (rep@ + replace_all(
                s@.subrange(i + pat.len(), s.len() as int),
                pat@,
                rep@,
            )) =~= out@ + replace_all(s@.subrange(i + pat.len(), s.len() as int), pat@, rep@));
            i = i + pat.len();
        } else {
            assert(!occurs_at(rest, pat@, 0)) by {
                if occurs_at(rest, pat@, 0) {
                    assert(rest.subrange(0, pat.len() as int) =~= s@.subrange(
                        i as int,
                        i + pat.len(),
                    ));
                }
            }
            assert(rest.subrange(1, rest.len() as int) =~= s@.subrange(i + 1, s.len() as int));
            out.push(s[i]);
            assert(before + (seq![rest[0]] + replace_all(
                s@.subrange(i + 1, s.len() as int),
                pat@,
                rep@,
            )) =~= out@ + replace_all(s@.subrange(i + 1, s.len() as int), pat@, rep@));
            i = i + 1;
        }
    }
    assert(s@.subrange(i as int, s.len() as int) =~= Seq::<char>::empty());
    assert(out@ + Seq::<char>::empty() =~= out@);
    out
}

/// `url` and `path` with the asset's query symbol in place of `{$}`: the
/// symbol is upper-cased when the URL template holds `USD`, else
/// lower-cased, and spelled the way `api.kraken.com` wants when the
/// template names that host.
pub open spec fn url_spec(asset: Asset, url: Seq<char>, path: Seq<char>) -> Result<
    (Seq<char>, Seq<char>),
    PriceSourceError,
> {
    match asset.query_symbol_spec(contains_seq(url, "api.kraken.com"@)) {
        None => Err(PriceSourceError::Symbol),
        Some(sym) => {
            let cased = if contains_seq(url, "USD"@) {
                upper_of(sym)
            } else {
                lower_of(sym)
            };
            Ok((replace_all(url, "{$}"@, cased), replace_all(path, "{$}"@, cased)))
        },
    }
}

impl Asset {
    /// The request URL and JSON path for this asset, from their templates.
    pub fn get_url(&self, url_template: &str, path_template: &str) -> (r: Result<
        (String, String),
        PriceSourceError,
    >)
        ensures
            (match r {
                Ok((u, p)) => Ok((u@, p@)),
                Err(e) => Err(e),
            }) == url_spec(*self, url_template@, path_template@),
    {
        let url = str_chars(url_template);
        let path = str_chars(path_template);
        let is_upper_case = contains_chars(&url, &str_chars("USD"));
        let is_kraken = contains_chars(&url, &str_chars("api.kraken.com"));
        let symbol = match self.get_query_symbol(is_kraken) {
            None => return Err(PriceSourceError::Symbol),
            Some(s) => s,
        };
        let cased = if is_upper_case {
            to_upper(symbol.as_str())
        } else {
            to_lower(symbol.as_str())
        };
        let placeholder = str_chars("{$}");
        proof {
            reveal_strlit("{$}");
        }
        let sym = str_chars(cased.as_str());
        let u = replace_chars(&url, &placeholder, &sym);
        let p = replace_chars(&path, &placeholder, &sym);
        Ok((string_from_chars(&u), string_from_chars(&p)))
    }
}

/// The text from `i` to `j + 1` reads `(`, at least one character other
/// than a line break, `)` and `.`.
pub open spec fn url_match(q: Seq<char>, i: int, j: int) -> bool {
    &&& 0 <= i
    &&& i + 2 <= j
    &&& j + 1 < q.len()
    &&& q[i] == '('
    &&& q[j] == ')'
    &&& q[j + 1] == '.'
    &&& forall|k: int| i < k < j ==> q[k] != '\n'
}

/// The span of the leftmost, longest `(...).` in a query: `(start, end)`
/// with `end` just past the dot.
pub open spec fn is_url_span(q: Seq<char>, start: int, end: int) -> bool {
    &&& url_match(q, start, end - 2)
    &&& forall|i: int, j: int| i < start ==> !#[trigger] url_match(q, i, j)
    &&& forall|j: int| #[trigger] url_match(q, start, j) ==> j <= end - 2
}

/// The span of the URL part of a query, if it has one.
pub fn get_url_offset(q: &Vec<char>) -> (r: Option<(usize, usize)>)
    ensures
        match r {
            Some((s, e)) => is_url_span(q@, s as int, e as int),
            None => forall|i: int, j: int| !#[trigger] url_match(q@, i, j),
        },
{
    let n = q.len();
    let mut i: usize = 0;
    while i < n
        invariant
            n == q.len(),
            i <= n,
            forall|a: int, j: int| a < i ==> !#[trigger] url_match(q@, a, j),
        decreases n - i,
    {
        if q[i] == '(' {
            let mut found: Option<usize> = None;
            let mut k: usize = i + 1;
            while k < n - 1 && q[k] != '\n'
                invariant
                    n == q.len(),
                    i < n,
                    q@[i as int] == '(',
                    i + 1 <= k <= n,
                    forall|m: int| i < m < k ==> q@[m] != '\n',
                    match found {
                        Some(j) => url_match(q@, i as int, j as int) && j < k && forall|j2: int|
                            j2 < k && #[trigger] url_match(q@, i as int, j2) ==> j2 <= j,
                        None => forall|j2: int| j2 < k ==> !#[trigger] url_match(q@, i as int, j2),
                    },
                decreases n - k,
            {
                if k >= i + 2 && q[k] == ')' && q[k + 1] == '.' {
                    found = Some(k);
                }
                k = k + 1;
            }
            assert forall|j2: int| j2 >= k implies !#[trigger] url_match(q@, i as int, j2) by {
                if j2 > k && k + 1 < n {
                    assert(q@[k as int] == '\n');
                }
            }
            match found {
                Some(j) => {
                    return Some((i, j + 2));
                },
                None => {},
            }
        }
        i = i + 1;
    }
    None
}

/// The characters of `s` from `from` to `to`.
fn slice_chars(s: &Vec<char>, from: usize, to: usize) -> (r: Vec<char>)
    requires
        from <= to <= s.len(),
    ensures
        r@ == s@.subrange(from as int, to as int),
{
    let mut out: Vec<char> = Vec::new();
    let mut i: usize = from;
    while i < to
        invariant
            from <= i <= to <= s.len(),
            out@ == s@.subrange(from as int, i as int),
        decreases to - i,
    {
        out.push(s[i]);
        i = i + 1;
        assert(out@ =~= s@.subrange(from as int, i as int));
    }
    out
}

/// The URL and JSON path that a query gives for an asset: the query must
/// hold a `(...).` span whose inside has the `{$}` placeholder; the path is
/// what follows the span.
pub open spec fn request_spec(asset: Asset, q: Seq<char>) -> Result<
    (Seq<char>, Seq<char>),
    PriceSourceError,
> {
    if !exists|s: int, e: int| is_url_span(q, s, e) {
        Err(PriceSourceError::IncorrectQueryFormat)
    } else {
        let (s, e) = choose|s: int, e: int| is_url_span(q, s, e);
        let url = q.subrange(s + 1, e - 2);
        if !contains_seq(url, "{$}"@) {
            Err(PriceSourceError::WrongUrlPattern)
        } else {
            url_spec(asset, url, q.subrange(e, q.len() as int))
        }
    }
}

proof fn lemma_url_span_unique(q: Seq<char>, s1: int, e1: int, s2: int, e2: int)
    requires
        is_url_span(q, s1, e1),
        is_url_span(q, s2, e2),
    ensures
        s1 == s2 && e1 == e2,
{
    if s1 < s2 {
        assert(!url_match(q, s1, e1 - 2));
    }
    if s2 < s1 {
        assert(!url_match(q, s2, e2 - 2));
    }
    assert(url_match(q, s1, e2 - 2) ==> e2 - 2 <= e1 - 2);
    assert(url_match(q, s2, e1 - 2) ==> e1 - 2 <= e2 - 2);
}

/// The request URL and JSON path for `asset` from a stored query such as
/// `json(https://host/ticker?pair={$}USD).result.price`.
pub fn prepare_request(asset: Asset, query: &str) -> (r: Result<(String, String), PriceSourceError>)
    ensures
        (match r {
            Ok((u, p)) => Ok((u@, p@)),
            Err(e) => Err(e),
        }) == request_spec(asset, query@),
{
    let q = str_chars(query);
    let (start, end) = match get_url_offset(&q) {
        None => {
            return Err(PriceSourceError::IncorrectQueryFormat);
        },
        Some(span) => span,
    };
    proof {
        let (s, e) = choose|s: int, e: int| is_url_span(q@, s, e);
        lemma_url_span_unique(q@, s, e, start as int, end as int);
    }
    let url = slice_chars(&q, start + 1, end - 2);
    let placeholder = str_chars("{$}");
    if !contains_chars(&url, &placeholder) {
        return Err(PriceSourceError::WrongUrlPattern);
    }
    let path = slice_chars(&q, end, q.len());
    let url_template = string_from_chars(&url);
    let path_template = string_from_chars(&path);
    asset.get_url(url_template.as_str(), path_template.as_str())
}

} // verus!
