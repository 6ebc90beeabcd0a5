//! The fetch pipeline's decisions: which configured source runs, which
//! assets a restriction set lets through and with which strategy, and how a
//! strategy turns a fetched value into a price.
use crate::asset::{AsSymbol, Asset};
use crate::fixed::{fixed_reciprocal, fixed_reciprocal_spec};
use crate::json::{chars_equal, split_chars, split_on};
use crate::query::{lower_of, str_chars, string_from_chars, to_lower, PriceSourceError};
use vstd::prelude::*;
use vstd::string::StringExecFns;

verus! {

pub uninterp spec fn trim_of(s: Seq<char>) -> Seq<char>;

/// Relies on `str::trim`: the text without its leading and trailing white
/// space; the result depends on the characters alone.
#[verifier::external_body]
fn trim(s: &str) -> (r: String)
    ensures
        r@ == trim_of(s@),
{
    s.trim().to_string()
}

/// One entry of a restriction set: `SYM[:strategy]`, both parts trimmed and
/// lower-cased, the strategy `price` when it is missing.
pub open spec fn setting_of(pair: Seq<char>) -> (Seq<char>, Seq<char>) {
    let parts = split_on(pair, ':');
    (
        lower_of(trim_of(parts[0])),
        if parts.len() > 1 {
            lower_of(trim_of(parts[1]))
        } else {
            "price"@
        },
    )
}

/// The entries of a restriction set `SYM:strategy,SYM2:strategy2,...`.
pub open spec fn settings_of(s: Seq<char>) -> Seq<(Seq<char>, Seq<char>)> {
    split_on(s, ',').map_values(|p: Seq<char>| setting_of(p))
}

/// The strategy of the last entry for `symbol`, as a map built from the
/// entries in order would keep it.
pub open spec fn strategy_for(settings: Seq<(Seq<char>, Seq<char>)>, symbol: Seq<char>) -> Option<
    Seq<char>,
>
    decreases settings.len(),
{
    if settings.len() == 0 {
        None
    } else if settings.last().0 == symbol {
        Some(settings.last().1)
    } else {
        strategy_for(settings.drop_last(), symbol)
    }
}

/// The entries of a restriction set, as (symbol, strategy) pairs.
pub fn get_asset_settings(s: &str) -> (r: Vec<(String, String)>)
    ensures
        r@.map_values(|x: (String, String)| (x.0@, x.1@)) == settings_of(s@),
{
    let chars = str_chars(s);
    let pairs = split_chars(&chars, ',');
    let ghost pv = pairs@.map_values(|v: Vec<char>| v@);
    let mut out: Vec<(String, String)> = Vec::new();
    let mut i: usize = 0;
    while i < pairs.len()
        invariant
            pv == pairs@.map_values(|v: Vec<char>| v@),
            pv == split_on(chars@, ','),
            chars@ == s@,
            i <= pairs.len(),
            out@.map_values(|x: (String, String)| (x.0@, x.1@)) == pv.take(i as int).map_values(
                |p: Seq<char>| setting_of(p),
            ),
        decreases pairs.len() - i,
    {
        let parts = split_chars(&pairs[i], ':');
        let ghost parts_v = parts@.map_values(|v: Vec<char>| v@);
        assert(parts_v == split_on(pv[i as int], ':'));
        proof {
            lemma_split_nonempty(pv[i as int], ':');
        }
        let sym_raw = string_from_chars(&parts[0]);
        let sym_trim = trim(sym_raw.as_str());
        let symbol = to_lower(sym_trim.as_str());
        let strategy = if parts.len() > 1 {
            let st_raw = string_from_chars(&parts[1]);
            let st_trim = trim(st_raw.as_str());
            to_lower(st_trim.as_str())
        } else {
            String::from_str("price")
        };
        let ghost before = out@.map_values(|x: (String, String)| (x.0@, x.1@));
        out.push((symbol, strategy));
        assert(out@.map_values(|x: (String, String)| (x.0@, x.1@)) =~= before.push(
            setting_of(pv[i as int]),
        ));
        assert(pv.take(i + 1).map_values(|p: Seq<char>| setting_of(p)) =~= pv.take(
            i as int,
        ).map_values(|p: Seq<char>| setting_of(p)).push(setting_of(pv[i as int])));
        i = i + 1;
    }
    assert(pv.take(i as int) =~= pv);
    out
}

proof fn lemma_split_nonempty(s: Seq<char>, sep: char)
    ensures
        split_on(s, sep).len() > 0,
    decreases s.len(),
{
    if s.len() > 0 {
        lemma_split_nonempty(s.drop_last(), sep);
    }
}

/// The strategy of the last entry for `symbol`.
pub fn find_strategy(settings: &Vec<(String, String)>, symbol: &str) -> (r: Option<String>)
    ensures
        (match r {
            Some(x) => Some(x@),
            None => None,
        }) == strategy_for(settings@.map_values(|x: (String, String)| (x.0@, x.1@)), symbol@),
{
    let ghost sv = settings@.map_values(|x: (String, String)| (x.0@, x.1@));
    let sym = str_chars(symbol);
    let mut i: usize = settings.len();
    assert(sv.take(i as int) =~= sv);
    while i > 0
        invariant
            sv == settings@.map_values(|x: (String, String)| (x.0@, x.1@)),
            sym@ == symbol@,
            i <= settings.len(),
            strategy_for(sv, symbol@) == strategy_for(sv.take(i as int), symbol@),
        decreases i,
    {
        let key = str_chars(settings[i - 1].0.as_str());
        assert(sv.take(i as int).drop_last() =~= sv.take(i - 1));
        assert(sv.take(i as int).last() == sv[i - 1]);
        if chars_equal(&key, &sym) {
            return Some(settings[i - 1].1.clone());
        }
        i = i - 1;
    }
    None
}

/// What to do for one asset in a fetch cycle.
#[derive(Debug, PartialEq, Eq)]
pub enum FetchPlan {
    /// Fetch it and take the value as the price.
    Fetch,
    /// Fetch it and apply the named strategy.
    FetchWith(String),
    /// The restriction set leaves it out.
    Skip,
    /// It has no symbol.
    SymbolError,
}

/// The plan for `asset`: with no restriction set every asset is fetched;
/// otherwise only listed symbols are, with their strategy.
pub open spec fn plan_spec(asset: Asset, settings: Seq<(Seq<char>, Seq<char>)>) -> Option<
    Option<Option<Seq<char>>>,
> {
    if settings.len() == 0 {
        Some(None)
    } else {
        match asset.symbol_spec() {
            None => None,
            Some(sym) => Some(Some(strategy_for(settings, sym))),
        }
    }
}

/// Decides what to do for `asset` under the restriction set `settings`.
pub fn plan_fetch(asset: Asset, settings: &Vec<(String, String)>) -> (r: FetchPlan)
    ensures
        match plan_spec(asset, settings@.map_values(|x: (String, String)| (x.0@, x.1@))) {
            None => r == FetchPlan::SymbolError,
            Some(None) => r == FetchPlan::Fetch,
            Some(Some(None)) => r == FetchPlan::Skip,
            Some(Some(Some(st))) => r matches FetchPlan::FetchWith(x) && x@ == st,
        },
{
    if settings.len() == 0 {
        return FetchPlan::Fetch;
    }
    match asset.get_symbol() {
        None => FetchPlan::SymbolError,
        Some(sym) => match find_strategy(settings, sym.as_str()) {
            None => FetchPlan::Skip,
            Some(st) => FetchPlan::FetchWith(st),
        },
    }
}

/// The price that a strategy makes of a fetched value: `price` keeps it,
/// `reverse` takes its reciprocal (refused for zero or when it does not
/// fit), anything else is unknown.
pub open spec fn strategy_spec(price: i64, strategy: Seq<char>) -> Result<i64, PriceSourceError> {
    if strategy == "price"@ {
        Ok(price)
    } else if strategy == "reverse"@ {
        match fixed_reciprocal_spec(price) {
            Some(p) => Ok(p),
            None => Err(PriceSourceError::JsonPriceConversionError),
        }
    } else {
        Err(PriceSourceError::UnknownPriceStrategy)
    }
}

/// Applies a price strategy to a fetched value.
pub fn apply_price_strategy(price: i64, strategy: &str) -> (r: Result<i64, PriceSourceError>)
    ensures
        r == strategy_spec(price, strategy@),
{
    let st = str_chars(strategy);
    if chars_equal(&st, &str_chars("price")) {
        return Ok(price);
    }
    if chars_equal(&st, &str_chars("reverse")) {
        return match fixed_reciprocal(price) {
            Some(p) => Ok(p),
            None => Err(PriceSourceError::JsonPriceConversionError),
        };
    }
    Err(PriceSourceError::UnknownPriceStrategy)
}

/// Whether a plan asks for a fetch.
pub fn needs_fetch(plan: &FetchPlan) -> (r: bool)
    ensures
        r == (*plan is Fetch || *plan is FetchWith),
{
    match plan {
        FetchPlan::Fetch => true,
        FetchPlan::FetchWith(_) => true,
        _ => false,
    }
}

/// The entry that a plan gives for its asset, with `fetched` the outcome of
/// the fetch when the plan asks for one: none for a skipped asset, the
/// symbol error, the fetched value, or the fetched value under the plan's
/// strategy.
pub fn settle_fetch(plan: &FetchPlan, fetched: Result<i64, PriceSourceError>) -> (r: Option<
    Result<i64, PriceSourceError>,
>)
    ensures
        match *plan {
            FetchPlan::Skip => r is None,
            FetchPlan::SymbolError => r == Some(
                Err::<i64, PriceSourceError>(PriceSourceError::Symbol),
            ),
            FetchPlan::Fetch => r == Some(fetched),
            FetchPlan::FetchWith(st) => r == Some(
                match fetched {
                    Ok(p) => strategy_spec(p, st@),
                    Err(e) => Err(e),
                },
            ),
        },
{
    match plan {
        FetchPlan::Skip => None,
        FetchPlan::SymbolError => Some(Err(PriceSourceError::Symbol)),
        FetchPlan::Fetch => Some(fetched),
        FetchPlan::FetchWith(st) => Some(
            match fetched {
                Ok(p) => apply_price_strategy(p, st.as_str()),
                Err(e) => Err(e),
            },
        ),
    }
}

/// A configured price source, known by its type name.
pub struct PriceSourceStruct {
    pub source_type: String,
}

impl PriceSourceStruct {
    /// The JSON source, whose type name is `custom`.
    pub fn json() -> (r: PriceSourceStruct)
        ensures
            r.source_type@ == "custom"@,
    {
        PriceSourceStruct { source_type: String::from_str("custom") }
    }
}

/// The first source of `sources` whose type name is exactly `name`.
pub fn select_price_source(name: &str, sources: &Vec<PriceSourceStruct>) -> (r: Option<usize>)
    ensures
        match r {
            Some(i) => i < sources.len() && sources@[i as int].source_type@ == name@ && forall|
                k: int,
            | 0 <= k < i ==> sources@[k].source_type@ != name@,
            None => forall|k: int| 0 <= k < sources.len() ==> sources@[k].source_type@ != name@,
        },
{
    let n = str_chars(name);
    let mut i: usize = 0;
    while i < sources.len()
        invariant
            n@ == name@,
            i <= sources.len(),
            forall|k: int| 0 <= k < i ==> sources@[k].source_type@ != name@,
        decreases sources.len() - i,
    {
        let t = str_chars(sources[i].source_type.as_str());
        if chars_equal(&t, &n) {
            return Some(i);
        }
        i = i + 1;
    }
    None
}

} // verus!
