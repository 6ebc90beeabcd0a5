use eq_oracle::asset::{AsSymbol, Asset, AssetError};
use eq_oracle::json::{fetch_price_from_json, parse_price_text, price_from_json_value, JsonEntry, JsonValue};
use eq_oracle::query::{prepare_request, PriceSourceError};
use eq_oracle::source::{
    apply_price_strategy, get_asset_settings, needs_fetch, plan_fetch, select_price_source,
    settle_fetch, FetchPlan, PriceSourceStruct,
};

const BTC: Asset = Asset(0x627463);
const ETH: Asset = Asset(0x657468);

fn fixed(price: f64) -> i64 {
    (price * 1_000_000_000f64) as i64
}

fn read(body: &str, path: &str) -> Result<i64, PriceSourceError> {
    fetch_price_from_json(body.to_string(), path)
}

#[test]
fn check_json_reader() {
    assert_eq!(read("", "USD"), Err(PriceSourceError::DeserializationError));
    assert_eq!(read("rtdfgfdgfdgf", "USD"), Err(PriceSourceError::DeserializationError));
    assert_eq!(read("{USD:2.98}", "USD"), Err(PriceSourceError::DeserializationError));
    assert_eq!(read("{\"USD\":'2.98'}", "USD"), Err(PriceSourceError::DeserializationError));

    let val = fixed(2.98);
    assert_eq!(read("{\"USD\":2.98}", "USD"), Ok(val));
    assert_eq!(read("{\"USD\":\"2.98\"}", "USD"), Ok(val));
    assert_eq!(read("{\"price\":\"2.98\"}", "USD"), Err(PriceSourceError::JsonParseError));
    assert_eq!(read("{\"price\":\"2.98\"}", "USD"), Err(PriceSourceError::JsonParseError));
    assert_eq!(read("{\"price\": {\"last\": \"2.98\"}}", "price.last"), Ok(val));
    assert_eq!(read("{\"price\": [\"3.46\", \"2.98\"]}", "price[1]"), Ok(val));
    assert_eq!(read("{\"price\": {\"last\": [\"2.98\"]}}", "price.last[0]"), Ok(val));
    assert_eq!(read("[\"2.98\"]", "[0]"), Ok(val));
    assert_eq!(
        read("{\"data\": [ {\"data\": [ { \"price\": \"2.98\" } ] } ] }", "data[0].data[0].price"),
        Ok(val)
    );
}

#[test]
fn url_symbol_case() {
    let huobi_url_template = "https://api.huobi.pro/market/history/trade?symbol={$}usdt&size=1";
    let huobi_url = BTC.get_url(huobi_url_template, "");
    assert!(huobi_url.is_ok());
    assert_eq!(
        huobi_url.unwrap().0,
        "https://api.huobi.pro/market/history/trade?symbol=btcusdt&size=1"
    );

    let kraken_url_template = "https://api.kraken.com/0/public/Ticker?pair={$}USD";
    let kraken_url = BTC.get_url(kraken_url_template, "");
    assert!(kraken_url.is_ok());
    assert_eq!(kraken_url.unwrap().0, "https://api.kraken.com/0/public/Ticker?pair=XXBTZUSD");
}

#[test]
fn json_leaf_kinds() {
    assert_eq!(read("{\"a\": true}", "a"), Err(PriceSourceError::JsonValueNotANumber));
    assert_eq!(read("{\"a\": null}", "a"), Err(PriceSourceError::JsonValueNotANumber));
    assert_eq!(read("{\"a\": \"abc\"}", "a"), Err(PriceSourceError::JsonPriceConversionError));
    assert_eq!(read("{\"a\": 45000}", "a"), Ok(45_000_000_000_000));
    assert_eq!(read("{\"a\": 0.00000123}", "a"), Ok(1_230));
    assert_eq!(read("{\"a\": 2.5e20}", "a"), Ok(i64::MAX));
    assert_eq!(read("{\"a\": [1, 2]}", "a[2]"), Err(PriceSourceError::JsonParseError));
    assert_eq!(read("{\"a\": [[1, 2], [3, 4]]}", "a[1][0]"), Ok(3_000_000_000));
    assert_eq!(read("{\"a\": {\"0\": 5}}", "a[0]"), Err(PriceSourceError::JsonParseError));
}

#[test]
fn json_value_walk_by_hand() {
    let v = JsonValue::Object(vec![JsonEntry {
        key: "last".to_string(),
        value: JsonValue::Array(vec![JsonValue::Text("0.5".to_string())]),
    }]);
    assert_eq!(price_from_json_value(&v, "last[0]"), Ok(500_000_000));
    assert_eq!(price_from_json_value(&v, "last"), Err(PriceSourceError::JsonValueNotANumber));
    assert_eq!(price_from_json_value(&v, "first[0]"), Err(PriceSourceError::JsonParseError));
}

#[test]
fn decimal_text_conversion() {
    assert_eq!(parse_price_text("2.98"), Some(2_980_000_000));
    assert_eq!(parse_price_text("5."), Some(5_000_000_000));
    assert_eq!(parse_price_text(".5"), Some(500_000_000));
    assert_eq!(parse_price_text("+7"), Some(7_000_000_000));
    assert_eq!(parse_price_text("-1"), Some(0));
    assert_eq!(parse_price_text("0.0000000019"), Some(1));
    assert_eq!(parse_price_text("99999999999999999999999"), Some(i64::MAX));
    assert_eq!(parse_price_text("."), None);
    assert_eq!(parse_price_text(""), None);
    assert_eq!(parse_price_text("1e5"), Some(100_000_000_000_000));
    assert_eq!(parse_price_text("1E+2"), Some(100_000_000_000));
    assert_eq!(parse_price_text("1.23e-6"), Some(1_230));
    assert_eq!(parse_price_text("5e-13"), Some(0));
    assert_eq!(parse_price_text("1e99999999999999999999999999999999999"), Some(i64::MAX));
    assert_eq!(parse_price_text("0e99999999999999999999999999999999999"), Some(0));
    assert_eq!(parse_price_text("7e-99999999999999999999999999999999999"), Some(0));
    assert_eq!(parse_price_text("1e"), None);
    assert_eq!(parse_price_text("e5"), None);
    assert_eq!(parse_price_text("1.2.3"), None);
}

#[test]
fn query_becomes_request() {
    let query = "json(https://ftx.com/api/markets/{$}/USD).result.price";
    let (url, path) = prepare_request(ETH, query).unwrap();
    assert_eq!(url, "https://ftx.com/api/markets/ETH/USD");
    assert_eq!(path, "result.price");
    assert_eq!(prepare_request(ETH, "json(https://x/a).b"), Err(PriceSourceError::WrongUrlPattern));
    assert_eq!(prepare_request(ETH, "https://x/{$}"), Err(PriceSourceError::IncorrectQueryFormat));
    let (url, path) = prepare_request(BTC, "f(https://h/{$}).data.{$}").unwrap();
    assert_eq!(url, "https://h/btc");
    assert_eq!(path, "data.btc");
}

#[test]
fn asset_names_round_trip() {
    let a = Asset::from_bytes(b"BtC".to_vec()).unwrap();
    assert_eq!(a, BTC);
    assert_eq!(a.to_str_bytes(), b"btc".to_vec());
    assert_eq!(a.get_symbol(), Some("btc".to_string()));
    assert_eq!(a.get_query_symbol(true), Some("xxbtz".to_string()));
    assert_eq!(ETH.get_query_symbol(true), Some("xethz".to_string()));
    assert_eq!(ETH.get_query_symbol(false), Some("eth".to_string()));
    let long = Asset::from_bytes(b"abcdefgh".to_vec()).unwrap();
    assert_eq!(long.to_str_bytes(), b"abcdefgh".to_vec());
    assert_eq!(long.0, 0x6162636465666768);
    assert!(matches!(
        Asset::from_bytes(b"abcdefghi".to_vec()),
        Err(AssetError::AssetNameWrongLength)
    ));
    assert!(matches!(Asset::from_bytes(Vec::new()), Err(AssetError::AssetNameWrongLength)));
    assert!(matches!(Asset::from_bytes(b"a-b".to_vec()), Err(AssetError::AssetNameWrongSymbols)));
    let mut bytes = b"Ab1".to_vec();
    assert!(Asset::lower_case(&mut bytes));
    assert_eq!(bytes, b"ab1".to_vec());
}

#[test]
fn restriction_set_and_strategies() {
    let settings = get_asset_settings(" BTC : Reverse ,eth,USDT:price");
    assert_eq!(
        settings,
        vec![
            ("btc".to_string(), "reverse".to_string()),
            ("eth".to_string(), "price".to_string()),
            ("usdt".to_string(), "price".to_string()),
        ]
    );
    assert_eq!(plan_fetch(BTC, &settings), FetchPlan::FetchWith("reverse".to_string()));
    assert_eq!(plan_fetch(Asset(0x646F74), &settings), FetchPlan::Skip);
    assert_eq!(plan_fetch(BTC, &vec![]), FetchPlan::Fetch);
    let later = get_asset_settings("btc:price,btc:reverse");
    assert_eq!(plan_fetch(BTC, &later), FetchPlan::FetchWith("reverse".to_string()));

    assert_eq!(apply_price_strategy(2_000_000_000, "price"), Ok(2_000_000_000));
    assert_eq!(apply_price_strategy(2_000_000_000, "reverse"), Ok(500_000_000));
    assert_eq!(apply_price_strategy(0, "reverse"), Err(PriceSourceError::JsonPriceConversionError));
    assert_eq!(apply_price_strategy(1, "double"), Err(PriceSourceError::UnknownPriceStrategy));
}

#[test]
fn fetch_plans_settle() {
    let reverse = FetchPlan::FetchWith("reverse".to_string());
    assert!(needs_fetch(&reverse) && needs_fetch(&FetchPlan::Fetch));
    assert!(!needs_fetch(&FetchPlan::Skip) && !needs_fetch(&FetchPlan::SymbolError));
    assert_eq!(settle_fetch(&reverse, Ok(4_000_000_000)), Some(Ok(250_000_000)));
    assert_eq!(settle_fetch(&reverse, Err(PriceSourceError::HttpError)), Some(Err(PriceSourceError::HttpError)));
    assert_eq!(settle_fetch(&FetchPlan::Fetch, Ok(7)), Some(Ok(7)));
    assert_eq!(settle_fetch(&FetchPlan::Skip, Ok(7)), None);
    assert_eq!(settle_fetch(&FetchPlan::SymbolError, Ok(7)), Some(Err(PriceSourceError::Symbol)));
}

#[test]
fn source_type_selection() {
    let sources = vec![
        PriceSourceStruct { source_type: "pancake".to_string() },
        PriceSourceStruct::json(),
    ];
    assert_eq!(select_price_source("custom", &sources), Some(1));
    assert_eq!(select_price_source("Custom", &sources), None);
}
