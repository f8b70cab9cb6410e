use blink::http::HttpResponse;
use blink::price::{binance_price_path, price_field, price_text, Asset, FetchError, ALL_ASSETS};

fn parse_price_json(body: &str) -> Option<f64> {
    price_field(body).and_then(|s| s.parse().ok())
}

#[test]
fn btc_symbol_and_name() {
    assert_eq!(Asset::Btc.binance_symbol(), "BTCUSDT");
    assert_eq!(Asset::Btc.display_name(), "BTC");
}

#[test]
fn ckb_symbol_and_name() {
    assert_eq!(Asset::Ckb.binance_symbol(), "CKBUSDT");
    assert_eq!(Asset::Ckb.display_name(), "CKB");
}

#[test]
fn gold_uses_paxg_proxy() {
    assert_eq!(Asset::Gold.binance_symbol(), "PAXGUSDT");
    assert_eq!(Asset::Gold.display_name(), "GOLD");
}

#[test]
fn binance_price_path_includes_symbol() {
    let path = binance_price_path("BTCUSDT");
    assert_eq!(path.as_str(), "/api/v3/ticker/price?symbol=BTCUSDT");
}

#[test]
fn parse_valid_binance_response() {
    let body = r#"{"symbol":"BTCUSDT","price":"65432.10"}"#;
    assert_eq!(parse_price_json(body), Some(65432.10));
}

#[test]
fn parse_invalid_response_returns_none() {
    assert_eq!(parse_price_json("not json"), None);
}

#[test]
fn parse_reversed_field_order() {
    let body = r#"{"price":"65432.10","symbol":"BTCUSDT"}"#;
    assert_eq!(parse_price_json(body), Some(65432.10));
}

#[test]
fn parse_tolerates_whitespace() {
    let body = r#"{ "symbol" : "BTCUSDT", "price" : "65432.10" }"#;
    assert_eq!(parse_price_json(body), Some(65432.10));
}

#[test]
fn parse_ignores_price_substring_in_other_string() {
    // The literal "price":" must not match inside the symbol value.
    let body = r#"{"symbol":"PRICEUSDT","price":"123.45"}"#;
    assert_eq!(parse_price_json(body), Some(123.45));
}

#[test]
fn parse_unclosed_string_in_non_price_field_returns_none() {
    // A malformed non-price string value should cause the parser to fail
    // instead of silently skipping it.
    let body = r#"{"symbol":"BTCUSDT"#;
    assert_eq!(parse_price_json(body), None);
}

#[test]
fn parse_unclosed_string_as_price_value_returns_none() {
    let body = r#"{"price":"123.45"#;
    assert_eq!(parse_price_json(body), None);
}

#[test]
fn asset_index_matches_all_assets_order() {
    assert_eq!(Asset::Btc.index(), 0);
    assert_eq!(Asset::Ckb.index(), 1);
    assert_eq!(Asset::Gold.index(), 2);
}

#[test]
fn all_assets_in_index_order() {
    for (i, a) in ALL_ASSETS.iter().enumerate() {
        assert_eq!(a.index(), i);
    }
}

#[test]
fn price_field_skips_nested_values() {
    let body = r#" {"a":{"b":[1, 2, {"c":"}"}], "d":true},"e":[],"f":null,"g":false,"h":-1.5e3,"price":"7"}"#;
    assert_eq!(price_field(body), Some("7"));
    // Escaped quotes stay part of the string.
    assert_eq!(price_field(r#"{"x":"a\"b","price":"1\"2"}"#), Some(r#"1\"2"#));
    // A trailing comma inside a nested object is tolerated.
    assert_eq!(price_field(r#"{"x":{"y":1,},"price":"3"}"#), Some("3"));
    // Unicode whitespace counts as whitespace.
    assert_eq!(price_field("\u{3000}{\u{a0}\"price\"\u{2003}:\"4\"}"), Some("4"));
}

#[test]
fn price_field_rejects_malformed_objects() {
    assert_eq!(price_field(""), None);
    assert_eq!(price_field("{}"), None);
    assert_eq!(price_field(r#"{"symbol":"BTC"}"#), None);
    assert_eq!(price_field(r#"{"symbol" "BTC","price":"1"}"#), None);
    assert_eq!(price_field(r#"{"x":tru,"price":"1"}"#), None);
    assert_eq!(price_field(r#"{"x":,"price":"1"}"#), None);
    assert_eq!(price_field(r#"{"x":1 "price":"1"}"#), None);
    assert_eq!(price_field(r#"{"price":1}"#), None);
    assert_eq!(price_field(r#"{"x":"\"#), None);
}

#[test]
fn price_field_non_numeric_price_parses_to_none() {
    assert_eq!(price_field(r#"{"price":"abc"}"#), Some("abc"));
    assert_eq!(parse_price_json(r#"{"price":"abc"}"#), None);
}

#[test]
fn fetch_error_wraps_http_error() {
    let e = FetchError::Http(blink::http::HttpError::TlsFailed);
    assert_ne!(e, FetchError::ParseError);
    assert_eq!(FetchError::BadStatus(404), FetchError::BadStatus(404));
}

#[test]
fn price_text_from_ticker_response() {
    let body = br#"{"symbol":"BTCUSDT","price":"63617.99000000"}xyz"#;
    let ok = HttpResponse { status_code: 200, body_len: 45 };
    assert_eq!(price_text(&ok, body), Ok("63617.99000000"));
    let missing = HttpResponse { status_code: 200, body_len: 20 };
    assert_eq!(price_text(&missing, body), Err(FetchError::ParseError));
    let bad = HttpResponse { status_code: 503, body_len: 45 };
    assert_eq!(price_text(&bad, body), Err(FetchError::BadStatus(503)));
    let not_utf8 = [b'{', 0xff, b'}'];
    let resp = HttpResponse { status_code: 200, body_len: 3 };
    assert_eq!(price_text(&resp, &not_utf8), Err(FetchError::ParseError));
}
