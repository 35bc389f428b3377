use exchange_rates::currency::{CurrencyProvider, FetchError, Reading};
use exchange_rates::pair::parse_pairs;
use exchange_rates::rate::Rate;
use exchange_rates::registry::Registry;
use exchange_rates::rest::{answer, get_currency, pair_param, respond, route, Response};
use serde_json::{Number, Value};

fn rate_bits(value: f32) -> Rate {
    Rate::from_bits(value.to_bits())
}

fn registry_of(list: &str) -> Registry<CurrencyProvider> {
    Registry::build(parse_pairs(list)).unwrap()
}

/// The JSON object that a response is sent as.
fn json(response: &Response) -> Value {
    let mut object = serde_json::Map::new();
    object.insert("status".to_string(), Value::String(response.status().to_string()));
    if let Some(rate) = response.current_value() {
        let number = Number::from_f64(f64::from(f32::from_bits(rate.to_bits()))).unwrap();
        object.insert("current_value".to_string(), Value::Number(number));
    }
    if let Some(reason) = response.reason() {
        object.insert("reason".to_string(), Value::String(reason.clone()));
    }
    Value::Object(object)
}

fn parsed(text: &str) -> Value {
    serde_json::from_str(text).unwrap()
}

#[test]
fn cold_pair_is_not_yet_available_and_warm_pair_is_ok() {
    let mut registry = registry_of("USD->RUB");
    let before = get_currency(&registry, "pair=USD_RUB");
    assert_eq!(before, Response::NotYetAvailable);
    assert_eq!(json(&before), parsed(r#"{"status":"not_yet_available"}"#));

    let fetched = CurrencyProvider::get_currency_val(
        "RUB",
        Ok(vec![("RUB".to_string(), rate_bits(75.5))]),
    );
    assert!(registry.refresh("USD_RUB", fetched));
    let after = get_currency(&registry, "pair=USD_RUB");
    assert_eq!(after, Response::Available { current_value: rate_bits(75.5) });
    assert_eq!(json(&after), parsed(r#"{"status":"ok","current_value":75.5}"#));
}

#[test]
fn request_without_pair_is_pair_not_provided() {
    let registry = registry_of("USD->RUB");
    for query in ["", "?", "&", "=", "foo=bar", "?foo=bar&baz", "pairs=USD_RUB", "Pair=USD_RUB"] {
        let response = get_currency(&registry, query);
        assert_eq!(response, Response::PairNotProvided, "query {:?}", query);
        assert_eq!(json(&response), parsed(r#"{"status":"pair_not_provided"}"#));
    }
}

#[test]
fn request_for_an_unconfigured_pair_is_pair_not_found() {
    let registry = registry_of("USD->RUB");
    let response = get_currency(&registry, "pair=EUR_JPY");
    assert_eq!(response, Response::PairNotFound);
    assert_eq!(json(&response), parsed(r#"{"status":"pair_not_found"}"#));
    for query in ["pair", "pair=", "=pair", "pair=USD", "pair=usd_rub", "pair=USD_RUB_", "pair=USD->RUB"] {
        assert_eq!(get_currency(&registry, query), Response::PairNotFound, "query {:?}", query);
    }
}

#[test]
fn read_after_a_failed_refresh_still_returns_the_last_value() {
    let mut registry = registry_of("USD->RUB");
    assert!(registry.refresh("USD_RUB", Ok(rate_bits(80.0))));
    assert!(registry.refresh("USD_RUB", Err(FetchError::Network)));
    let response = get_currency(&registry, "pair=USD_RUB");
    assert_eq!(response, Response::Available { current_value: rate_bits(80.0) });
    assert_eq!(json(&response), parsed(r#"{"status":"ok","current_value":80.0}"#));
}

#[test]
fn zero_rate_is_answered_as_ok() {
    let mut registry = registry_of("USD->RUB");
    assert!(registry.refresh("USD_RUB", Ok(rate_bits(0.0))));
    let response = get_currency(&registry, "pair=USD_RUB");
    assert_eq!(json(&response), parsed(r#"{"status":"ok","current_value":0.0}"#));
}

#[test]
fn each_pair_is_answered_from_its_own_entry() {
    let mut registry = registry_of("USD->RUB\nEUR->JPY");
    assert!(registry.refresh("EUR_JPY", Ok(rate_bits(160.25))));
    assert_eq!(get_currency(&registry, "pair=USD_RUB"), Response::NotYetAvailable);
    assert_eq!(
        get_currency(&registry, "pair=EUR_JPY"),
        Response::Available { current_value: rate_bits(160.25) }
    );
}

#[test]
fn query_string_is_read_as_a_query_string() {
    let mut registry = registry_of("USD->RUB");
    assert!(registry.refresh("USD_RUB", Ok(rate_bits(75.5))));
    let ok = Response::Available { current_value: rate_bits(75.5) };
    for query in [
        "pair=USD_RUB",
        "?pair=USD_RUB",
        "&pair=USD_RUB",
        "x=1&pair=USD_RUB",
        "pair=USD_RUB&x=1",
        "pair=USD%5FRUB",
        "pair=%55SD_RU%42",
        "pair=USD_RUB&pair=EUR_JPY",
    ] {
        assert_eq!(get_currency(&registry, query), ok, "query {:?}", query);
    }
}

#[test]
fn pair_param_is_the_value_of_the_parameter() {
    assert_eq!(pair_param("pair=USD_RUB"), Some("USD_RUB".to_string()));
    assert_eq!(pair_param("?a=b&pair=EUR%5FJPY&c"), Some("EUR_JPY".to_string()));
    assert_eq!(pair_param("pair"), Some("".to_string()));
    assert_eq!(pair_param("pair=a=b"), Some("a=b".to_string()));
    assert_eq!(pair_param("pair=a%20b"), Some("a b".to_string()));
    assert_eq!(pair_param(""), None);
    assert_eq!(pair_param("USD_RUB"), None);
    assert_eq!(pair_param("name=pair"), None);
}

#[test]
fn query_string_beyond_ascii_asks_for_no_pair() {
    let registry = registry_of("USD->RUB");
    for query in ["é", "?é=1", "pair=USD_RUB&é=1", "pair=USD_RUB&x=é", "pair=é"] {
        assert_eq!(pair_param(query), None, "query {:?}", query);
        assert_eq!(get_currency(&registry, query), Response::PairNotProvided);
    }
}

#[test]
fn answer_takes_the_key_as_it_is() {
    let mut registry = registry_of("USD->RUB\né->ü");
    assert_eq!(answer(&registry, None), Response::PairNotProvided);
    assert_eq!(answer(&registry, Some("EUR_JPY")), Response::PairNotFound);
    assert_eq!(answer(&registry, Some("USD%5FRUB")), Response::PairNotFound);
    assert_eq!(answer(&registry, Some("USD_RUB")), Response::NotYetAvailable);
    assert_eq!(answer(&registry, Some("é_ü")), Response::NotYetAvailable);
    assert!(registry.refresh("é_ü", Ok(rate_bits(2.5))));
    assert_eq!(answer(&registry, Some("é_ü")), Response::Available { current_value: rate_bits(2.5) });
}

#[test]
fn route_finds_the_entry_without_reading_it() {
    let registry = Registry::assemble(parse_pairs("USD->RUB").into_iter().map(|p| (p, 7)).collect())
        .unwrap();
    assert_eq!(route(&registry, None), Err(Response::PairNotProvided));
    assert_eq!(route(&registry, Some("EUR_JPY")), Err(Response::PairNotFound));
    assert_eq!(route(&registry, Some("USD_RUB")), Ok(&7));
}

#[test]
fn respond_renders_the_reply_of_an_entry() {
    assert_eq!(respond(Ok(Reading::NotYetAvailable)), Response::NotYetAvailable);
    assert_eq!(
        respond(Ok(Reading::Value(rate_bits(75.5)))),
        Response::Available { current_value: rate_bits(75.5) }
    );
    let failed = respond(Err("mailbox closed".to_string()));
    assert_eq!(failed, Response::InternalError { reason: "mailbox closed".to_string() });
    assert_eq!(json(&failed), parsed(r#"{"status":"internal_error","reason":"mailbox closed"}"#));
}

#[test]
fn status_names_the_kind_of_answer() {
    assert_eq!(Response::PairNotProvided.status(), "pair_not_provided");
    assert_eq!(Response::PairNotFound.status(), "pair_not_found");
    assert_eq!(Response::NotYetAvailable.status(), "not_yet_available");
    assert_eq!(Response::Available { current_value: rate_bits(1.0) }.status(), "ok");
    assert_eq!(Response::InternalError { reason: String::new() }.status(), "internal_error");
}

#[test]
fn only_an_ok_answer_has_a_value_and_only_an_error_a_reason() {
    let ok = Response::Available { current_value: rate_bits(75.5) };
    let failed = Response::InternalError { reason: "why".to_string() };
    assert_eq!(ok.current_value(), Some(rate_bits(75.5)));
    assert_eq!(ok.reason(), None);
    assert_eq!(failed.current_value(), None);
    assert_eq!(failed.reason(), Some(&"why".to_string()));
    for plain in [Response::PairNotProvided, Response::PairNotFound, Response::NotYetAvailable] {
        assert_eq!(plain.current_value(), None);
        assert_eq!(plain.reason(), None);
    }
}

#[test]
fn internal_error_is_sent_as_a_server_error() {
    assert_eq!(Response::InternalError { reason: "why".to_string() }.http_status(), 500);
    assert_eq!(Response::PairNotProvided.http_status(), 200);
    assert_eq!(Response::PairNotFound.http_status(), 200);
    assert_eq!(Response::NotYetAvailable.http_status(), 200);
    assert_eq!(Response::Available { current_value: rate_bits(75.5) }.http_status(), 200);
}
