use exchange_rates::currency::{CurrencyProvider, FetchError, Reading, Status};
use exchange_rates::pair::{parse_pairs, Pair};
use exchange_rates::rate::Rate;
use exchange_rates::registry::{ConfigError, Registry};

fn rate_of(value: f32) -> Rate {
    Rate::from_bits(value.to_bits())
}

fn pair(base: &str, quote: &str) -> Pair {
    Pair::new(base.to_string(), quote.to_string())
}

#[test]
fn build_fails_on_an_empty_list() {
    assert_eq!(Registry::build(Vec::new()).unwrap_err(), ConfigError::Empty);
    assert_eq!(Registry::build(parse_pairs("no pairs here\n")).unwrap_err(), ConfigError::Empty);
    assert_eq!(Registry::<u8>::assemble(Vec::new()).unwrap_err(), ConfigError::Empty);
}

#[test]
fn build_fails_on_a_pair_with_an_empty_code() {
    assert_eq!(Registry::build(vec![pair("", "RUB")]).unwrap_err(), ConfigError::Malformed);
    assert_eq!(Registry::build(vec![pair("USD", "")]).unwrap_err(), ConfigError::Malformed);
    assert_eq!(
        Registry::build(vec![pair("USD", "RUB"), pair("", ""), pair("EUR", "JPY")]).unwrap_err(),
        ConfigError::Malformed
    );
    assert_eq!(Registry::build(parse_pairs("USD->RUB\n->JPY")).unwrap_err(), ConfigError::Malformed);
    assert_eq!(
        Registry::assemble(vec![(pair("USD", "RUB"), 1), (pair("EUR", ""), 2)]).unwrap_err(),
        ConfigError::Malformed
    );
}

#[test]
fn build_makes_one_cold_entry_per_pair() {
    let registry = Registry::build(parse_pairs("USD->RUB\nEUR->JPY\n")).unwrap();
    for (key, base, quote) in [("USD_RUB", "USD", "RUB"), ("EUR_JPY", "EUR", "JPY")] {
        let entry = registry.lookup(key).unwrap();
        assert_eq!(entry.base(), base);
        assert_eq!(entry.quote(), quote);
        assert_eq!(entry.status(), Status::Cold);
        assert_eq!(entry.read(), Reading::NotYetAvailable);
    }
}

#[test]
fn lookup_of_an_unconfigured_key_finds_nothing() {
    let mut registry = Registry::build(vec![pair("USD", "RUB")]).unwrap();
    for key in ["EUR_JPY", "USD", "RUB", "USD_RUB_", "usd_rub", "USD->RUB", "RUB_USD", ""] {
        assert!(registry.lookup(key).is_none(), "key {:?}", key);
    }
    registry.refresh("USD_RUB", Ok(rate_of(75.5)));
    registry.refresh("EUR_JPY", Ok(rate_of(1.0)));
    for key in ["EUR_JPY", "USD", "RUB", "USD_RUB_", "usd_rub", "USD->RUB", "RUB_USD", ""] {
        assert!(registry.lookup(key).is_none(), "key {:?}", key);
    }
    assert!(registry.lookup("USD_RUB").is_some());
}

#[test]
fn refresh_reaches_the_entry_of_the_key_only() {
    let mut registry = Registry::build(parse_pairs("USD->RUB\nEUR->JPY")).unwrap();
    assert!(registry.refresh("USD_RUB", Ok(rate_of(75.5))));
    assert_eq!(registry.lookup("USD_RUB").unwrap().read(), Reading::Value(rate_of(75.5)));
    assert_eq!(registry.lookup("EUR_JPY").unwrap().read(), Reading::NotYetAvailable);
    assert!(registry.refresh("EUR_JPY", Ok(rate_of(160.0))));
    assert_eq!(registry.lookup("USD_RUB").unwrap().read(), Reading::Value(rate_of(75.5)));
    assert_eq!(registry.lookup("EUR_JPY").unwrap().read(), Reading::Value(rate_of(160.0)));
}

#[test]
fn refresh_of_an_unconfigured_key_changes_nothing() {
    let mut registry = Registry::build(vec![pair("USD", "RUB")]).unwrap();
    assert!(!registry.refresh("EUR_JPY", Ok(rate_of(1.0))));
    assert!(registry.lookup("EUR_JPY").is_none());
    assert_eq!(registry.lookup("USD_RUB").unwrap().read(), Reading::NotYetAvailable);
}

#[test]
fn failed_refresh_through_the_registry_keeps_the_value() {
    let mut registry = Registry::build(vec![pair("USD", "RUB")]).unwrap();
    assert!(registry.refresh("USD_RUB", Ok(rate_of(80.0))));
    assert!(registry.refresh("USD_RUB", Err(FetchError::Network)));
    assert_eq!(registry.lookup("USD_RUB").unwrap().read(), Reading::Value(rate_of(80.0)));
}

#[test]
fn assemble_maps_each_key_to_its_entry() {
    let registry =
        Registry::assemble(vec![(pair("USD", "RUB"), 'a'), (pair("EUR", "JPY"), 'b')]).unwrap();
    assert_eq!(registry.lookup("USD_RUB"), Some(&'a'));
    assert_eq!(registry.lookup("EUR_JPY"), Some(&'b'));
    assert_eq!(registry.lookup("GBP_CHF"), None);
}

#[test]
fn later_pair_with_the_same_key_counts() {
    let registry = Registry::assemble(vec![
        (pair("USD", "RUB"), 1),
        (pair("EUR", "JPY"), 2),
        (pair("USD", "RUB"), 3),
    ])
    .unwrap();
    assert_eq!(registry.lookup("USD_RUB"), Some(&3));
    assert_eq!(registry.lookup("EUR_JPY"), Some(&2));
}

#[test]
fn pairs_that_share_a_key_share_an_entry() {
    let registry = Registry::build(vec![pair("A_B", "C"), pair("A", "B_C")]).unwrap();
    let entry: &CurrencyProvider = registry.lookup("A_B_C").unwrap();
    assert_eq!(entry.base(), "A");
    assert_eq!(entry.quote(), "B_C");
}
