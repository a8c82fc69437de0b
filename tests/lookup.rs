use currency_converter::{find_currency, init_currencies, Currency, CurrencyTable};

fn at<'a>(table: &'a CurrencyTable, i: usize) -> &'a Currency {
    table.get(i)
}

#[test]
fn table_holds_six_currencies_with_one_base() {
    let table = init_currencies();
    assert_eq!(table.len(), 6);
    let codes: Vec<&str> = (0..6).map(|i| at(&table, i).code.as_str()).collect();
    assert_eq!(codes, vec!["USD", "KZT", "EUR", "JPY", "GBP", "RUB"]);
    let rates: Vec<u32> = (0..6).map(|i| at(&table, i).rate).collect();
    assert_eq!(rates, vec![10000, 22, 10700, 64, 12700, 100]);
    assert_eq!(rates.iter().filter(|&&r| r == currency_converter::BASE_RATE).count(), 1);
}

#[test]
fn every_currency_is_found_by_code_name_and_symbol() {
    let table = init_currencies();
    for i in 0..table.len() {
        let c = at(&table, i);
        let aliases = vec![
            c.code.clone(),
            c.code.to_lowercase(),
            c.name.clone(),
            c.name.to_lowercase(),
            c.name.to_uppercase(),
            c.symbol.clone(),
        ];
        for a in aliases {
            let found = find_currency(&a, &table).expect("alias should be found");
            assert_eq!(found.code, c.code, "alias {}", a);
        }
    }
}

#[test]
fn mixed_case_names_are_found() {
    let table = init_currencies();
    assert_eq!(find_currency("us dollar", &table).unwrap().code, "USD");
    assert_eq!(find_currency("jApAnEsE yEn", &table).unwrap().code, "JPY");
    assert_eq!(find_currency("\u{20b8}", &table).unwrap().code, "KZT");
    assert_eq!(find_currency("\u{20ac}", &table).unwrap().code, "EUR");
    assert_eq!(find_currency("\u{a3}", &table).unwrap().code, "GBP");
    assert_eq!(find_currency("\u{a5}", &table).unwrap().code, "JPY");
    assert_eq!(find_currency("\u{20bd}", &table).unwrap().code, "RUB");
    assert_eq!(find_currency("$", &table).unwrap().code, "USD");
}

#[test]
fn unknown_alias_is_not_found() {
    let table = init_currencies();
    assert!(find_currency("XYZ", &table).is_none());
    assert!(find_currency("", &table).is_none());
    assert!(find_currency("usd ", &table).is_none());
    assert!(find_currency("dollar", &table).is_none());
}

#[test]
fn currency_new_keeps_its_fields() {
    let c = Currency::new("Swiss Franc", 11300, "CHF", "Fr");
    assert_eq!(c.name, "Swiss Franc");
    assert_eq!(c.rate, 11300);
    assert_eq!(c.code, "CHF");
    assert_eq!(c.symbol, "Fr");
    assert!(c.is_named("chf"));
    assert!(c.is_named("SWISS FRANC"));
    assert!(c.is_named("fr"));
    assert!(!c.is_named("franc"));
}

#[test]
fn table_from_distinct_records() {
    let records = vec![
        Currency::new("US Dollar", 10000, "USD", "$"),
        Currency::new("Swiss Franc", 11300, "CHF", "Fr"),
    ];
    let table = CurrencyTable::from_records(records).expect("aliases are distinct");
    assert_eq!(table.len(), 2);
    assert_eq!(find_currency("fr", &table).unwrap().code, "CHF");
    assert_eq!(find_currency("us DOLLAR", &table).unwrap().code, "USD");
}

#[test]
fn table_rejects_shared_alias() {
    let records = vec![
        Currency::new("US Dollar", 10000, "USD", "$"),
        Currency::new("Canadian Dollar", 7300, "CAD", "$"),
    ];
    assert!(CurrencyTable::from_records(records).is_none());
    let records = vec![
        Currency::new("Peso", 500, "MXN", "mx"),
        Currency::new("MX", 600, "XXX", "x"),
    ];
    assert!(CurrencyTable::from_records(records).is_none());
}

#[test]
fn table_rejects_zero_rate() {
    let records = vec![Currency { name: "Nothing".to_string(), rate: 0, code: "NIL".to_string(), symbol: "0".to_string() }];
    assert!(CurrencyTable::from_records(records).is_none());
}
