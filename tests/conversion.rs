use currency_converter::{
    find_currency, init_currencies, Amount, ConversionError, Currency, Quantity,
};

fn amount(num: i128, den: i128, currency: &str) -> Amount {
    Amount { quantity: Quantity { num, den }, currency: currency.to_string() }
}

fn same_value(a: Quantity, b: Quantity) -> bool {
    a.num * b.den == b.num * a.den
}

#[test]
fn twenty_dollars_in_tenge() {
    let table = init_currencies();
    let kzt = find_currency("KZT", &table).unwrap();
    let r = Currency::convert(amount(20, 1, "USD"), kzt, &table).unwrap();
    assert_eq!(r, Quantity { num: 200000, den: 22 });
    let v = r.num as f64 / r.den as f64;
    assert!((v - 20.0 * (1.0 / 0.0022)).abs() < 1e-6);
    assert!((v - 9090.91).abs() < 0.01);
}

#[test]
fn converting_to_the_same_currency_keeps_the_value() {
    let table = init_currencies();
    for i in 0..table.len() {
        let c = table.get(i);
        for (num, den) in [(0, 1), (20, 1), (-7, 2), (155, 10), (-1, 3)] {
            let q = Quantity { num, den };
            let r = Currency::convert(amount(num, den, &c.code), c, &table).unwrap();
            assert!(same_value(r, q), "{} {:?}", c.code, r);
        }
    }
}

#[test]
fn round_trip_gives_the_same_value() {
    let table = init_currencies();
    for i in 0..table.len() {
        for j in 0..table.len() {
            let a = table.get(i);
            let b = table.get(j);
            let q = Quantity { num: -15, den: 4 };
            let x = Currency::convert(amount(q.num, q.den, &a.symbol), b, &table).unwrap();
            let back = Amount { quantity: x, currency: b.name.clone() };
            let y = Currency::convert(back, a, &table).unwrap();
            assert!(same_value(y, q));
        }
    }
}

#[test]
fn euros_in_pounds() {
    let table = init_currencies();
    let gbp = find_currency("gbp", &table).unwrap();
    let r = Currency::convert(amount(100, 1, "euro"), gbp, &table).unwrap();
    assert_eq!(r, Quantity { num: 1070000, den: 12700 });
}

#[test]
fn unknown_source_currency_is_reported() {
    let table = init_currencies();
    let usd = find_currency("usd", &table).unwrap();
    let r = Currency::convert(amount(1, 1, "XYZ"), usd, &table);
    assert_eq!(r, Err(ConversionError::UnknownSourceCurrency("XYZ".to_string())));
}

#[test]
fn oversized_quantity_overflows() {
    let table = init_currencies();
    let usd = find_currency("usd", &table).unwrap();
    let r = Currency::convert(amount(i128::MAX, 1, "EUR"), usd, &table);
    assert_eq!(r, Err(ConversionError::Overflow));
    let r = Currency::convert(amount(1, i128::MAX, "EUR"), usd, &table);
    assert_eq!(r, Err(ConversionError::Overflow));
}

#[test]
fn whole_numbers() {
    assert_eq!(Quantity::whole(-4), Quantity { num: -4, den: 1 });
}
