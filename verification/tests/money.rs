use pricewatch::price::PriceUSD;

#[test]
fn money_new_counts_cents() {
    assert_eq!(PriceUSD::new(12, 34).cents(), 1234);
    assert_eq!(PriceUSD::new(0, 5).cents(), 5);
    assert_eq!(PriceUSD::new(-3, 25).cents(), -275);
}

#[test]
fn money_parse_dollar_form() {
    assert_eq!(PriceUSD::parse("$12.34").unwrap().cents(), 1234);
    assert_eq!(PriceUSD::parse("12.34").unwrap().cents(), 1234);
    assert_eq!(PriceUSD::parse("$7").unwrap().cents(), 700);
    assert_eq!(PriceUSD::parse("$0.5").unwrap().cents(), 5);
}

#[test]
fn money_parse_rejects_bad_text() {
    assert!(PriceUSD::parse("").is_err());
    assert!(PriceUSD::parse("$").is_err());
    assert!(PriceUSD::parse("abc").is_err());
    assert!(PriceUSD::parse("$12.").is_err());
    assert!(PriceUSD::parse("$12.999").is_err());
    assert!(PriceUSD::parse("$12.3x").is_err());
}

#[test]
fn money_round_trip() {
    for cents in [0i64, 5, 99, 100, 1234, 1205, 99999] {
        let p = PriceUSD::from_cents(cents);
        let text = p.to_text();
        assert_eq!(PriceUSD::parse(&text).unwrap().cents(), cents);
    }
    assert_eq!(PriceUSD::from_cents(1234).to_text(), "$12.34");
    assert_eq!(PriceUSD::from_cents(1205).to_text(), "$12.05");
    assert_eq!(PriceUSD::parse(&PriceUSD::parse("$12.34").unwrap().to_text()).unwrap().cents(), 1234);
}

#[test]
fn money_orders_by_cents() {
    assert!(PriceUSD::from_cents(100) < PriceUSD::from_cents(200));
    assert!(PriceUSD::from_cents(-5) < PriceUSD::from_cents(0));
    let mut prices = vec![
        PriceUSD::from_cents(500),
        PriceUSD::from_cents(100),
        PriceUSD::from_cents(300),
    ];
    prices.sort();
    let cents: Vec<i64> = prices.iter().map(|p| p.cents()).collect();
    assert_eq!(cents, vec![100, 300, 500]);
}

#[test]
fn money_parse_at_the_representable_edge() {
    // The largest representable price is i64::MAX cents; one more must fail.
    assert_eq!(
        PriceUSD::parse("$92233720368547758.07").unwrap().cents(),
        i64::MAX
    );
    assert!(PriceUSD::parse("$92233720368547758.08").is_err());
    assert!(PriceUSD::parse("$92233720368547759").is_err());
}
