use pricewatch::condition::Condition;

#[test]
fn condition_canonical_strings() {
    assert_eq!(Condition::parse("New").unwrap(), Condition::New);
    assert_eq!(Condition::parse("Used - Renewed").unwrap(), Condition::Renewed);
    assert_eq!(Condition::parse("Used - Like New").unwrap(), Condition::UsedLikeNew);
    assert_eq!(Condition::parse("Used - Very Good").unwrap(), Condition::UsedVeryGood);
    assert_eq!(Condition::parse("Used - Good").unwrap(), Condition::UsedGood);
    assert_eq!(Condition::parse("Used - Acceptable").unwrap(), Condition::UsedAcceptable);
}

#[test]
fn condition_tolerates_whitespace() {
    assert_eq!(Condition::parse("  New  ").unwrap(), Condition::New);
    assert_eq!(Condition::parse("Used \n   - Good").unwrap(), Condition::UsedGood);
    assert_eq!(Condition::parse("\u{a0}New\u{a0}").unwrap(), Condition::New);
}

#[test]
fn condition_rejects_unknown() {
    assert!(Condition::parse("Mint").is_err());
    assert!(Condition::parse("").is_err());
    assert!(Condition::parse("new").is_err());
    assert!(Condition::parse("Used - Pristine").is_err());
}
