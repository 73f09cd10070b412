use currency_rs::{
    allow_negative_values, convert_any_decimal_values, format_dollar, format_dollar_group,
    format_dollar_vedic, normalize, replace_any_non_numeric_values, Currency, CurrencyErr,
    CurrencyOpts, Decimal,
};

fn d(s: &str) -> Decimal {
    Decimal::parse(s).unwrap()
}

fn units(cs: &[Currency]) -> Vec<i128> {
    cs.iter().map(|c| c.int_value()).collect()
}

#[test]
fn amount_is_scaled_and_rounded_half_away() {
    let c = Currency::new_float(d("1.23456"), None);
    assert_eq!(c.int_value(), 123);
    let c = Currency::new_float(d("-0.125"), None);
    assert_eq!(c.int_value(), -13);
    let opts = CurrencyOpts::new().set_precision(3);
    let c = Currency::new_float(d("2.0005"), Some(opts));
    assert_eq!(c.int_value(), 2001);
}

#[test]
fn cleanup_to_four_decimals_comes_before_rounding() {
    let c = Currency::new_float(d("0.004999999"), None);
    assert_eq!(c.int_value(), 1);
    let c = Currency::new_float(d("0.00499"), None);
    assert_eq!(c.int_value(), 0);
}

#[test]
fn distribution_adds_up_exactly() {
    let parts = Currency::new_float(d("1.00"), None).distribute(3);
    assert_eq!(units(&parts), vec![34, 33, 33]);
    assert_eq!(units(&parts).iter().sum::<i128>(), 100);

    let parts = Currency::new_float(d("-1.00"), None).distribute(3);
    assert_eq!(units(&parts), vec![-34, -33, -33]);
    assert_eq!(units(&parts).iter().sum::<i128>(), -100);

    let parts = Currency::new_float(d("0.07"), None).distribute(10);
    assert_eq!(parts.len(), 10);
    assert_eq!(units(&parts).iter().sum::<i128>(), 7);
}

#[test]
fn distribution_by_a_negative_count_has_that_many_parts() {
    let parts = Currency::new_float(d("1.00"), None).distribute(-4);
    assert_eq!(parts.len(), 4);
    assert_eq!(units(&parts), vec![25, 25, 25, 25]);
    let parts = Currency::new_float(d("1.00"), None).distribute(-3);
    assert_eq!(units(&parts), vec![34, 33, 33]);
    assert_eq!(units(&parts).iter().sum::<i128>(), 100);
    let parts = Currency::new_float(d("-1.01"), None).distribute(-2);
    assert_eq!(units(&parts), vec![-51, -50]);
}

#[test]
fn distribution_keeps_the_options() {
    let opts = CurrencyOpts::new().set_symbol("€").set_precision(3);
    let parts = Currency::new_float(d("1"), Some(opts)).distribute(2);
    assert_eq!(parts[0].format(), "€0.500");
    assert_eq!(parts[1].format(), "€0.500");
}

#[test]
fn formatting_twice_gives_the_same_text() {
    let c = Currency::new_float(d("-1234.5"), Some(CurrencyOpts::new().set_increment(d("0.25"))));
    let first = c.format();
    let second = c.format();
    assert_eq!(first, second);
    assert_eq!(first, "-$1,234.50");
    assert_eq!(c.to_string(), c.to_string());
    assert_eq!(c.int_value(), -123450);
    assert_eq!(c.value(), d("-1234.50"));
}

#[test]
fn increment_rounding_scenarios() {
    let opts = CurrencyOpts::new().set_increment(d("0.05"));
    let c = |v: &str| Currency::new_float(d(v), Some(opts.clone())).to_string();
    assert_eq!(c("1.01"), "1.00");
    assert_eq!(c("1.03"), "1.05");
    assert_eq!(c("-1.03"), "-1.05");
    assert_eq!(c("1.025"), "1.05");
}

#[test]
fn increment_finer_than_precision() {
    let opts = CurrencyOpts::new().set_pattern("$ #").set_precision(2).set_increment(d("0.001"));
    let c = Currency::new_float(d("1.33"), Some(opts)).multiply(d("3"));
    assert_eq!(c.format(), "$ 3.99");
}

#[test]
fn multiplication_rounds_half_away() {
    assert_eq!(Currency::new_float(d("0.05"), None).multiply(d("0.5")).int_value(), 3);
    assert_eq!(Currency::new_float(d("-0.05"), None).multiply(d("0.5")).int_value(), -3);
}

#[test]
fn parse_tolerance_scenarios() {
    let c = Currency::new_string("1,234,567.89", None).unwrap();
    assert_eq!(c.value(), d("1234567.89"));
    let c = Currency::new_string("a1b2c3", None).unwrap();
    assert_eq!(c.value(), d("123.00"));
    let c = Currency::new_string("abc", None).unwrap();
    assert_eq!(c.value(), d("0.00"));
    let e = Currency::new_string("abc", Some(CurrencyOpts::new().set_error_on_invalid(true)));
    assert!(matches!(e, Err(CurrencyErr::ParseErr(_))));
}

#[test]
fn parentheses_read_as_negative() {
    let c = Currency::new_string("($1,234.50)", None).unwrap();
    assert_eq!(c.value(), d("-1234.50"));
    let c = Currency::new_string("(12.34", None).unwrap();
    assert_eq!(c.value(), d("12.34"));
}

#[test]
fn malformed_numbers_follow_the_invalid_policy() {
    let strict = Some(CurrencyOpts::new().set_error_on_invalid(true));
    assert!(Currency::new_string("1.2.3", strict.clone()).is_err());
    assert!(Currency::new_string("1-2", strict.clone()).is_err());
    assert!(Currency::new_string("-", strict.clone()).is_err());
    assert!(Currency::new_string("", strict).is_err());
    assert_eq!(Currency::new_string("1.2.3", None).unwrap().int_value(), 0);
}

#[test]
fn long_fractions_are_rounded_not_rejected() {
    let strict = Some(CurrencyOpts::new().set_error_on_invalid(true));
    let c = Currency::new_string("1.000000000000000000000000", strict.clone()).unwrap();
    assert_eq!(c.format(), "$1.00");
    let c = Currency::new_string("0.12345678901234567890123456789", strict).unwrap();
    assert_eq!(c.int_value(), 12);
}

#[test]
fn too_large_text_follows_the_invalid_policy() {
    let strict = Some(CurrencyOpts::new().set_error_on_invalid(true));
    let huge = "9".repeat(30);
    assert!(Currency::new_string(&huge, strict).is_err());
    assert_eq!(Currency::new_string(&huge, None).unwrap().int_value(), 0);
}

#[test]
fn vedic_grouping_scenario() {
    let c = Currency::new_float(d("1000000.00"), Some(CurrencyOpts::new().set_use_vedic(true)));
    assert_eq!(c.format(), "$10,00,000.00");
}

#[test]
fn from_cents_scenario() {
    let opts = CurrencyOpts::new().set_precision(2).set_from_cents(true);
    let c = Currency::new_float(d("500"), Some(opts));
    assert_eq!(c.to_string(), "5.00");
    let c = c.add(d("25"));
    assert_eq!(c.int_value(), 525);
    assert_eq!(c.to_string(), "5.25");
}

#[test]
fn mixed_precision_scenario() {
    let c1 = Currency::new_float(d("1.23"), None);
    let c2 = Currency::new_float(d("1.239"), Some(CurrencyOpts::new().set_precision(3)));
    assert_eq!(c1.clone().add(c2.value()).to_string(), "2.47");
    assert_eq!(c2.add(c1.value()).to_string(), "2.469");
}

#[test]
fn add_string_adds_parsed_amounts() {
    let c = Currency::new_float(d("1.00"), None);
    assert_eq!(c.clone().add_string("$2.50").unwrap().int_value(), 350);
    assert_eq!(c.clone().add_string("xyz").unwrap().int_value(), 100);
    let strict = Currency::new_float(d("1.00"), Some(CurrencyOpts::new().set_error_on_invalid(true)));
    assert!(matches!(strict.add_string("xyz"), Err(CurrencyErr::ParseErr(_))));
}

#[test]
fn division_by_non_positive_is_a_no_op() {
    let c = Currency::new_float(d("9.87"), None);
    assert_eq!(c.clone().divide(d("0")).int_value(), 987);
    assert_eq!(c.clone().divide(d("-2")).int_value(), 987);
    assert_eq!(c.divide(d("0.0000001")).int_value(), 987);
}

#[test]
fn re_tagging_changes_precision() {
    let c = Currency::new_float(d("1.23"), None);
    let r = Currency::new_cur(c, Some(CurrencyOpts::new().set_precision(3)));
    assert_eq!(r.int_value(), 1230);
    assert_eq!(r.format(), "$1.230");
}

#[test]
fn cents_and_dollars_of_negative_amounts() {
    let c = Currency::new_float(d("-1.77"), None);
    assert_eq!(c.cents(), 77);
    assert_eq!(c.dollars(), -1);
}

#[test]
fn default_increment_is_one_smallest_unit() {
    let opts = CurrencyOpts::new();
    assert_eq!(opts.increment(), Decimal::new(1, 2));
    let opts = opts.set_increment(d("0.05"));
    assert_eq!(opts.increment(), d("0.05"));
    let opts = opts.set_unset_increment().set_precision(4);
    assert_eq!(opts.increment(), Decimal::new(1, 4));
}

#[test]
fn default_options() {
    let o = CurrencyOpts::new();
    assert_eq!(o.symbol(), "$");
    assert_eq!(o.separator(), ",");
    assert_eq!(o.decimal(), ".");
    assert_eq!(o.precision(), 2);
    assert_eq!(o.pattern(), "!#");
    assert_eq!(o.negative_pattern(), "-!#");
    assert!(!o.from_cents());
    assert!(!o.use_vedic());
    assert!(!o.error_on_invalid());
}

#[test]
fn decimal_literals() {
    assert_eq!(Decimal::parse("12"), Some(Decimal::new(12, 0)));
    assert_eq!(Decimal::parse("-1.50"), Some(Decimal::new(-150, 2)));
    assert_eq!(Decimal::parse("+7"), Some(Decimal::new(7, 0)));
    assert_eq!(Decimal::parse(".5"), Some(Decimal::new(5, 1)));
    assert_eq!(Decimal::parse("3."), Some(Decimal::new(3, 0)));
    assert_eq!(Decimal::parse(""), None);
    assert_eq!(Decimal::parse("-"), None);
    assert_eq!(Decimal::parse("."), None);
    assert_eq!(Decimal::parse("1.2.3"), None);
    assert_eq!(Decimal::parse("1-2"), None);
    assert_eq!(Decimal::parse("1e5"), None);
    assert_eq!(
        Decimal::parse("99999999999999999999"),
        Some(Decimal::new(99_999_999_999_999_999_999, 0))
    );
    assert_eq!(Decimal::parse("100000000000000000000"), None);
    assert_eq!(Decimal::parse("0.0000000000000000000000001"), Some(Decimal::new(0, 24)));
    assert_eq!(Decimal::parse("0.0000000000000000000000005"), Some(Decimal::new(1, 24)));
    assert_eq!(
        Decimal::parse("-1.000000000000000000000000"),
        Some(Decimal::new(-10_000_000_000_000_000_000, 19))
    );
    assert_eq!(
        Decimal::parse("12345678901234567890.5"),
        Some(Decimal::new(12_345_678_901_234_567_891, 0))
    );
}

#[test]
fn normalizer_steps() {
    assert_eq!(allow_negative_values("(1.23)"), "-1.23");
    assert_eq!(allow_negative_values("$ (1,234) USD"), "$ -1,234 USD");
    assert_eq!(allow_negative_values("(12.34"), "(12.34");
    assert_eq!(allow_negative_values("12)"), "12)");
    assert_eq!(convert_any_decimal_values("0".to_string(), "102".to_string()), "1.2");
    assert_eq!(
        replace_any_non_numeric_values(",".to_string(), "€1.000,50".to_string()),
        "1000,50"
    );
    assert_eq!(convert_any_decimal_values(",".to_string(), "1000,50".to_string()), "1000.50");
    assert_eq!(convert_any_decimal_values("dec".to_string(), "1dec5dec".to_string()), "1.5.");
    assert_eq!(normalize("(1 234,5)", ","), "-1234.5");
    assert_eq!(normalize("1dec5", "dec"), "1.5");
    assert_eq!(normalize("1.000,5", ","), "1000.5");
}

#[test]
fn digit_grouping() {
    assert_eq!(format_dollar_group("1234567".to_string(), ",".to_string()), "1,234,567");
    assert_eq!(format_dollar_group("123456".to_string(), " ".to_string()), "123 456");
    assert_eq!(format_dollar_group("123".to_string(), ",".to_string()), "123");
    assert_eq!(format_dollar_group("".to_string(), ",".to_string()), "");
    assert_eq!(format_dollar_vedic("123456789".to_string(), ",".to_string()), "12,34,56,789");
    assert_eq!(format_dollar_vedic("1000".to_string(), ",".to_string()), "1,000");
    assert_eq!(format_dollar_vedic("999".to_string(), ",".to_string()), "999");
    assert_eq!(format_dollar(true, "100000".to_string(), ".".to_string()), "1.00.000");
    assert_eq!(format_dollar(false, "100000".to_string(), ".".to_string()), "100.000");
}
