use acb::util::date::{
    parse_month, parse_standard_date, to_pretty_string, Date, Month,
};
use acb::util::decimal::{
    dollar_precision_str, is_negative, is_positive, ConstrainedDecimal, Dec,
    GreaterEqualZeroDecimal, LessEqualZeroDecimal, NegDecimal, PosDecimal,
};
use acb::util::math::{
    maybe_round_to_effective_cent, round_to_cent, round_to_effective_cent_tolerance,
    PosDecimalRatio,
};
use acb::util::rw::{DescribedReader, StringBuffer};

fn dec(s: &str) -> Dec {
    Dec::parse(s).unwrap()
}

fn pdec(s: &str) -> PosDecimal {
    PosDecimal::try_from(dec(s)).unwrap()
}

#[test]
fn test_parse() {
    let d = parse_standard_date("2023-01-21");
    assert_eq!(d.unwrap(), Date::from_calendar_date(2023, 1, 21).unwrap());

    let d = parse_standard_date("2023-01-41");
    assert!(d.is_err());
}

#[test]
fn test_render() {
    let d = parse_standard_date("2024-01-23");
    assert_eq!(d.unwrap().to_string(), "2024-01-23");
}

#[test]
fn test_to_pretty_string() {
    assert_eq!(
        to_pretty_string(&parse_standard_date("2024-03-01").unwrap()),
        "March 1, 2024"
    );
}

#[test]
fn test_pretty_string_december_and_leap_day() {
    assert_eq!(
        to_pretty_string(&Date::from_calendar_date(2023, 12, 31).unwrap()),
        "December 31, 2023"
    );
    assert_eq!(
        to_pretty_string(&Date::from_calendar_date(2024, 2, 29).unwrap()),
        "February 29, 2024"
    );
    assert!(Date::from_calendar_date(2023, 2, 29).is_none());
}

#[test]
fn test_parse_month_prefixes() {
    assert_eq!(parse_month("January"), Ok(Month::January));
    assert_eq!(parse_month("  FEB "), Ok(Month::February));
    assert_eq!(parse_month("sept"), Ok(Month::September));
    assert_eq!(parse_month("Dec."), Ok(Month::December));
    assert_eq!(parse_month("ja"), Err(()));
    assert_eq!(parse_month(""), Err(()));
}

#[test]
fn test_date_julian_round_trip_and_order() {
    let d = Date::from_calendar_date(2024, 3, 1).unwrap();
    let jd = d.to_julian_day();
    assert_eq!(Date::from_julian_day(jd).unwrap(), d);
    let next = d.saturating_add_days(1);
    assert_eq!(next.to_string(), "2024-03-02");
    assert!(d.before(&next));
    assert!(!next.before(&d));
    assert_eq!(d.saturating_add_days(-1).to_string(), "2024-02-29");
    assert_eq!(d.year(), 2024);
}

#[test]
#[should_panic]
fn test_decimal_div_sanity() {
    // Division by zero has no result.
    let _ = Dec::one().checked_div(&Dec::zero()).unwrap();
}

#[test]
fn test_decimal_sign_sanity() {
    let neg_zero = dec("-0");
    assert!(!is_negative(&neg_zero));
    assert!(neg_zero.is_zero());
    let zero = dec("0");
    assert!(!is_positive(&zero));
    assert!(zero.is_zero());
    assert_eq!(zero, neg_zero);
}

fn check_constrained(
    valid: &[&str],
    invalid: &[&str],
    make: fn(Dec) -> Result<Dec, String>,
) {
    for inv in invalid {
        assert!(make(dec(inv)).is_err());
    }
    for v in valid {
        let d = dec(v);
        let got = make(d).unwrap();
        assert_eq!(got, d);
        assert_eq!(got.to_string(), d.to_string());
    }
}

#[test]
fn test_constrained_decimal() {
    check_constrained(&["-1"], &["-0", "0", "1"], |d| {
        NegDecimal::try_from(d).map(|c| c.get())
    });
    check_constrained(&["-1", "0", "-0"], &["1"], |d| {
        LessEqualZeroDecimal::try_from(d).map(|c| c.get())
    });
    check_constrained(&["1", "0", "-0"], &["-1"], |d| {
        GreaterEqualZeroDecimal::try_from(d).map(|c| c.get())
    });
    check_constrained(&["1"], &["-0", "0", "-1"], |d| {
        ConstrainedDecimal::<acb::util::decimal::Pos>::try_from(d).map(|c| c.get())
    });
}

#[test]
fn test_dollar_precision_str() {
    assert_eq!(dollar_precision_str(&dec("1000")), "1000.00");
    assert_eq!(dollar_precision_str(&dec("1.123456")), "1.12");
}

#[test]
fn test_decimal_arithmetic_exact_values() {
    assert_eq!(dec("1.5").checked_add(&dec("2.25")).unwrap().to_string(), "3.75");
    assert_eq!(dec("1.5").checked_sub(&dec("2.25")).unwrap().to_string(), "-0.75");
    assert_eq!(dec("1.5").checked_mul(&dec("2")).unwrap(), dec("3"));
    assert_eq!(dec("3").checked_div(&dec("4")).unwrap(), dec("0.75"));
    assert_eq!(dec("1.005").round_dp(2), dec("1.01"));
    assert_eq!(dec("-1.005").round_dp(2), dec("-1.01"));
    assert_eq!(dec("1.015").round_dp(2), dec("1.02"));
    assert!(dec("1.0").value_eq(&dec("1")));
    assert_eq!(dec("1.0").to_string(), "1.0");
    assert!(Dec::parse("abc").is_err());
    assert!(dec("-2").lt(&dec("1")));
}

#[test]
fn test_ratio_display() {
    let ratio = PosDecimalRatio {
        numerator: pdec("1.123456"),
        denominator: pdec("9.87654"),
    };
    assert_eq!(ratio.to_string(), "1.123456/9.87654");
    assert_eq!(ratio.to_string_with_precision(2), "1.12/9.87");
}

#[test]
fn test_round_to_cent() {
    assert_eq!(round_to_cent(dec("1.99999999")), dec("2.00"));
    assert_eq!(round_to_cent(dec("1.495")), dec("1.50"));
    assert_eq!(round_to_cent(dec("1.49499999")), dec("1.49"));
    assert_eq!(round_to_cent(dec("-1.49499999")), dec("-1.49"));

    // No changes expected
    assert_eq!(round_to_cent(dec("1.5")), dec("1.5"));
    assert_eq!(round_to_cent(dec("1.59")), dec("1.59"));
}

#[test]
fn test_maybe_round_to_effective_cent() {
    assert_eq!(dec("0.0000000001"), round_to_effective_cent_tolerance());

    assert_eq!(maybe_round_to_effective_cent(dec("1.99999999999")), dec("2.00"));
    assert_eq!(
        maybe_round_to_effective_cent(dec("1.90999999999999999")),
        dec("1.91")
    );
    assert_eq!(
        maybe_round_to_effective_cent(dec("1.320000000000001")),
        dec("1.32")
    );
    assert_eq!(
        maybe_round_to_effective_cent(dec("-1.320000000000001")),
        dec("-1.32")
    );

    // No changes expected
    assert_eq!(maybe_round_to_effective_cent(dec("1.909999")), dec("1.909999"));
    assert_eq!(
        maybe_round_to_effective_cent(dec("1.194444444444444444444")),
        dec("1.194444444444444444444")
    );
    assert_eq!(maybe_round_to_effective_cent(dec("-1.32001")), dec("-1.32001"));
    assert_eq!(maybe_round_to_effective_cent(dec("1.001")), dec("1.001"));
}

#[test]
fn test_string_buffer() {
    let mut buff = StringBuffer::new();
    buff.write_str(&format!("Some {}", "text"));
    buff.write_str(&format!("{}\n", " 1"));
    assert_eq!(buff.as_str(), "Some text 1\n");
}

#[test]
fn test_string_buffer_bytes_and_clear() {
    let mut buff = StringBuffer::new();
    assert_eq!(buff.write("héllo".as_bytes()), Ok(6));
    assert_eq!(buff.as_str(), "héllo");
    assert!(buff.write(&[0xff, 0xfe]).is_err());
    assert_eq!(buff.as_str(), "héllo");
    buff.clear();
    assert_eq!(buff.as_str(), "");
}

#[test]
fn test_described_reader() {
    let r = DescribedReader::from_string("desc".to_string(), "a,b\n".to_string());
    assert_eq!(r.desc(), "desc");
    assert_eq!(r.text(), Some("a,b\n"));
    let f = DescribedReader::from_file_path("/some/path.csv".to_string());
    assert_eq!(f.desc(), "/some/path.csv");
    assert_eq!(f.text(), None);
}

#[test]
fn test_parse_date_with_format() {
    let fmt = acb::util::date::parse_dyn_date_format("[day].[month].[year]").unwrap();
    let d = acb::util::date::parse_date("05.03.2024", &Some(fmt)).unwrap();
    assert_eq!(d.to_string(), "2024-03-05");
    // Without a format, the standard one is used.
    let d = acb::util::date::parse_date("2024-03-05", &None).unwrap();
    assert_eq!(d, Date::from_calendar_date(2024, 3, 5).unwrap());
    assert!(acb::util::date::parse_date("05.03.2024", &None).is_err());
    assert!(acb::util::date::parse_dyn_date_format("[bogus]").is_err());
}

#[test]
fn test_decimal_parse_exact() {
    assert_eq!(Dec::parse_exact("1.5").unwrap().to_string(), "1.5");
    assert!(Dec::parse_exact("1.00000000000000000000000000001").is_err());
    assert!(Dec::parse("1.00000000000000000000000000001").is_ok());
}

#[test]
fn test_constraint_error_message() {
    assert_eq!(
        PosDecimal::try_from(dec("-1.5")).unwrap_err(),
        "-1.5 does not match constraints of acb::util::decimal::constraint::Pos"
    );
    assert_eq!(
        NegDecimal::try_from(dec("0")).unwrap_err(),
        "0 does not match constraints of acb::util::decimal::constraint::Neg"
    );
    assert_eq!(
        LessEqualZeroDecimal::try_from(dec("2")).unwrap_err(),
        "2 does not match constraints of acb::util::decimal::constraint::LessEqualZero"
    );
    assert_eq!(
        GreaterEqualZeroDecimal::try_from(dec("-2")).unwrap_err(),
        "-2 does not match constraints of acb::util::decimal::constraint::GreaterEqualZero"
    );
}

#[test]
fn test_trim_unicode_whitespace() {
    assert_eq!(acb::util::text::trim("\u{3000}\t a  b \u{A0}\n"), "a  b");
    assert_eq!(acb::util::text::trim(" \u{2028} "), "");
    assert_eq!(acb::util::text::trim("x"), "x");
}

#[test]
fn test_is_integer_signs_and_scales() {
    assert!(acb::util::decimal::Dec::parse("-3.00").unwrap().is_integer());
    assert!(!acb::util::decimal::Dec::parse("-3.01").unwrap().is_integer());
    assert!(acb::util::decimal::Dec::parse("0").unwrap().is_integer());
    assert!(!acb::util::decimal::Dec::parse("0.0000000000000000000000000001").unwrap().is_integer());
}

#[test]
fn test_exact_quotients() {
    let q = Dec::parse("30").unwrap().checked_div(&Dec::parse("3").unwrap()).unwrap();
    assert!(q.value_eq(&Dec::parse("10").unwrap()));
    let q = Dec::parse("1").unwrap().checked_div(&Dec::parse("8").unwrap()).unwrap();
    assert!(q.value_eq(&Dec::parse("0.125").unwrap()));
    let q = Dec::parse("1").unwrap()
        .checked_div(&Dec::parse("0.0000000000000000000000000001").unwrap())
        .unwrap();
    assert!(q.value_eq(&Dec::parse("10000000000000000000000000000").unwrap()));
    let q = Dec::parse("7.9228162514264337593543950335").unwrap()
        .checked_div(&Dec::parse("0.5").unwrap())
        .unwrap();
    assert!(q.value_eq(&Dec::parse("15.845632502852867518708790067").unwrap()));
}
