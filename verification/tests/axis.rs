use squiggle::axis::{tick_budget, tidy_decimal, Anchor, Orientation, MAX_TICKS};

/// How the plot renders a tick value: three places, then tidied.
fn format_value(value: f64) -> String {
    if !value.is_finite() {
        return "-".to_string();
    }
    tidy_decimal(&format!("{value:.3}"))
}

#[test]
fn values_format_like_the_java_decimal_pattern() {
    assert_eq!(format_value(0.0), "0");
    assert_eq!(format_value(-0.0), "0");
    assert_eq!(format_value(100.0), "100");
    assert_eq!(format_value(1.5), "1.5");
    assert_eq!(format_value(1.23456), "1.235");
    assert_eq!(format_value(-0.0001), "0");
    assert_eq!(format_value(-12.25), "-12.25");
}

#[test]
fn tidying_strips_only_what_follows_a_point() {
    assert_eq!(tidy_decimal("100"), "100");
    assert_eq!(tidy_decimal("100.000"), "100");
    assert_eq!(tidy_decimal("10.500"), "10.5");
    assert_eq!(tidy_decimal("-0.000"), "0");
    assert_eq!(tidy_decimal("-"), "0");
    assert_eq!(tidy_decimal(""), "0");
    assert_eq!(tidy_decimal("-0"), "0");
    assert_eq!(tidy_decimal("-0.5"), "-0.5");
}

#[test]
fn tidying_twice_changes_nothing() {
    for text in ["1.500", "-0.000", "42", "0.250", "-7.000"] {
        let once = tidy_decimal(text);
        assert_eq!(tidy_decimal(&once), once);
    }
}

#[test]
fn axes_follow_the_data_by_default() {
    assert_eq!(Anchor::default(), Anchor::Value);
    assert_ne!(Orientation::X, Orientation::Y);
}

#[test]
fn the_tick_budget_never_goes_negative() {
    assert_eq!(tick_budget(0), MAX_TICKS);
    assert_eq!(tick_budget(96), MAX_TICKS - 96);
    assert_eq!(tick_budget(MAX_TICKS), 0);
    assert_eq!(tick_budget(MAX_TICKS + 10), 0);
}
