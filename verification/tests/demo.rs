use squiggle::demo::{squiggle_name, DemoOptions, DEFAULT_SAMPLE_COUNT, USAGE};

fn parse(args: &[&str]) -> Result<DemoOptions, String> {
    DemoOptions::from_args(args.iter().map(|a| a.to_string()).collect())
}

#[test]
fn no_arguments_seeds_an_empty_plot() {
    assert_eq!(parse(&[]), Ok(DemoOptions::default()));
}

#[test]
fn both_counts_can_be_set() {
    assert_eq!(
        parse(&["--squiggles", "100", "--samples", "10000"]),
        Ok(DemoOptions { seed_count: 100, sample_count: 10_000 })
    );
}

#[test]
fn a_missing_value_is_an_error_not_a_silent_default() {
    assert!(parse(&["--squiggles"]).is_err());
}

#[test]
fn a_non_numeric_value_is_rejected() {
    assert!(parse(&["--samples", "lots"]).is_err());
}

#[test]
fn unknown_arguments_are_reported_with_the_usage() {
    let error = parse(&["--colour", "red"]).expect_err("should not parse");
    assert!(error.contains("--colour"), "{error}");
    assert!(error.contains("Usage"), "{error}");
}

#[test]
fn the_default_options_seed_nothing_and_sample_a_thousand() {
    let options = DemoOptions::default();
    assert_eq!(options.seed_count, 0);
    assert_eq!(options.sample_count, 1000);
    assert_eq!(DEFAULT_SAMPLE_COUNT, 1000);
}

#[test]
fn help_answers_with_the_usage_alone() {
    assert_eq!(parse(&["--help"]), Err(USAGE.to_string()));
    assert_eq!(parse(&["-h"]), Err(USAGE.to_string()));
    assert_eq!(parse(&["--samples", "5", "-h"]), Err(USAGE.to_string()));
}

#[test]
fn a_missing_value_names_the_flag() {
    assert_eq!(parse(&["--samples"]), Err("--samples needs a number".to_string()));
    assert_eq!(parse(&["--squiggles", "-3"]), Err("--squiggles needs a number".to_string()));
}

#[test]
fn an_unknown_argument_message_is_exact() {
    assert_eq!(
        parse(&["--colour"]),
        Err(format!("unrecognised argument: --colour\n\n{USAGE}"))
    );
}

#[test]
fn the_later_flag_wins() {
    assert_eq!(
        parse(&["--samples", "7", "--squiggles", "2", "--samples", "9"]),
        Ok(DemoOptions { seed_count: 2, sample_count: 9 })
    );
}

#[test]
fn counts_follow_the_std_number_rules() {
    assert_eq!(parse(&["--squiggles", "+12"]), Ok(DemoOptions { seed_count: 12, sample_count: 1000 }));
    assert_eq!(parse(&["--squiggles", "007"]), Ok(DemoOptions { seed_count: 7, sample_count: 1000 }));
    assert!(parse(&["--squiggles", ""]).is_err());
    assert!(parse(&["--squiggles", "+"]).is_err());
    assert!(parse(&["--squiggles", " 1"]).is_err());
    assert!(parse(&["--squiggles", "99999999999999999999999999"]).is_err());
}

#[test]
fn squiggle_names_count_from_the_index() {
    assert_eq!(squiggle_name(3), "Squiggle 3");
    assert_eq!(squiggle_name(0), "Squiggle 0");
    assert_eq!(squiggle_name(120), "Squiggle 120");
}

#[test]
fn the_sidebar_label_shows_the_sample_count() {
    assert_eq!(squiggle::demo::squiggle_label("Squiggle 3", 64), "Squiggle 3 (64 pts)");
    assert_eq!(squiggle::demo::squiggle_label("", 0), " (0 pts)");
}
