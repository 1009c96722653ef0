use squiggle::text::{same_text, vertical};

#[test]
fn a_label_stacks_one_character_per_line() {
    assert_eq!(vertical("Squiggles"), "S\nq\nu\ni\ng\ng\nl\ne\ns");
    assert_eq!(vertical("a"), "a");
    assert_eq!(vertical(""), "");
}

#[test]
fn text_comparison_is_by_character() {
    assert!(same_text("--help", "--help"));
    assert!(!same_text("--help", "--hel"));
    assert!(!same_text("-h", "-H"));
}
