use yarlint::config::diagnostics::{did_you_mean, line_col, DiagnosticBuilder, Diagnostics, Level};

#[test]
fn line_col_is_one_based() {
    assert_eq!(line_col("abc", 0), (1, 1));
    assert_eq!(line_col("abc", 2), (1, 3));
}

#[test]
fn line_col_counts_newlines() {
    let text = "one\ntwo\nthree";
    assert_eq!(line_col(text, 4), (2, 1));
    assert_eq!(line_col(text, 8), (3, 1));
    assert_eq!(line_col(text, 10), (3, 3));
}

#[test]
fn line_col_counts_characters_not_bytes() {
    let text = "héllo = 1";
    // `é` is two bytes, so byte offset 6 is character 6 on line 1.
    assert_eq!(line_col(text, 6), (1, 6));
}

#[test]
fn line_col_clamps_past_the_end() {
    assert_eq!(line_col("ab", 99), (1, 3));
}

#[test]
fn a_distant_candidate_is_not_suggested() {
    assert_eq!(did_you_mean("severity", &["cops", "globals"]), None);
}

#[test]
fn a_near_candidate_is_suggested() {
    assert_eq!(did_you_mean("globls", &["cops", "globals"]), Some("globals"));
}

#[test]
fn the_closest_candidate_wins() {
    assert_eq!(
        did_you_mean("max_name_lenght", &["min_name_length", "max_name_length"]),
        Some("max_name_length")
    );
}

#[test]
fn short_inputs_demand_a_near_exact_match() {
    // Threshold is 1 for inputs of three characters or fewer.
    assert_eq!(did_you_mean("abc", &["abd"]), Some("abd"));
    assert_eq!(did_you_mean("abc", &["axy"]), None);
}

#[test]
fn an_abbreviation_is_treated_as_a_near_miss() {
    // Plain edit distance puts these three apart, past the threshold.
    assert_eq!(did_you_mean("warn", &["info", "warning", "error"]), Some("warning"));
}

#[test]
fn a_prefix_only_counts_when_the_gap_is_small() {
    // A bare family must not beat the qualified cop the user meant.
    assert_eq!(
        did_you_mean("Naming/RuleNameLenght", &["Naming", "Naming/RuleNameLength", "Style"]),
        Some("Naming/RuleNameLength")
    );
}

#[test]
fn an_empty_input_suggests_nothing_useful() {
    assert_eq!(did_you_mean("", &["warning"]), None);
}

#[test]
fn an_empty_candidate_is_handled() {
    assert_eq!(did_you_mean("ab", &[""]), None);
}

#[test]
fn no_candidates_means_no_suggestion() {
    assert_eq!(did_you_mean("anything", &[]), None);
}

#[test]
fn on_a_tie_the_earlier_candidate_wins() {
    assert_eq!(did_you_mean("ab", &["ac", "ad"]), Some("ac"));
}

#[test]
fn the_threshold_grows_with_the_input() {
    // Four to nine characters tolerate two edits, ten or more tolerate three.
    assert_eq!(did_you_mean("abcdefghi", &["abcdefxyz"]), None);
    assert_eq!(did_you_mean("abcdefghi", &["abcdefgyz"]), Some("abcdefgyz"));
    assert_eq!(did_you_mean("abcdefghij", &["abcdefgxyz"]), Some("abcdefgxyz"));
}

#[test]
fn a_lone_carriage_return_is_not_a_line_break() {
    assert_eq!(line_col("a\rb", 2), (1, 3));
    assert_eq!(line_col("a\r\nb", 3), (2, 1));
}

#[test]
fn a_location_is_rendered_as_path_line_column() {
    let mut diagnostics = Diagnostics::new();
    DiagnosticBuilder::error("bad".to_string())
        .at("yarlint.toml", "x = 1\ny = 2\n", Some(10..11))
        .help("fix it".to_string())
        .emit(&mut diagnostics);
    DiagnosticBuilder::warning("meh".to_string()).suggest("warnig", &["warning"]).emit(&mut diagnostics);

    let entries = diagnostics.entries();
    assert_eq!(entries[0].level, Level::Error);
    assert_eq!(entries[0].path.as_deref(), Some("yarlint.toml"));
    assert_eq!(entries[0].location.as_deref(), Some("yarlint.toml:2:5"));
    assert_eq!(entries[0].help.as_deref(), Some("fix it"));
    assert_eq!(entries[1].level, Level::Warning);
    assert_eq!(entries[1].location, None);
    assert_eq!(entries[1].help.as_deref(), Some("did you mean `warning`?"));
    assert!(diagnostics.has_errors());
}

#[test]
fn an_exact_candidate_is_at_distance_zero() {
    assert_eq!(did_you_mean("abc", &["abc"]), Some("abc"));
}

#[test]
fn suggestions_do_not_depend_on_direction() {
    assert_eq!(did_you_mean("abd", &["abc"]), Some("abc"));
    assert_eq!(did_you_mean("abc", &["abd"]), Some("abd"));
}

#[test]
fn the_column_restarts_after_the_last_newline() {
    let text = "ab\ncd\nefg";
    assert_eq!(line_col(text, 9), (3, 4));
    assert_eq!(line_col(text, 100), (3, 4));
    assert_eq!(line_col(text, 6), (3, 1));
}
