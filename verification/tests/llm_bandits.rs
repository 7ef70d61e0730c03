use hyperscalees::llm_bandits::{
    answer_from_matches, check_accuracy, extract_ground_truth, extract_predicted_answer,
    get_padded_prompt, make_rg_prompt, score_answer, single_fitness, strip_thoughts,
};

#[test]
fn strip_thoughts_removes_thought_prefix() {
    assert_eq!(strip_thoughts("hello response42"), "42");
}

#[test]
fn strip_thoughts_unchanged_without_marker() {
    assert_eq!(strip_thoughts("no marker here"), "no marker here");
}

#[test]
fn strip_thoughts_first_occurrence_suffix() {
    assert_eq!(strip_thoughts("a responseB responseC"), "B responseC");
}

#[test]
fn strip_thoughts_on_wide_characters() {
    assert_eq!(strip_thoughts("思考 response答え"), "答え");
    assert_eq!(strip_thoughts(" response"), "");
    assert_eq!(strip_thoughts(""), "");
}

#[test]
fn get_padded_prompt_pads_short_prompt() {
    assert_eq!(get_padded_prompt(&[1, 2, 3], 5), vec![1, 2, 3, 0, 0]);
}

#[test]
fn get_padded_prompt_truncates_long_prompt() {
    assert_eq!(get_padded_prompt(&[1, 2, 3, 4, 5], 3), vec![1, 2, 3]);
}

#[test]
fn get_padded_prompt_is_idempotent_and_handles_zero() {
    let once = get_padded_prompt(&[7, 8], 4);
    assert_eq!(get_padded_prompt(&once, 4), once);
    assert_eq!(get_padded_prompt(&[7, 8], 0), Vec::<i64>::new());
}

#[test]
fn make_rg_prompt_matches_expected_format() {
    assert_eq!(
        make_rg_prompt("2+2"),
        "User: You are a helpful assistant. You first think about the reasoning \
         process in your mind and then provide the user with the answer. Question: \
         2+2. Assistant: <think"
    );
}

#[test]
fn extract_predicted_answer_simple_number() {
    assert_eq!(extract_predicted_answer("The answer is 42"), Some("42".to_string()));
}

#[test]
fn extract_predicted_answer_money_number() {
    assert_eq!(
        extract_predicted_answer("foo $1,234.56"),
        Some("1234.56".to_string())
    );
}

#[test]
fn extract_predicted_answer_no_numbers() {
    assert_eq!(extract_predicted_answer("no numbers here"), None);
}

#[test]
fn extract_predicted_answer_with_ground_truth_marker() {
    assert_eq!(extract_predicted_answer("Question #### 42"), Some("42".to_string()));
    assert_eq!(extract_predicted_answer("#### 1234"), Some("1234".to_string()));
}

#[test]
fn extract_predicted_answer_takes_the_last_number_and_drops_a_final_period() {
    assert_eq!(extract_predicted_answer("first 1, then -23."), Some("-23".to_string()));
    assert_eq!(extract_predicted_answer("7 or 8"), Some("8".to_string()));
}

#[test]
fn numbers_are_read_from_the_left() {
    assert_eq!(extract_predicted_answer("12.."), Some("12.".to_string()));
    assert_eq!(extract_predicted_answer("(-5)"), Some("-5".to_string()));
    assert_eq!(extract_predicted_answer("--7,"), Some("-7".to_string()));
    assert_eq!(extract_predicted_answer("a.b"), None);
    assert_eq!(extract_predicted_answer("a.,b"), Some("".to_string()));
    assert_eq!(extract_predicted_answer("3-4"), Some("-4".to_string()));
}

#[test]
fn markers_in_a_match_are_cut_off() {
    let matches = vec!["a\n#### b #### 9.".to_string()];
    assert_eq!(answer_from_matches(&matches), Some("9".to_string()));
    assert_eq!(answer_from_matches(&["####9".to_string()]), Some("####9".to_string()));
}

#[test]
fn answer_from_matches_cleans_the_last_match() {
    let matches = vec!["12".to_string(), " $3,400. ".to_string()];
    assert_eq!(answer_from_matches(&matches), Some("3400".to_string()));
    assert_eq!(answer_from_matches(&[]), None);
}

#[test]
fn extract_ground_truth_splits_then_trims() {
    assert_eq!(extract_ground_truth("question #### 42"), "42");
    assert_eq!(extract_ground_truth("  no marker  "), "no marker");
}

#[test]
fn extract_ground_truth_reads_separators_from_the_left() {
    assert_eq!(extract_ground_truth("#####5"), "#5");
    assert_eq!(extract_ground_truth("a #### b #### c "), "c");
    assert_eq!(extract_ground_truth("a ####"), "");
}

#[test]
fn check_accuracy_correct_wrong_and_unparseable() {
    assert_eq!(f64::from(check_accuracy("42", "question #### 42")), 1.0);
    assert_eq!(f64::from(check_accuracy("43", "question #### 42")), 0.0);
    assert_eq!(f64::from(check_accuracy("hello world", "question #### 42")), 0.0);
}

#[test]
fn score_answer_compares_texts() {
    assert_eq!(score_answer(Some("42".to_string()), "42".to_string()), 1);
    assert_eq!(score_answer(Some("4".to_string()), "42".to_string()), 0);
    assert_eq!(score_answer(None, "".to_string()), 0);
}

#[test]
fn single_fitness_delegates_after_marker() {
    assert_eq!(f64::from(single_fitness("think response42", "#### 42")), 1.0);
    assert_eq!(f64::from(single_fitness("think response43", "#### 42")), 0.0);
}

#[test]
fn single_fitness_zero_without_marker() {
    assert_eq!(f64::from(single_fitness("no response marker", "#### 42")), 0.0);
}
