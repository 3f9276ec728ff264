use bbdc_word_tool::cli::Cli;
use bbdc_word_tool::llm_corrector::CorrectionResult;

#[test]
fn extraction_modes() {
    assert!(Cli::mode_includes_phrases("full"));
    assert!(!Cli::mode_includes_phrases("words_only"));
    assert!(!Cli::mode_includes_phrases("Full"));
    assert!(Cli::mode_writes_words_only("words_only"));
    assert!(!Cli::mode_writes_words_only("with_meaning"));
    assert!(Cli::checks_after_extract(true, "words_only"));
    assert!(!Cli::checks_after_extract(false, "words_only"));
    assert!(!Cli::checks_after_extract(true, "full"));
}

#[test]
fn output_names() {
    assert_eq!(Cli::default_output_name("unit1", "words_only"), "unit1_单词.txt");
    assert_eq!(Cli::default_output_name("unit1", "with_meaning"), "unit1_单词词义.txt");
    assert_eq!(Cli::default_output_name("unit1", "full"), "unit1_完整.txt");
    assert_eq!(Cli::default_output_name("unit1", "other"), "unit1_完整.txt");
    assert_eq!(Cli::interactive_output_name("book"), "book_单词.txt");
}

fn correction(success: bool, original: &str, corrected: &str) -> CorrectionResult {
    CorrectionResult {
        success,
        original: original.to_string(),
        corrected: corrected.to_string(),
        confidence: "high".to_string(),
        reason: String::new(),
    }
}

#[test]
fn reported_changes() {
    assert!(correction(true, "recieve", "receive").is_change());
    assert!(!correction(true, "apple", "apple").is_change());
    assert!(!correction(false, "apple", "apples").is_change());
}
