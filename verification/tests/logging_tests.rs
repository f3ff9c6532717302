use multi_agent_chat::utils::text::char_is_whitespace;
use multi_agent_chat::utils::logging::{
    truncate_string, truncate_words, FilteredLogger, Level, LevelFilter,
};

#[test]
fn test_truncate_string_short() {
    let result = truncate_string("Hello", 10);
    assert_eq!(result, "Hello");
}

#[test]
fn test_truncate_string_long() {
    let result = truncate_string("Hello, World!", 5);
    assert_eq!(result, "He...");
}

#[test]
fn test_truncate_words_short() {
    let result = truncate_words("Hello world", 10);
    assert_eq!(result, "Hello world");
}

#[test]
fn test_truncate_words_long() {
    let result = truncate_words("This is a long sentence with many words", 5);
    assert_eq!(result, "This is a long...");
}

#[test]
fn truncate_string_exact_length_is_kept() {
    assert_eq!(truncate_string("Hello", 5), "Hello");
}

#[test]
fn truncate_string_small_limits_cut_the_dots() {
    assert_eq!(truncate_string("Hello", 3), "...");
    assert_eq!(truncate_string("Hello", 2), "..");
    assert_eq!(truncate_string("abcd", 2), "..");
    assert_eq!(truncate_string("Hello", 1), ".");
    assert_eq!(truncate_string("Hello", 0), "");
    assert_eq!(truncate_string("", 0), "");
}

#[test]
fn truncate_string_counts_bytes() {
    // "é" takes two bytes: five characters, ten bytes.
    assert_eq!(truncate_string("ééééé", 10), "ééééé");
    assert_eq!(truncate_string("ééééé", 7), "éé...");
}

#[test]
fn truncate_words_collapses_whitespace_when_cut() {
    assert_eq!(truncate_words("  one\ttwo\n three  four ", 3), "one two...");
    // Not cut: the text is kept as it is, whitespace included.
    assert_eq!(truncate_words("  one\ttwo ", 2), "  one\ttwo ");
}

#[test]
fn truncate_words_edge_limits() {
    assert_eq!(truncate_words("", 0), "");
    assert_eq!(truncate_words("one two", 0), "...");
    assert_eq!(truncate_words("one two", 1), "...");
    assert_eq!(truncate_words("one two", 2), "one two");
}

#[test]
fn filtered_logger_compares_levels() {
    let info = FilteredLogger::new(LevelFilter::Info);
    assert!(info.should_log(Level::Error));
    assert!(info.should_log(Level::Warn));
    assert!(info.should_log(Level::Info));
    assert!(!info.should_log(Level::Debug));
    assert!(!info.should_log(Level::Trace));
    let off = FilteredLogger::new(LevelFilter::Off);
    assert!(!off.should_log(Level::Error));
    let trace = FilteredLogger::new(LevelFilter::Trace);
    assert!(trace.should_log(Level::Trace));
}

#[test]
fn truncated_text_respects_its_limits() {
    let long: String = (0..300).map(|i| format!("w{} ", i)).collect();
    let cut = truncate_words(&long, 200);
    assert!(cut.split_whitespace().count() <= 200);
    assert!(cut.ends_with("w198..."));
    let s = "abcdefghijklmnopqrstuvwxyz";
    for max in 0..30 {
        assert!(truncate_string(s, max).len() <= max);
    }
}

#[test]
fn whitespace_test_agrees_with_std() {
    for u in 0u32..0x3100 {
        if let Some(c) = char::from_u32(u) {
            assert_eq!(char_is_whitespace(c), c.is_whitespace(), "code point {:#x}", u);
        }
    }
    assert!(char_is_whitespace('\u{3000}'));
    assert!(!char_is_whitespace('x'));
}
