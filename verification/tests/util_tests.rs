use blink::util::{format_quote_lines, format_time};

fn lines(quote: &str, max: usize, max_lines: usize) -> Vec<String> {
    format_quote_lines(quote, max, max_lines).iter().map(|l| l.as_str().to_string()).collect()
}

#[test]
fn format_time_minutes_seconds() {
    assert_eq!(format_time(0, false).as_str(), "00:00");
    assert_eq!(format_time(125, false).as_str(), "02:05");
    assert_eq!(format_time(3599, false).as_str(), "59:59");
    assert_eq!(format_time(3600, false).as_str(), "00:00");
}

#[test]
fn format_time_with_hours() {
    assert_eq!(format_time(3661, true).as_str(), "01:01:01");
    assert_eq!(format_time(36000, true).as_str(), "10:00:00");
    assert_eq!(format_time(u32::MAX, true).as_str(), "1193046:28:15");
}

#[test]
fn wraps_words_into_lines() {
    assert_eq!(
        lines("The only way to do great work is to love what you do.", 20, 8),
        vec!["The only way to do", "great work is to", "love what you do."]
    );
    assert_eq!(lines("  a   b  ", 20, 8), vec!["a b"]);
    assert!(lines("   ", 20, 8).is_empty());
}

#[test]
fn long_words_are_split() {
    assert_eq!(lines("ab abcdefghij cd", 4, 8), vec!["ab", "abcd", "efgh", "ij", "cd"]);
    // Multi-byte characters are never split.
    assert_eq!(lines("ééé", 3, 8), vec!["é", "é", "é"]);
}

#[test]
fn max_lines_limits_output() {
    assert_eq!(lines("a b c d", 1, 2), vec!["a", "b"]);
    assert_eq!(lines("abcdefgh", 2, 3), vec!["ab", "cd", "ef"]);
    // At most eight lines are held whatever max_lines says.
    assert_eq!(lines("a b c d e f g h i j", 1, 20).len(), 8);
}

#[test]
fn zero_width_lines_fill_with_empty_pieces() {
    assert_eq!(lines("ab", 0, 3), vec!["", "", ""]);
}

#[test]
fn lines_keep_all_text_below_the_limit() {
    let quote = "Success is not final, failure is not fatal: it is the courage to continue that counts.";
    let got = lines(quote, 20, 8);
    assert!(got.len() < 8);
    let joined: String = got.concat().chars().filter(|c| !c.is_whitespace()).collect();
    let expected: String = quote.chars().filter(|c| !c.is_whitespace()).collect();
    assert_eq!(joined, expected);
    let long = lines("tiny\tantidisestablishmentarianism\nend", 8, 8);
    assert_eq!(long, vec!["tiny", "antidise", "stablish", "mentaria", "nism", "end"]);
}

#[test]
fn cut_lines_hold_a_start_of_the_quote() {
    let quote = "Success is not final, failure is not fatal: it is the courage to continue that counts.";
    let got = lines(quote, 20, 2);
    assert_eq!(got, vec!["Success is not", "final, failure is"]);
    let joined: String = got.concat().chars().filter(|c| !c.is_whitespace()).collect();
    let all: String = quote.chars().filter(|c| !c.is_whitespace()).collect();
    assert!(all.starts_with(&joined));
    assert_ne!(all, joined);
}

#[test]
fn lines_are_single_spaced_and_not_empty() {
    let got = lines("  a  b\tccccccccc\n d ", 4, 8);
    assert_eq!(got, vec!["a b", "cccc", "cccc", "c", "d"]);
    for l in &got {
        assert!(!l.is_empty());
        assert!(!l.starts_with(' ') && !l.ends_with(' '));
        assert!(!l.contains("  "));
        assert!(l.chars().all(|c| c == ' ' || !c.is_whitespace()));
    }
}
