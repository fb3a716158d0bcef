use polymarket_indexer::strings::{calculate_length, change, dangle, first_word, longest};
use polymarket_indexer::text::{analyze_text, split_words, top_words};

#[test]
fn test_calculate_length_fixed() {
    let s = String::from("hello");
    let len = calculate_length(&s);
    assert_eq!(len, 5);
    assert_eq!(s, "hello");
}

#[test]
fn test_first_word() {
    let s = String::from("hello world");
    assert_eq!(first_word(&s), "hello");

    let s2 = String::from("rust");
    assert_eq!(first_word(&s2), "rust");
}

#[test]
fn test_longest() {
    assert_eq!(longest("short", "longer"), "longer");
    assert_eq!(longest("same", "size"), "same");
}

#[test]
fn test_total_words() {
    let text = "a";
    let stats = analyze_text(text);
    assert_eq!(stats.total_words, 1);

    let text = "a b";
    let stats = analyze_text(text);
    assert_eq!(stats.total_words, 2);
}

#[test]
fn test_unique_words() {
    let text = "a a";
    let stats = analyze_text(text);
    assert_eq!(stats.unique_words, 1);

    let text = "a b";
    let stats = analyze_text(text);
    assert_eq!(stats.unique_words, 2);
}

#[test]
fn test_top_words() {
    let words = vec!["a", "b", "c", "a", "b", "a"];
    let top_2_words = top_words(&words, 2);
    assert_eq!(top_2_words, vec!["a".to_string(), "b".to_string()]);

    let top_3_words = top_words(&words, 3);
    assert_eq!(
        top_3_words,
        vec!["a".to_string(), "b".to_string(), "c".to_string()]
    );
}

#[test]
fn test_avg_word_length() {
    let content = "a bb ccc";
    let stats = analyze_text(content);
    assert_eq!(stats.avg_word_length, 2);
}

#[test]
fn test_longest_word() {
    let content = "a bb ccc";
    let stats = analyze_text(content);
    assert_eq!(stats.longest_word, "ccc");
}

#[test]
fn test_split_words_collapses_whitespace() {
    let words = split_words("  hello \t world\n");
    assert_eq!(words, vec!["hello".to_string(), "world".to_string()]);
    let none: Vec<String> = split_words("  \t \n");
    assert!(none.is_empty());
}

#[test]
fn test_split_words_unicode_whitespace() {
    // vertical tab, no-break space and em-space all separate words
    let words = split_words("a\u{000B}b\u{00A0}c\u{2003}d");
    assert_eq!(
        words,
        vec![
            "a".to_string(),
            "b".to_string(),
            "c".to_string(),
            "d".to_string()
        ]
    );
    let stats = analyze_text("a\u{000B}b");
    assert_eq!(stats.total_words, 2);
}

#[test]
fn test_word_lengths_count_bytes() {
    // "héllo" holds six bytes to "worlds" six and "hey" three: the later
    // six-byte word wins the tie, and the average is (6 + 6 + 3) / 3
    let stats = analyze_text("h\u{00E9}llo worlds hey");
    assert_eq!(stats.longest_word, "worlds");
    assert_eq!(stats.avg_word_length, 5);
}

#[test]
fn test_longest_word_tie_keeps_last() {
    let stats = analyze_text("aa bb");
    assert_eq!(stats.longest_word, "bb");
}

#[test]
fn test_change_appends() {
    let mut s = String::from("hello");
    change(&mut s);
    assert_eq!(s, "hello, world");
}

#[test]
fn test_dangle_returns_owned() {
    assert_eq!(dangle(), "hello");
}
