use rust_basics::ownership::{get_first_word, str_change, strlen, strlen_bad, strlen_fix};

#[test]
fn strlen_bad_counts_bytes() {
    assert_eq!(strlen_bad(String::from("string")), 6);
    assert_eq!(strlen_bad(String::new()), 0);
}

#[test]
fn strlen_fix_hands_the_text_back() {
    let (text, len) = strlen_fix(String::from("string"));
    assert_eq!(text, "string");
    assert_eq!(len, 6);
}

#[test]
fn strlen_borrows() {
    let text = String::from("string");
    assert_eq!(strlen(&text), 6);
    assert_eq!(text, "string");
}

#[test]
fn lengths_are_in_bytes_not_characters() {
    // Two Hangul syllables of three bytes each, a comma, a space, a four-byte emoji.
    let text = String::from("한글, 😈");
    assert_eq!(text.chars().count(), 5);
    assert_eq!(strlen(&text), 12);
    assert_eq!(strlen_bad(text.clone()), 12);
    assert_eq!(strlen_fix(text).1, 12);
}

#[test]
fn str_change_appends_suffix() {
    let mut text = String::from("string");
    str_change(&mut text);
    assert_eq!(text, "string_string");
    str_change(&mut text);
    assert_eq!(text, "string_string_string");
}

#[test]
fn str_change_on_empty_text() {
    let mut text = String::new();
    str_change(&mut text);
    assert_eq!(text, "_string");
}

#[test]
fn first_word_of_two() {
    let text = String::from("hello world");
    assert_eq!(get_first_word(&text), "hello");
}

#[test]
fn first_word_without_space_is_everything() {
    let text = String::from("hello");
    assert_eq!(get_first_word(&text), "hello");
}

#[test]
fn first_word_of_empty_text() {
    let text = String::new();
    assert_eq!(get_first_word(&text), "");
}

#[test]
fn first_word_after_leading_space_is_empty() {
    let text = String::from(" hello world");
    assert_eq!(get_first_word(&text), "");
}

#[test]
fn first_word_stops_at_the_first_of_many_spaces() {
    let text = String::from("a  b c");
    assert_eq!(get_first_word(&text), "a");
}

#[test]
fn first_word_of_text_beyond_ascii() {
    let text = String::from("헬로월드 ㅎㅎ");
    assert_eq!(get_first_word(&text), "헬로월드");
    let text = String::from("😈😈");
    assert_eq!(get_first_word(&text), "😈😈");
}

#[test]
fn first_word_ignores_other_white_space() {
    let text = String::from("tab\tand\nline end");
    assert_eq!(get_first_word(&text), "tab\tand\nline");
    // U+3000, the ideographic space, is no space character here.
    let text = String::from("wide\u{3000}space");
    assert_eq!(get_first_word(&text), "wide\u{3000}space");
}

#[test]
fn first_word_leaves_the_text_usable() {
    let mut text = String::from("hello world");
    let word = get_first_word(&text).to_string();
    text.push_str(" ㅎㅎ");
    assert_eq!(word, "hello");
    assert_eq!(text, "hello world ㅎㅎ");
}
