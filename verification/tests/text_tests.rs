use menma::text::{
    chars_of, contains_chars, contains_text, copy_range, find_char_from, split_chars, string_of,
};

fn chars(text: &str) -> Vec<char> {
    text.chars().collect()
}

#[test]
fn characters_of_a_string_and_back() {
    assert_eq!(chars_of("a\u{e9}\u{3042}z"), vec!['a', '\u{e9}', '\u{3042}', 'z']);
    assert_eq!(chars_of(""), Vec::<char>::new());
    assert_eq!(string_of(&['a', '\u{e9}', '\u{3042}', 'z']), "a\u{e9}\u{3042}z");
    assert_eq!(string_of(&[]), "");
}

#[test]
fn contains_text_finds_contiguous_parts() {
    assert!(contains_text("hello world", "lo w"));
    assert!(contains_text("hello", "hello"));
    assert!(contains_text("hello", ""));
    assert!(contains_text("", ""));
    assert!(contains_text("hello", "h"));
    assert!(contains_text("hello", "o"));
    assert!(contains_text("aab", "ab"));
    assert!(!contains_text("hello", "hello!"));
    assert!(!contains_text("hello", "hlo"));
    assert!(!contains_text("", "a"));
    assert!(!contains_text("hello", "L"));
}

#[test]
fn contains_text_agrees_with_the_standard_library() {
    let words = ["", "a", "ab", "ba", "aba", "abab", "tags", "tags:", "\u{3042}\u{3044}", "\u{3044}"];
    for hay in words {
        for needle in words {
            assert_eq!(contains_text(hay, needle), hay.contains(needle));
            assert_eq!(contains_chars(&chars(hay), &chars(needle)), hay.contains(needle));
        }
    }
}

#[test]
fn split_gives_one_part_more_than_there_are_separators() {
    let split = |text: &str| -> Vec<String> {
        split_chars(&chars(text), '#').iter().map(|part| string_of(part)).collect()
    };
    assert_eq!(split("a#b"), vec!["a", "b"]);
    assert_eq!(split(""), vec![""]);
    assert_eq!(split("#"), vec!["", ""]);
    assert_eq!(split("a#"), vec!["a", ""]);
    assert_eq!(split("#a"), vec!["", "a"]);
    assert_eq!(split("a##b"), vec!["a", "", "b"]);
    assert_eq!(split("abc"), vec!["abc"]);
    for text in ["x#y#z", "##", "no separator", "#\u{3042}#"] {
        let expected: Vec<String> = text.split('#').map(|part| part.to_string()).collect();
        assert_eq!(split(text), expected);
    }
}

#[test]
fn find_char_from_gives_the_first_index_at_or_after_the_start() {
    let text = chars("a#b#c");
    assert_eq!(find_char_from(&text, '#', 0), 1);
    assert_eq!(find_char_from(&text, '#', 1), 1);
    assert_eq!(find_char_from(&text, '#', 2), 3);
    assert_eq!(find_char_from(&text, '#', 4), 5);
    assert_eq!(find_char_from(&text, '#', 5), 5);
    assert_eq!(find_char_from(&text, 'x', 0), 5);
}

#[test]
fn copy_range_copies_the_characters_between_two_indices() {
    let text = chars("hello");
    assert_eq!(copy_range(&text, 1, 4), chars("ell"));
    assert_eq!(copy_range(&text, 0, 5), chars("hello"));
    assert_eq!(copy_range(&text, 2, 2), chars(""));
}
