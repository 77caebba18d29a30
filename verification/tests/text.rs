use prompt_feedback::text::{chars_of, contains, precedes, same};

#[test]
fn chars_of_gives_each_character() {
    assert_eq!(chars_of(""), Vec::<char>::new());
    assert_eq!(chars_of("abc"), vec!['a', 'b', 'c']);
    assert_eq!(chars_of("né€"), vec!['n', 'é', '€']);
}

#[test]
fn same_compares_whole_texts() {
    assert!(same("", ""));
    assert!(same("abc", "abc"));
    assert!(!same("abc", "abd"));
    assert!(!same("abc", "ab"));
    assert!(!same("", "a"));
}

#[test]
fn contains_finds_a_run_anywhere() {
    assert!(contains("localhost:3000", "localhost"));
    assert!(contains("my.localhost", "localhost"));
    assert!(contains("xlocalhostx", "localhost"));
    assert!(contains("abc", "c"));
    assert!(contains("abc", "abc"));
    assert!(!contains("abc", "abcd"));
    assert!(!contains("localhos", "localhost"));
    assert!(!contains("local host", "localhost"));
    assert!(!contains("", "a"));
}

#[test]
fn contains_finds_the_empty_text_everywhere() {
    assert!(contains("", ""));
    assert!(contains("abc", ""));
}

#[test]
fn contains_agrees_with_the_standard_search() {
    let hays = ["", "a", "aa", "aab", "abab", "127.0.0.1:80", "1270001", "ééa"];
    let needles = ["", "a", "ab", "b", "aa", "127.0.0.1", "é", "éa"];
    for hay in hays {
        for needle in needles {
            assert_eq!(contains(hay, needle), hay.contains(needle), "{hay:?} {needle:?}");
        }
    }
}

#[test]
fn precedes_is_the_strict_lexicographic_order() {
    assert!(precedes("", "a"));
    assert!(!precedes("", ""));
    assert!(!precedes("a", ""));
    assert!(precedes("a", "b"));
    assert!(!precedes("b", "a"));
    assert!(precedes("ab", "abc"));
    assert!(!precedes("abc", "ab"));
    assert!(!precedes("abc", "abc"));
    assert!(precedes("abc", "abd"));
    assert!(precedes("2024-01-01T00:00:00+00:00", "2024-01-01T00:00:00.001+00:00"));
    assert!(precedes("2024-01-01T00:00:00.001+00:00", "2024-01-01T00:00:00.001001+00:00"));
}

#[test]
fn precedes_agrees_with_the_standard_order() {
    let texts = ["", "a", "A", "aa", "ab", "b", "é", "z", "€", "10", "9"];
    for a in texts {
        for b in texts {
            assert_eq!(precedes(a, b), a < b, "{a:?} {b:?}");
        }
    }
}
