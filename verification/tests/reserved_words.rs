use command_unquoted::reserved::{compare_words, is_reserved, WordOrder};
use command_unquoted::RESERVED_COMMAND_WORDS;

#[test]
fn command_words_sorted() {
    assert!(RESERVED_COMMAND_WORDS.windows(2).all(|s| s[0] < s[1]));
}

#[test]
fn every_reserved_word_is_found() {
    assert_eq!(RESERVED_COMMAND_WORDS.len(), 16);
    for word in RESERVED_COMMAND_WORDS {
        assert!(is_reserved(word), "{word}");
    }
}

#[test]
fn other_words_are_not_reserved() {
    for word in [
        "", "a", "cas", "cases", "Case", "CASE", "case ", " case", "d", "don", "dones",
        "fo", "form", "func", "i", "ifs", "int", "program", "whil", "whilee", "zzz", "untill",
        "\u{fffd}", "if\u{fffd}",
    ] {
        assert!(!is_reserved(word), "{word:?}");
    }
}

#[test]
fn lookup_agrees_with_a_scan_of_the_table() {
    for word in ["apple", "do", "dot", "elif", "else", "elsa", "esac", "time", "timer", "while"] {
        assert_eq!(is_reserved(word), RESERVED_COMMAND_WORDS.contains(&word), "{word}");
    }
}

#[test]
fn words_compare_character_by_character() {
    assert_eq!(compare_words("", ""), WordOrder::Same);
    assert_eq!(compare_words("", "a"), WordOrder::Before);
    assert_eq!(compare_words("a", ""), WordOrder::After);
    assert_eq!(compare_words("do", "done"), WordOrder::Before);
    assert_eq!(compare_words("done", "do"), WordOrder::After);
    assert_eq!(compare_words("done", "done"), WordOrder::Same);
    assert_eq!(compare_words("elif", "else"), WordOrder::Before);
    assert_eq!(compare_words("b", "abc"), WordOrder::After);
    assert_eq!(compare_words("Z", "a"), WordOrder::Before);
    assert_eq!(compare_words("z", "\u{e9}"), WordOrder::Before);
    assert_eq!(compare_words("\u{fffd}", "\u{10000}"), WordOrder::Before);
}

#[test]
fn word_order_agrees_with_the_order_of_strings() {
    let words = ["", "a", "ab", "b", "case", "do", "done", "\u{e9}", "\u{fffd}", "\u{10000}"];
    for a in words {
        for b in words {
            let expected = if a < b {
                WordOrder::Before
            } else if a == b {
                WordOrder::Same
            } else {
                WordOrder::After
            };
            assert_eq!(compare_words(a, b), expected, "{a:?} and {b:?}");
        }
    }
}
