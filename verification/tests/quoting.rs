use command_unquoted::charset::{classify, WordClass};
use command_unquoted::quote;
use command_unquoted::quote::{choose_style, push_escaped, QuoteStyle};

#[test]
fn quoted() {
    assert_eq!(quote(""), r"''");

    // special characters, generally: use single quotes
    assert_eq!(quote("meow"), r"meow");
    assert_eq!(quote("|meow"), "'|meow'");
    assert_eq!(quote("meow&"), "'meow&'");
    assert_eq!(quote("meow;"), "'meow;'");
    assert_eq!(quote("<meow"), "'<meow'");
    assert_eq!(quote(">meow"), "'>meow'");
    assert_eq!(quote("(meow"), "'(meow'");
    assert_eq!(quote("meow)"), "'meow)'");
    assert_eq!(quote("$meow"), "'$meow'");
    assert_eq!(quote("`meow`"), "'`meow`'");
    assert_eq!(quote(r"\meow"), r"'\meow'");
    assert_eq!(quote(r#""meow""#), r#"'"meow"'"#);
    assert_eq!(quote("meow meow"), "'meow meow'");
    assert_eq!(quote("meow\tmeow"), "'meow\tmeow'");
    assert_eq!(quote("meow\nmeow"), "'meow\nmeow'");
    assert_eq!(quote("meow*"), "'meow*'");
    assert_eq!(quote("meow?"), "'meow?'");
    assert_eq!(quote("[meow"), "'[meow'");
    assert_eq!(quote("meow]"), "'meow]'");
    assert_eq!(quote("{meow"), "'{meow'");
    assert_eq!(quote("meow}"), "'meow}'");
    assert_eq!(quote("#meow"), "'#meow'");
    assert_eq!(quote("~meow"), "'~meow'");
    assert_eq!(quote("%meow"), "'%meow'");
    assert_eq!(quote("@meow"), "'@meow'");
    assert_eq!(quote("!meow"), "'!meow'");

    // single-quote with no other special characters: use double quotes
    assert_eq!(quote("meow's"), r#""meow's""#);
    // single-quote with special characters that don't have special meaning
    // inside double quotes: use double quotes
    assert_eq!(quote("|meow's"), r#""|meow's""#);
    assert_eq!(quote("meow's&"), r#""meow's&""#);
    assert_eq!(quote("meow's;"), r#""meow's;""#);
    assert_eq!(quote("<meow's"), r#""<meow's""#);
    assert_eq!(quote(">meow's"), r#"">meow's""#);
    assert_eq!(quote("(meow's"), r#""(meow's""#);
    assert_eq!(quote("meow's)"), r#""meow's)""#);
    assert_eq!(quote("meow's meow"), r#""meow's meow""#);
    assert_eq!(quote("meow's\tmeow"), "\"meow's\tmeow\"");
    assert_eq!(quote("meow's\nmeow"), "\"meow's\nmeow\"");
    assert_eq!(quote("meow's*"), r#""meow's*""#);
    assert_eq!(quote("meow's?"), r#""meow's?""#);
    assert_eq!(quote("[meow's"), r#""[meow's""#);
    assert_eq!(quote("meow's]"), r#""meow's]""#);
    assert_eq!(quote("{meow's"), r#""{meow's""#);
    assert_eq!(quote("meow's}"), r#""meow's}""#);
    assert_eq!(quote("#meow's"), r##""#meow's""##);
    assert_eq!(quote("~meow's"), r#""~meow's""#);
    assert_eq!(quote("%meow's"), r#""%meow's""#);
    // single-quote with special characters that _do_ have special meaning
    // inside double quotes: use single quotes
    assert_eq!(quote("$meow's"), r"'$meow'\''s'");
    assert_eq!(quote("`meow's`"), r"'`meow'\''s`'");
    assert_eq!(quote(r"\meow's"), r"'\meow'\''s'");
    assert_eq!(quote(r#""meow's""#), r#"'"meow'\''s"'"#);
    assert_eq!(quote("@meow's"), r"'@meow'\''s'");
    assert_eq!(quote("!meow's"), r"'!meow'\''s'");
}

#[test]
fn empty_word_is_a_pair_of_single_quotes() {
    assert_eq!(quote(""), "''");
    assert_eq!(quote("").chars().count(), 2);
}

#[test]
fn quoted_form_is_never_empty() {
    for word in ["", "a", " ", "'", "\"", "a'b$c", "\u{fffd}", "\0"] {
        assert!(!quote(word).is_empty(), "{word:?}");
    }
}

#[test]
fn plain_words_are_left_alone() {
    for word in ["meow", "a", "/usr/bin/env", "key=value", "-x", "--long-flag", "a,b.c:d+e_f^g"] {
        assert_eq!(quote(word), word);
        assert_eq!(quote(&quote(word)), word);
    }
}

#[test]
fn characters_outside_ascii_are_not_special() {
    assert_eq!(quote("caf\u{e9}"), "caf\u{e9}");
    assert_eq!(quote("\u{fffd}"), "\u{fffd}");
    assert_eq!(quote("\u{65e5}\u{672c}\u{8a9e}"), "\u{65e5}\u{672c}\u{8a9e}");
    assert_eq!(quote("caf\u{e9} au lait"), "'caf\u{e9} au lait'");
    assert_eq!(quote("l'\u{e9}t\u{e9}"), "\"l'\u{e9}t\u{e9}\"");
    assert_eq!(quote("$l'\u{e9}t\u{e9}"), "'$l'\\''\u{e9}t\u{e9}'");
}

#[test]
fn control_characters_other_than_tab_and_newline_are_not_special() {
    assert_eq!(quote("a\rb"), "a\rb");
    assert_eq!(quote("\0"), "\0");
    assert_eq!(quote("\u{1b}[0m"), "'\u{1b}[0m'");
}

#[test]
fn punctuation_only_words_follow_the_same_table() {
    assert_eq!(quote("-"), "-");
    assert_eq!(quote("=,.:/+^_"), "=,.:/+^_");
    assert_eq!(quote("&&"), "'&&'");
    assert_eq!(quote("|&;<>()*?[#~%]{}"), "'|&;<>()*?[#~%]{}'");
    assert_eq!(quote("$`\\\"@!"), "'$`\\\"@!'");
    assert_eq!(quote("';'"), "\"';'\"");
    assert_eq!(quote("'!'"), "''\\''!'\\'''");
}

#[test]
fn reserved_words_are_not_special_to_the_quoter() {
    for word in command_unquoted::RESERVED_COMMAND_WORDS {
        assert_eq!(quote(word), word);
    }
}

#[test]
fn whitespace_only_words_take_single_quotes() {
    assert_eq!(quote(" "), "' '");
    assert_eq!(quote("\t"), "'\t'");
    assert_eq!(quote("\n"), "'\n'");
    assert_eq!(quote(" \t\n"), "' \t\n'");
}

#[test]
fn lone_single_quotes_take_double_quotes() {
    assert_eq!(quote("'"), "\"'\"");
    assert_eq!(quote("''"), "\"''\"");
    assert_eq!(quote("it's a 'word'"), "\"it's a 'word'\"");
}

#[test]
fn specials_without_single_quote_are_wrapped_verbatim() {
    assert_eq!(quote("$"), "'$'");
    assert_eq!(quote("\\"), "'\\'");
    assert_eq!(quote("\""), "'\"'");
    assert_eq!(quote("a|b&c;d"), "'a|b&c;d'");
    assert_eq!(quote("$HOME/*.rs"), "'$HOME/*.rs'");
}

#[test]
fn each_single_quote_is_escaped_inside_single_quotes() {
    assert_eq!(quote("'$"), "''\\''$'");
    assert_eq!(quote("$'"), "'$'\\'''");
    assert_eq!(quote("'$'"), "''\\''$'\\'''");
    assert_eq!(quote("''!"), "''\\'''\\''!'");
    assert_eq!(quote("a'b\"c'd"), "'a'\\''b\"c'\\''d'");
    assert_eq!(quote("'\\''"), "''\\''\\'\\'''\\'''");
}

#[test]
fn escaping_adds_three_characters_for_each_single_quote() {
    let word = "a'b'c'$";
    let out = quote(word);
    assert_eq!(out.chars().count(), word.chars().count() + 2 + 3 * 3);
    assert_eq!(out, "'a'\\''b'\\''c'\\''$'");
}

#[test]
fn different_words_have_different_quoted_forms() {
    let words = [
        "", "'", "''", "\"", "\"\"", "'\\''", "a", "'a'", "\"a\"", "a'", "a'$", "$", "'$'", " ",
        "' '", "\\'", "\\", "'\\'",
    ];
    for (i, a) in words.iter().enumerate() {
        for (j, b) in words.iter().enumerate() {
            if i != j {
                assert_ne!(quote(a), quote(b), "{a:?} and {b:?}");
            }
        }
    }
}

#[test]
fn classify_reports_each_class_on_its_own() {
    let class = |q: bool, d: bool, o: bool| WordClass {
        has_single_quote: q,
        has_special_within_double: d,
        has_other_special: o,
    };
    assert_eq!(classify(""), class(false, false, false));
    assert_eq!(classify("plain"), class(false, false, false));
    assert_eq!(classify("it's"), class(true, false, false));
    assert_eq!(classify("a@b"), class(false, true, false));
    assert_eq!(classify("a b"), class(false, false, true));
    assert_eq!(classify("' $"), class(true, true, true));
    assert_eq!(classify("plain until the end'"), class(true, false, true));
}

#[test]
fn classify_knows_every_special_character() {
    for c in ['$', '`', '\\', '"', '@', '!'] {
        let class = classify(&c.to_string());
        assert!(class.has_special_within_double, "{c:?}");
        assert!(!class.has_single_quote && !class.has_other_special, "{c:?}");
    }
    for c in [
        '|', '&', ';', '<', '>', '(', ')', ' ', '\t', '\n', '*', '?', '[', '#', '~', '%', ']', '{',
        '}',
    ] {
        let class = classify(&c.to_string());
        assert!(class.has_other_special, "{c:?}");
        assert!(!class.has_single_quote && !class.has_special_within_double, "{c:?}");
    }
    for c in ['=', '-', '_', '/', '.', ',', ':', '+', '^', 'a', 'Z', '0', '\r'] {
        let class = classify(&c.to_string());
        assert!(
            !class.has_single_quote && !class.has_special_within_double && !class.has_other_special,
            "{c:?}"
        );
    }
}

#[test]
fn style_follows_the_decision_table() {
    let class = |q: bool, d: bool, o: bool| WordClass {
        has_single_quote: q,
        has_special_within_double: d,
        has_other_special: o,
    };
    assert_eq!(choose_style(class(false, false, false)), QuoteStyle::Bare);
    assert_eq!(choose_style(class(false, false, true)), QuoteStyle::Single);
    assert_eq!(choose_style(class(false, true, false)), QuoteStyle::Single);
    assert_eq!(choose_style(class(false, true, true)), QuoteStyle::Single);
    assert_eq!(choose_style(class(true, false, false)), QuoteStyle::Double);
    assert_eq!(choose_style(class(true, false, true)), QuoteStyle::Double);
    assert_eq!(choose_style(class(true, true, false)), QuoteStyle::Single);
    assert_eq!(choose_style(class(true, true, true)), QuoteStyle::Single);
}

#[test]
fn push_escaped_appends_to_what_is_there() {
    let mut out = String::from("x=");
    push_escaped(&mut out, "a'b");
    assert_eq!(out, "x=a'\\''b");
    push_escaped(&mut out, "");
    assert_eq!(out, "x=a'\\''b");
    push_escaped(&mut out, "plain");
    assert_eq!(out, "x=a'\\''bplain");
}
