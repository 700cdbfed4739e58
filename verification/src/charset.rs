//! The character classes that decide how a word is quoted.
//!
//! A POSIX-like shell gives meaning to three kinds of characters:
//!
//! * the single quote, which cannot appear inside single-quoted text;
//! * characters that keep their meaning even between double quotes;
//! * characters that are special in a bare word but inert between quotes of
//!   either kind.
//!
//! Each class has a specification predicate on `char`, an executable test
//! proved equal to it, and a predicate on whole words ("some character of the
//! word is in the class").

use vstd::prelude::*;

verus! {

/// The single-quote character.
pub open spec fn is_single_quote(c: char) -> bool {
    c == '\''
}

/// Characters that stay special inside double quotes: `$`, `` ` ``, `\`, `"`
/// (POSIX), `@` (Bash, also extglob) and `!` (Bash history expansion).
pub open spec fn is_special_within_double(c: char) -> bool {
    c == '$' || c == '`' || c == '\\' || c == '"' || c == '@' || c == '!'
}

/// Characters that are special outside quotes but inert inside single or
/// double quotes: `| & ; < > ( )`, space, tab, newline, `* ? [ # ~ %` (POSIX),
/// `]` (Bash glob patterns) and `{ }` (Bash brace expansion).
pub open spec fn is_other_special(c: char) -> bool {
    c == '|' || c == '&' || c == ';' || c == '<' || c == '>' || c == '(' || c == ')' || c == ' '
        || c == '\t' || c == '\n' || c == '*' || c == '?' || c == '[' || c == '#' || c == '~' || c
        == '%' || c == ']' || c == '{' || c == '}'
}

/// A character of any of the three classes.
pub open spec fn is_special(c: char) -> bool {
    is_single_quote(c) || is_special_within_double(c) || is_other_special(c)
}

/// Some character of `w` satisfies `class`.
pub open spec fn contains_any(w: Seq<char>, class: spec_fn(char) -> bool) -> bool {
    exists|i: int| 0 <= i < w.len() && class(#[trigger] w[i])
}

/// The word contains a literal single quote.
pub open spec fn has_single_quote(w: Seq<char>) -> bool {
    contains_any(w, |c: char| is_single_quote(c))
}

/// The word contains a character that stays special inside double quotes.
pub open spec fn has_special_within_double(w: Seq<char>) -> bool {
    contains_any(w, |c: char| is_special_within_double(c))
}

/// The word contains a character that is special only outside quotes.
pub open spec fn has_other_special(w: Seq<char>) -> bool {
    contains_any(w, |c: char| is_other_special(c))
}

/// The word contains a special character of any class.
pub open spec fn has_special(w: Seq<char>) -> bool {
    has_single_quote(w) || has_special_within_double(w) || has_other_special(w)
}

/// Tells whether `c` is the single quote.
pub fn char_is_single_quote(c: char) -> (b: bool)
    ensures
        b == is_single_quote(c),
{
    c == '\''
}

/// Tells whether `c` stays special inside double quotes.
pub fn char_is_special_within_double(c: char) -> (b: bool)
    ensures
        b == is_special_within_double(c),
{
    match c {
        '$' | '`' | '\\' | '"' | '@' | '!' => true,
        _ => false,
    }
}

/// Tells whether `c` is special only outside quotes.
pub fn char_is_other_special(c: char) -> (b: bool)
    ensures
        b == is_other_special(c),
{
    match c {
        '|' | '&' | ';' | '<' | '>' | '(' | ')' | ' ' | '\t' | '\n' => true,
        '*' | '?' | '[' | '#' | '~' | '%' => true,
        ']' => true,
        '{' | '}' => true,
        _ => false,
    }
}

/// What one scan of a word finds out about it.
#[derive(Clone, Copy, Debug, PartialEq, Eq, Structural)]
pub struct WordClass {
    /// The word contains a single quote.
    pub has_single_quote: bool,
    /// The word contains a character that stays special inside double quotes.
    pub has_special_within_double: bool,
    /// The word contains a character that is special only outside quotes.
    pub has_other_special: bool,
}

/// The classification of a word as a specification value.
pub open spec fn word_class(w: Seq<char>) -> WordClass {
    WordClass {
        has_single_quote: has_single_quote(w),
        has_special_within_double: has_special_within_double(w),
        has_other_special: has_other_special(w),
    }
}

/// Appending a character adds exactly that character's membership in the
/// class to what the prefix already contained.
pub proof fn lemma_contains_any_push(w: Seq<char>, c: char, class: spec_fn(char) -> bool)
    ensures
        contains_any(w.push(c), class) <==> contains_any(w, class) || class(c),
{
    let v = w.push(c);
    if contains_any(w, class) {
        let i = choose|i: int| 0 <= i < w.len() && class(#[trigger] w[i]);
        assert(class(v[i]));
    }
    if class(c) {
        assert(class(v[w.len() as int]));
    }
    if contains_any(v, class) {
        let i = choose|i: int| 0 <= i < v.len() && class(#[trigger] v[i]);
        if i < w.len() {
            assert(class(w[i]));
        }
    }
}

/// A word contains a special character exactly if one of its characters is
/// special.
pub proof fn lemma_has_special_iff(w: Seq<char>)
    ensures
        has_special(w) <==> contains_any(w, |c: char| is_special(c)),
{
    let sq = |c: char| is_single_quote(c);
    let wd = |c: char| is_special_within_double(c);
    let os = |c: char| is_other_special(c);
    let any = |c: char| is_special(c);
    if contains_any(w, sq) {
        let i = choose|i: int| 0 <= i < w.len() && sq(#[trigger] w[i]);
        assert(any(w[i]));
    }
    if contains_any(w, wd) {
        let i = choose|i: int| 0 <= i < w.len() && wd(#[trigger] w[i]);
        assert(any(w[i]));
    }
    if contains_any(w, os) {
        let i = choose|i: int| 0 <= i < w.len() && os(#[trigger] w[i]);
        assert(any(w[i]));
    }
    if contains_any(w, any) {
        let i = choose|i: int| 0 <= i < w.len() && any(#[trigger] w[i]);
        assert(sq(w[i]) || wd(w[i]) || os(w[i]));
    }
}

/// Scans `word` once and reports which classes of special character occur
/// in it.
pub fn classify(word: &str) -> (class: WordClass)
    ensures
        class == word_class(word@),
{
    let mut class = WordClass {
        has_single_quote: false,
        has_special_within_double: false,
        has_other_special: false,
    };
    for c in it: word.chars()
        invariant
            it.seq() == word@,
            class == word_class(word@.take(it.index() as int)),
    {
        proof {
            let seen = word@.take(it.index() as int);
            assert(word@.take(it.index() + 1) == seen.push(c));
            lemma_contains_any_push(seen, c, |c: char| is_single_quote(c));
            lemma_contains_any_push(seen, c, |c: char| is_special_within_double(c));
            lemma_contains_any_push(seen, c, |c: char| is_other_special(c));
        }
        class = WordClass {
            has_single_quote: class.has_single_quote || char_is_single_quote(c),
            has_special_within_double: class.has_special_within_double
                || char_is_special_within_double(c),
            has_other_special: class.has_other_special || char_is_other_special(c),
        };
    }
    assert(word@.take(word@.len() as int) == word@);
    class
}

} // verus!
