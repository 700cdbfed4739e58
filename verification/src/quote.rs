//! Quoting one word: choosing between no quotes, double quotes and single
//! quotes, and escaping what the chosen style cannot hold verbatim.

use crate::charset::{
    char_is_single_quote, classify, has_other_special, has_single_quote, has_special,
    has_special_within_double, is_single_quote, lemma_contains_any_push, word_class, WordClass,
};
use crate::laws::{
    lone_single_quotes_take_double_quotes, mixed_quotes_are_escaped, plain_word_is_unchanged,
    quote_is_never_empty, specials_without_single_quote_take_single_quotes,
};
use vstd::prelude::*;

verus! {

/// How a word is written out.
#[derive(Clone, Copy, Debug, PartialEq, Eq, Structural)]
pub enum QuoteStyle {
    /// As it is, with no quotes around it.
    Bare,
    /// Verbatim between double quotes.
    Double,
    /// Between single quotes, each single quote of the word escaped.
    Single,
}

/// The decision table, first match wins: double quotes when the only obstacle
/// is a single quote; single quotes when any other special character occurs;
/// no quotes otherwise.
pub open spec fn style_for(class: WordClass) -> QuoteStyle {
    if class.has_single_quote && !class.has_special_within_double {
        QuoteStyle::Double
    } else if class.has_single_quote || class.has_special_within_double
        || class.has_other_special {
        QuoteStyle::Single
    } else {
        QuoteStyle::Bare
    }
}

/// The style in which a non-empty word is written.
pub open spec fn quote_style(w: Seq<char>) -> QuoteStyle {
    style_for(word_class(w))
}

/// What stands for one character inside single quotes: a single quote
/// becomes `'\''` (close the quotes, an escaped quote, open them again),
/// any other character stands for itself.
pub open spec fn escaped_char(c: char) -> Seq<char> {
    if is_single_quote(c) {
        seq!['\'', '\\', '\'', '\'']
    } else {
        seq![c]
    }
}

/// The word with each of its characters replaced by `escaped_char` of it.
pub open spec fn escape_single_quotes(w: Seq<char>) -> Seq<char>
    decreases w.len(),
{
    if w.len() == 0 {
        Seq::empty()
    } else {
        escape_single_quotes(w.drop_last()) + escaped_char(w.last())
    }
}

/// The word verbatim between double quotes.
pub open spec fn double_quoted(w: Seq<char>) -> Seq<char> {
    seq!['"'] + w + seq!['"']
}

/// The word between single quotes, with its own single quotes escaped.
pub open spec fn single_quoted(w: Seq<char>) -> Seq<char> {
    seq!['\''] + escape_single_quotes(w) + seq!['\'']
}

/// The quoted form of a word: `''` for the empty word, otherwise the word
/// written in the style that the decision table gives it.
pub open spec fn quoted(w: Seq<char>) -> Seq<char> {
    if w.len() == 0 {
        seq!['\'', '\'']
    } else {
        match quote_style(w) {
            QuoteStyle::Bare => w,
            QuoteStyle::Double => double_quoted(w),
            QuoteStyle::Single => single_quoted(w),
        }
    }
}

/// Taken on trust of the standard library's `String::push`, which Verus does
/// not read: it appends `ch` to the end of the string, so that afterwards the
/// string holds the characters it held before, followed by `ch`.
pub assume_specification[ String::push ](s: &mut String, ch: char)
    ensures
        final(s)@ == old(s)@.push(ch),
;

/// Escaping the empty word gives the empty word.
pub proof fn lemma_escape_empty()
    ensures
        escape_single_quotes(Seq::<char>::empty()) == Seq::<char>::empty(),
{
}

/// Escaping a word extended by one character extends the escaped word by
/// what stands for that character.
pub proof fn lemma_escape_push(w: Seq<char>, c: char)
    ensures
        escape_single_quotes(w.push(c)) == escape_single_quotes(w) + escaped_char(c),
{
    assert(w.push(c).drop_last() == w);
}

/// A word without single quotes is its own escaped form.
pub proof fn lemma_escape_without_quotes(w: Seq<char>)
    requires
        !has_single_quote(w),
    ensures
        escape_single_quotes(w) == w,
    decreases w.len(),
{
    if w.len() > 0 {
        let head = w.drop_last();
        let sq = |c: char| is_single_quote(c);
        assert(w == head.push(w.last()));
        lemma_contains_any_push(head, w.last(), sq);
        lemma_escape_without_quotes(head);
    }
}

/// The escaped form is at least as long as the word.
pub proof fn lemma_escape_len(w: Seq<char>)
    ensures
        escape_single_quotes(w).len() >= w.len(),
    decreases w.len(),
{
    if w.len() > 0 {
        lemma_escape_len(w.drop_last());
    }
}

/// Picks the style for a word from what a scan of it found.
pub fn choose_style(class: WordClass) -> (style: QuoteStyle)
    ensures
        style == style_for(class),
{
    if class.has_single_quote && !class.has_special_within_double {
        QuoteStyle::Double
    } else if class.has_single_quote || class.has_special_within_double
        || class.has_other_special {
        QuoteStyle::Single
    } else {
        QuoteStyle::Bare
    }
}

/// Appends to `out` the characters of `word`, each single quote among them
/// written as `'\''`.
pub fn push_escaped(out: &mut String, word: &str)
    ensures
        final(out)@ == old(out)@ + escape_single_quotes(word@),
{
    let ghost before = out@;
    proof {
        lemma_escape_empty();
        assert(word@.take(0) == Seq::<char>::empty());
    }
    for c in it: word.chars()
        invariant
            it.seq() == word@,
            out@ == before + escape_single_quotes(word@.take(it.index() as int)),
    {
        proof {
            let seen = word@.take(it.index() as int);
            assert(word@.take(it.index() + 1) == seen.push(c));
            lemma_escape_push(seen, c);
            reveal_strlit("'\\''");
            assert("'\\''"@ == seq!['\'', '\\', '\'', '\'']);
        }
        if char_is_single_quote(c) {
            out.append("'\\''");
        } else {
            out.push(c);
        }
    }
    assert(word@.take(word@.len() as int) == word@);
}

/// Quotes `word` for a POSIX-like shell, adding quotes only where the word
/// holds a character that the shell would otherwise interpret.
///
/// The empty word becomes `''`. A word whose only special characters are
/// single quotes and characters that double quotes disarm is put verbatim
/// between double quotes. A word with any other special character is put
/// between single quotes, each single quote in it written as `'\''`. A word
/// without special characters is returned unchanged.
pub fn quote(word: &str) -> (out: String)
    ensures
        out@ == quoted(word@),
        out@.len() > 0,
        word@.len() > 0 && !has_special(word@) ==> out@ == word@,
        has_single_quote(word@) && !has_special_within_double(word@) ==> out@ == seq!['"']
            + word@ + seq!['"'],
        !has_single_quote(word@) && (has_special_within_double(word@) || has_other_special(
            word@,
        )) ==> out@ == seq!['\''] + word@ + seq!['\''],
        has_single_quote(word@) && has_special_within_double(word@) ==> out@ == seq!['\'']
            + escape_single_quotes(word@) + seq!['\''],
{
    proof {
        quote_is_never_empty(word@);
        if has_single_quote(word@) {
            if has_special_within_double(word@) {
                mixed_quotes_are_escaped(word@);
            } else {
                lone_single_quotes_take_double_quotes(word@);
            }
        } else if has_special(word@) {
            specials_without_single_quote_take_single_quotes(word@);
        } else if word@.len() > 0 {
            plain_word_is_unchanged(word@);
        }
    }
    if word.is_empty() {
        proof {
            reveal_strlit("''");
            assert("''"@ == seq!['\'', '\'']);
        }
        return "''".to_owned();
    }
    let class = classify(word);
    let mut out = String::new();
    match choose_style(class) {
        QuoteStyle::Bare => {
            out.append(word);
        },
        QuoteStyle::Double => {
            proof {
                reveal_strlit("\"");
                assert("\""@ == seq!['"']);
            }
            out.append("\"");
            out.append(word);
            out.append("\"");
        },
        QuoteStyle::Single => {
            proof {
                reveal_strlit("'");
                assert("'"@ == seq!['\'']);
            }
            out.append("'");
            if class.has_single_quote {
                push_escaped(&mut out, word);
            } else {
                proof {
                    lemma_escape_without_quotes(word@);
                }
                out.append(word);
            }
            out.append("'");
        },
    }
    out
}

} // verus!
