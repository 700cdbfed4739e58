//! What holds of the quoted form of every word and of the rendering of
//! every invocation.

use crate::charset::{
    has_other_special, has_single_quote, has_special, has_special_within_double, is_single_quote,
    is_special, lemma_has_special_iff,
};
use crate::quote::{
    escape_single_quotes, escaped_char, lemma_escape_len, lemma_escape_without_quotes, quote_style,
    quoted, QuoteStyle,
};
use crate::render::{rendered_arg, rendered_args, rendered_env, rendered_envs, rendered_program};
use crate::reserved::{
    is_lowercase_word, is_reserved_word, reserved_words, reserved_words_are_lowercase,
};
use vstd::prelude::*;

verus! {

/// The quoted form of a word is never empty.
pub proof fn quote_is_never_empty(w: Seq<char>)
    ensures
        quoted(w).len() > 0,
{
}

/// A non-empty word without special characters is its own quoted form, so
/// quoting it any number of times leaves it as it was.
pub proof fn plain_word_is_unchanged(w: Seq<char>)
    requires
        w.len() > 0,
        !has_special(w),
    ensures
        quoted(w) == w,
        quoted(quoted(w)) == w,
{
}

/// A word with a single quote, and with no character that stays special
/// inside double quotes, is put verbatim between double quotes.
pub proof fn lone_single_quotes_take_double_quotes(w: Seq<char>)
    requires
        has_single_quote(w),
        !has_special_within_double(w),
    ensures
        quoted(w) == seq!['"'] + w + seq!['"'],
{
}

/// A word with a special character other than the single quote, and with no
/// single quote, is put verbatim between single quotes.
pub proof fn specials_without_single_quote_take_single_quotes(w: Seq<char>)
    requires
        !has_single_quote(w),
        has_special_within_double(w) || has_other_special(w),
    ensures
        quoted(w) == seq!['\''] + w + seq!['\''],
{
    lemma_escape_without_quotes(w);
}

/// A word with a single quote and with a character that stays special inside
/// double quotes is put between single quotes, each of its single quotes
/// replaced by `'\''`.
pub proof fn mixed_quotes_are_escaped(w: Seq<char>)
    requires
        has_single_quote(w),
        has_special_within_double(w),
    ensures
        quoted(w) == seq!['\''] + escape_single_quotes(w) + seq!['\''],
{
}

/// Escaping single quotes loses nothing: two words with the same escaped form
/// are the same word.
pub proof fn escaping_is_injective(a: Seq<char>, b: Seq<char>)
    requires
        escape_single_quotes(a) == escape_single_quotes(b),
    ensures
        a == b,
    decreases a.len(),
{
    lemma_escape_len(a);
    lemma_escape_len(b);
    if a.len() == 0 || b.len() == 0 {
        assert(a =~= b);
    } else {
        let ea = escape_single_quotes(a.drop_last());
        let eb = escape_single_quotes(b.drop_last());
        let ta = escaped_char(a.last());
        let tb = escaped_char(b.last());
        let whole = escape_single_quotes(a);
        assert(whole == ea + ta);
        assert(whole == eb + tb);
        assert(whole.last() == ta.last());
        assert(whole.last() == tb.last());
        assert(is_single_quote(a.last()) == is_single_quote(b.last()));
        assert(a.last() == b.last());
        assert(ta == tb);
        assert(ea =~= whole.subrange(0, whole.len() - ta.len()));
        assert(eb =~= whole.subrange(0, whole.len() - tb.len()));
        escaping_is_injective(a.drop_last(), b.drop_last());
        assert(a =~= a.drop_last().push(a.last()));
        assert(b =~= b.drop_last().push(b.last()));
    }
}

/// The first character of a quoted word tells its style: a single quote for
/// the empty word and for the single-quoted style, a double quote for the
/// double-quoted style, and a character that is not special for a bare word.
proof fn lemma_quoted_head(w: Seq<char>)
    ensures
        w.len() == 0 ==> quoted(w).len() == 2 && quoted(w)[0] == '\'',
        w.len() > 0 && quote_style(w) == QuoteStyle::Single ==> quoted(w).len() >= 3 && quoted(
            w,
        )[0] == '\'',
        w.len() > 0 && quote_style(w) == QuoteStyle::Double ==> quoted(w)[0] == '"',
        w.len() > 0 && quote_style(w) == QuoteStyle::Bare ==> !is_special(quoted(w)[0]),
{
    lemma_escape_len(w);
    if w.len() > 0 && quote_style(w) == QuoteStyle::Bare {
        lemma_has_special_iff(w);
        let any = |c: char| is_special(c);
        assert(!any(w[0]));
    }
}

/// Quoting loses nothing: two words with the same quoted form are the same
/// word.
pub proof fn quoting_is_injective(a: Seq<char>, b: Seq<char>)
    requires
        quoted(a) == quoted(b),
    ensures
        a == b,
{
    lemma_quoted_head(a);
    lemma_quoted_head(b);
    let q = quoted(a);
    if a.len() == 0 || b.len() == 0 {
        assert(a =~= b);
    } else {
        match quote_style(a) {
            QuoteStyle::Bare => {},
            QuoteStyle::Double => {
                assert(a =~= q.subrange(1, q.len() - 1));
                assert(b =~= q.subrange(1, q.len() - 1));
            },
            QuoteStyle::Single => {
                assert(escape_single_quotes(a) =~= q.subrange(1, q.len() - 1));
                assert(escape_single_quotes(b) =~= q.subrange(1, q.len() - 1));
                escaping_is_injective(a, b);
            },
        }
    }
}

/// Environment variables without a value leave no trace: the assignments
/// render as if those variables had not been listed.
pub proof fn unset_variables_leave_no_trace(envs: Seq<(Seq<char>, Option<Seq<char>>)>)
    ensures
        rendered_envs(envs) == rendered_envs(
            envs.filter(|env: (Seq<char>, Option<Seq<char>>)| env.1 is Some),
        ),
    decreases envs.len(),
{
    let is_set = |env: (Seq<char>, Option<Seq<char>>)| env.1 is Some;
    reveal(Seq::filter);
    if envs.len() > 0 {
        let head = envs.drop_last();
        unset_variables_leave_no_trace(head);
        if is_set(envs.last()) {
            assert(head.filter(is_set).push(envs.last()).drop_last() == head.filter(is_set));
        } else {
            assert(rendered_envs(head) + rendered_env(envs.last()) == rendered_envs(head));
        }
    }
}

/// Each environment assignment is rendered on its own and in its place: the
/// rendering of two lists in a row is the rendering of the first followed by
/// that of the second.
pub proof fn assignments_render_in_order(
    first: Seq<(Seq<char>, Option<Seq<char>>)>,
    second: Seq<(Seq<char>, Option<Seq<char>>)>,
)
    ensures
        rendered_envs(first + second) == rendered_envs(first) + rendered_envs(second),
    decreases second.len(),
{
    if second.len() == 0 {
        assert(first + second == first);
        assert(rendered_envs(first) + rendered_envs(second) == rendered_envs(first));
    } else {
        assignments_render_in_order(first, second.drop_last());
        assert((first + second).drop_last() == first + second.drop_last());
        assert(rendered_envs(first + second) == (rendered_envs(first) + rendered_envs(
            second.drop_last(),
        )) + rendered_env(second.last()));
    }
}

/// Each argument is rendered on its own and in its place: the rendering of
/// two lists in a row is the rendering of the first followed by that of the
/// second.
pub proof fn arguments_render_in_order(first: Seq<Seq<char>>, second: Seq<Seq<char>>)
    ensures
        rendered_args(first + second) == rendered_args(first) + rendered_args(second),
    decreases second.len(),
{
    if second.len() == 0 {
        assert(first + second == first);
        assert(rendered_args(first) + rendered_args(second) == rendered_args(first));
    } else {
        arguments_render_in_order(first, second.drop_last());
        assert((first + second).drop_last() == first + second.drop_last());
        assert(rendered_args(first + second) == (rendered_args(first) + rendered_args(
            second.drop_last(),
        )) + rendered_arg(second.last()));
    }
}

/// No reserved word holds a special character. As a word among others it is
/// written bare; as the program it stands between single quotes only so that
/// it does not read as a keyword.
pub proof fn reserved_words_are_plain(w: Seq<char>)
    requires
        is_reserved_word(w),
    ensures
        w.len() > 0,
        !has_special(w),
        quoted(w) == w,
        rendered_program(w) == seq!['\''] + w + seq!['\''],
{
    let words = reserved_words();
    let i = choose|i: int| 0 <= i < words.len() && words[i] == w;
    reserved_words_are_lowercase();
    assert(is_lowercase_word(words[i]));
    assert forall|j: int| 0 <= j < w.len() implies !is_special(#[trigger] w[j]) by {
        assert('a' <= w[j] <= 'z');
    }
    lemma_has_special_iff(w);
}

} // verus!
