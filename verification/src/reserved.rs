//! The shell's reserved words and the lookup that recognises them.
//!
//! A program whose name is a reserved word would read as the start of a
//! control structure, so the renderer puts such a name between single quotes
//! although nothing in it needs escaping. The words are kept in strictly
//! ascending order, which the lookup relies on to halve its range at each
//! step.

use vstd::prelude::*;
use vstd::std_specs::iter::IteratorSpec;

verus! {

/// The reserved words of POSIX and Bash, in strictly ascending order.
pub const RESERVED_COMMAND_WORDS: [&'static str; 16] = [
    "case",
    "do",
    "done",
    "elif",
    "else",
    "esac",
    "fi",
    "for",
    "function",
    "if",
    "in",
    "select",
    "then",
    "time",
    "until",
    "while",
];

/// The reserved words as sequences of characters, in table order.
pub open spec fn reserved_words() -> Seq<Seq<char>> {
    RESERVED_COMMAND_WORDS@.map_values(|s: &'static str| s@)
}

/// The word is one of the reserved words.
pub open spec fn is_reserved_word(w: Seq<char>) -> bool {
    reserved_words().contains(w)
}

/// `a` and `b` agree on their first `k` characters, and there `a` either ends
/// while `b` goes on, or has the smaller character.
pub open spec fn precedes_at(a: Seq<char>, b: Seq<char>, k: int) -> bool {
    &&& 0 <= k <= a.len()
    &&& k < b.len()
    &&& forall|j: int| 0 <= j < k ==> a[j] == b[j]
    &&& (k == a.len() || a[k] < b[k])
}

/// `a` comes strictly before `b` in the lexicographic order of their
/// characters.
pub open spec fn word_lt(a: Seq<char>, b: Seq<char>) -> bool {
    exists|k: int| precedes_at(a, b, k)
}

/// Each word comes strictly before every later one.
pub open spec fn strictly_sorted(words: Seq<Seq<char>>) -> bool {
    forall|i: int, j: int|
        0 <= i < j < words.len() ==> word_lt(#[trigger] words[i], #[trigger] words[j])
}

/// The word at `i` comes strictly before its successor.
pub open spec fn ascends_at(words: Seq<Seq<char>>, i: int) -> bool {
    word_lt(words[i], words[i + 1])
}

/// No word comes before itself.
pub proof fn lemma_word_lt_irreflexive(a: Seq<char>)
    ensures
        !word_lt(a, a),
{
}

/// The order is transitive.
pub proof fn lemma_word_lt_transitive(a: Seq<char>, b: Seq<char>, c: Seq<char>)
    requires
        word_lt(a, b),
        word_lt(b, c),
    ensures
        word_lt(a, c),
{
    let k1 = choose|k: int| precedes_at(a, b, k);
    let k2 = choose|k: int| precedes_at(b, c, k);
    let k = if k1 <= k2 {
        k1
    } else {
        k2
    };
    assert(precedes_at(a, c, k));
}

/// Of two words at most one comes before the other, and then they differ.
pub proof fn lemma_word_lt_asymmetric(a: Seq<char>, b: Seq<char>)
    requires
        word_lt(a, b),
    ensures
        a != b,
        !word_lt(b, a),
{
    lemma_word_lt_irreflexive(a);
    if word_lt(b, a) {
        lemma_word_lt_transitive(a, b, a);
    }
}

/// A sequence of words in which each comes before its successor is strictly
/// sorted.
pub proof fn lemma_sorted_from_adjacent(words: Seq<Seq<char>>)
    requires
        forall|i: int| 0 <= i < words.len() - 1 ==> #[trigger] ascends_at(words, i),
    ensures
        strictly_sorted(words),
{
    assert forall|i: int, j: int| 0 <= i < j < words.len() implies word_lt(
        #[trigger] words[i],
        #[trigger] words[j],
    ) by {
        lemma_ascending_run(words, i, j);
    }
}

/// A strictly sorted sequence of words holds no word twice.
pub proof fn lemma_sorted_no_duplicates(words: Seq<Seq<char>>)
    requires
        strictly_sorted(words),
    ensures
        words.no_duplicates(),
{
    assert forall|i: int, j: int|
        0 <= i < words.len() && 0 <= j < words.len() && i != j implies words[i] != words[j] by {
        if i < j {
            lemma_word_lt_asymmetric(words[i], words[j]);
        } else {
            lemma_word_lt_asymmetric(words[j], words[i]);
        }
    }
}

proof fn lemma_ascending_run(words: Seq<Seq<char>>, i: int, j: int)
    requires
        forall|i: int| 0 <= i < words.len() - 1 ==> #[trigger] ascends_at(words, i),
        0 <= i < j < words.len(),
    ensures
        word_lt(words[i], words[j]),
    decreases j - i,
{
    assert(ascends_at(words, j - 1));
    if i < j - 1 {
        lemma_ascending_run(words, i, j - 1);
        lemma_word_lt_transitive(words[i], words[j - 1], words[j]);
    }
}

/// In the table of reserved words each word comes before its successor.
proof fn lemma_reserved_words_ascend()
    ensures
        reserved_words().len() == 16,
        forall|i: int| 0 <= i < 15 ==> #[trigger] ascends_at(reserved_words(), i),
{
    let ws = reserved_words();
    assert(ws.len() == 16);
    assert(ascends_at(ws, 0)) by {
        reveal_strlit("case");
        reveal_strlit("do");
        assert(precedes_at("case"@, "do"@, 0));
    }
    assert(ascends_at(ws, 1)) by {
        reveal_strlit("do");
        reveal_strlit("done");
        assert(precedes_at("do"@, "done"@, 2));
    }
    assert(ascends_at(ws, 2)) by {
        reveal_strlit("done");
        reveal_strlit("elif");
        assert(precedes_at("done"@, "elif"@, 0));
    }
    assert(ascends_at(ws, 3)) by {
        reveal_strlit("elif");
        reveal_strlit("else");
        assert(precedes_at("elif"@, "else"@, 2));
    }
    assert(ascends_at(ws, 4)) by {
        reveal_strlit("else");
        reveal_strlit("esac");
        assert(precedes_at("else"@, "esac"@, 1));
    }
    assert(ascends_at(ws, 5)) by {
        reveal_strlit("esac");
        reveal_strlit("fi");
        assert(precedes_at("esac"@, "fi"@, 0));
    }
    assert(ascends_at(ws, 6)) by {
        reveal_strlit("fi");
        reveal_strlit("for");
        assert(precedes_at("fi"@, "for"@, 1));
    }
    assert(ascends_at(ws, 7)) by {
        reveal_strlit("for");
        reveal_strlit("function");
        assert(precedes_at("for"@, "function"@, 1));
    }
    assert(ascends_at(ws, 8)) by {
        reveal_strlit("function");
        reveal_strlit("if");
        assert(precedes_at("function"@, "if"@, 0));
    }
    assert(ascends_at(ws, 9)) by {
        reveal_strlit("if");
        reveal_strlit("in");
        assert(precedes_at("if"@, "in"@, 1));
    }
    assert(ascends_at(ws, 10)) by {
        reveal_strlit("in");
        reveal_strlit("select");
        assert(precedes_at("in"@, "select"@, 0));
    }
    assert(ascends_at(ws, 11)) by {
        reveal_strlit("select");
        reveal_strlit("then");
        assert(precedes_at("select"@, "then"@, 0));
    }
    assert(ascends_at(ws, 12)) by {
        reveal_strlit("then");
        reveal_strlit("time");
        assert(precedes_at("then"@, "time"@, 1));
    }
    assert(ascends_at(ws, 13)) by {
        reveal_strlit("time");
        reveal_strlit("until");
        assert(precedes_at("time"@, "until"@, 0));
    }
    assert(ascends_at(ws, 14)) by {
        reveal_strlit("until");
        reveal_strlit("while");
        assert(precedes_at("until"@, "while"@, 0));
    }
    assert forall|i: int| 0 <= i < 15 implies #[trigger] ascends_at(ws, i) by {
        assert(i == 0 || i == 1 || i == 2 || i == 3 || i == 4 || i == 5 || i == 6 || i == 7 || i
            == 8 || i == 9 || i == 10 || i == 11 || i == 12 || i == 13 || i == 14);
    }
}

/// The table of reserved words is strictly sorted.
pub proof fn reserved_words_are_sorted()
    ensures
        strictly_sorted(reserved_words()),
{
    lemma_reserved_words_ascend();
    lemma_sorted_from_adjacent(reserved_words());
}

/// The table of reserved words holds each word once.
pub proof fn reserved_words_are_distinct()
    ensures
        reserved_words().no_duplicates(),
{
    reserved_words_are_sorted();
    lemma_sorted_no_duplicates(reserved_words());
}

/// A word made of the letters `a` to `z` only.
pub open spec fn is_lowercase_word(w: Seq<char>) -> bool {
    forall|j: int| 0 <= j < w.len() ==> 'a' <= #[trigger] w[j] <= 'z'
}

/// Every reserved word is a non-empty word of lower-case letters.
pub proof fn reserved_words_are_lowercase()
    ensures
        forall|i: int|
            0 <= i < reserved_words().len() ==> (#[trigger] reserved_words()[i]).len() > 0
                && is_lowercase_word(reserved_words()[i]),
{
    let ws = reserved_words();
    assert(ws.len() == 16);
    assert(ws[0].len() > 0 && is_lowercase_word(ws[0])) by {
        reveal_strlit("case");
    }
    assert(ws[1].len() > 0 && is_lowercase_word(ws[1])) by {
        reveal_strlit("do");
    }
    assert(ws[2].len() > 0 && is_lowercase_word(ws[2])) by {
        reveal_strlit("done");
    }
    assert(ws[3].len() > 0 && is_lowercase_word(ws[3])) by {
        reveal_strlit("elif");
    }
    assert(ws[4].len() > 0 && is_lowercase_word(ws[4])) by {
        reveal_strlit("else");
    }
    assert(ws[5].len() > 0 && is_lowercase_word(ws[5])) by {
        reveal_strlit("esac");
    }
    assert(ws[6].len() > 0 && is_lowercase_word(ws[6])) by {
        reveal_strlit("fi");
    }
    assert(ws[7].len() > 0 && is_lowercase_word(ws[7])) by {
        reveal_strlit("for");
    }
    assert(ws[8].len() > 0 && is_lowercase_word(ws[8])) by {
        reveal_strlit("function");
    }
    assert(ws[9].len() > 0 && is_lowercase_word(ws[9])) by {
        reveal_strlit("if");
    }
    assert(ws[10].len() > 0 && is_lowercase_word(ws[10])) by {
        reveal_strlit("in");
    }
    assert(ws[11].len() > 0 && is_lowercase_word(ws[11])) by {
        reveal_strlit("select");
    }
    assert(ws[12].len() > 0 && is_lowercase_word(ws[12])) by {
        reveal_strlit("then");
    }
    assert(ws[13].len() > 0 && is_lowercase_word(ws[13])) by {
        reveal_strlit("time");
    }
    assert(ws[14].len() > 0 && is_lowercase_word(ws[14])) by {
        reveal_strlit("until");
    }
    assert(ws[15].len() > 0 && is_lowercase_word(ws[15])) by {
        reveal_strlit("while");
    }
    assert forall|i: int| 0 <= i < ws.len() implies (#[trigger] ws[i]).len() > 0
        && is_lowercase_word(ws[i]) by {
        assert(i == 0 || i == 1 || i == 2 || i == 3 || i == 4 || i == 5 || i == 6 || i == 7 || i
            == 8 || i == 9 || i == 10 || i == 11 || i == 12 || i == 13 || i == 14 || i == 15);
    }
}

/// How one word stands to another in the lexicographic order.
#[derive(Clone, Copy, Debug, PartialEq, Eq, Structural)]
pub enum WordOrder {
    /// The first word comes before the second.
    Before,
    /// The two words are the same.
    Same,
    /// The first word comes after the second.
    After,
}

/// Compares two words character by character.
pub fn compare_words(a: &str, b: &str) -> (order: WordOrder)
    ensures
        order == WordOrder::Before <==> word_lt(a@, b@),
        order == WordOrder::Same <==> a@ == b@,
        order == WordOrder::After <==> word_lt(b@, a@),
{
    let mut rest_a = a.chars();
    let mut rest_b = b.chars();
    let ghost mut k: int = 0;
    loop
        invariant
            0 <= k <= a@.len(),
            k <= b@.len(),
            rest_a.remaining() == a@.skip(k),
            rest_b.remaining() == b@.skip(k),
            forall|j: int| 0 <= j < k ==> a@[j] == b@[j],
        decreases a@.len() - k,
    {
        let next_a = rest_a.next();
        let next_b = rest_b.next();
        match next_a {
            None => {
                match next_b {
                    None => {
                        proof {
                            assert(a@ =~= b@);
                            lemma_word_lt_irreflexive(a@);
                        }
                        return WordOrder::Same;
                    },
                    Some(_) => {
                        proof {
                            assert(precedes_at(a@, b@, k));
                            lemma_word_lt_asymmetric(a@, b@);
                        }
                        return WordOrder::Before;
                    },
                }
            },
            Some(x) => {
                match next_b {
                    None => {
                        proof {
                            assert(precedes_at(b@, a@, k));
                            lemma_word_lt_asymmetric(b@, a@);
                        }
                        return WordOrder::After;
                    },
                    Some(y) => {
                        if x < y {
                            proof {
                                assert(precedes_at(a@, b@, k));
                                lemma_word_lt_asymmetric(a@, b@);
                            }
                            return WordOrder::Before;
                        } else if y < x {
                            proof {
                                assert(precedes_at(b@, a@, k));
                                lemma_word_lt_asymmetric(b@, a@);
                            }
                            return WordOrder::After;
                        }
                        proof {
                            k = k + 1;
                        }
                    },
                }
            },
        }
    }
}

/// Looks `word` up in a strictly sorted table by halving the range in which
/// it can still stand.
fn search_sorted(table: &[&str], word: &str) -> (found: bool)
    requires
        strictly_sorted(table@.map_values(|s: &str| s@)),
    ensures
        found == table@.map_values(|s: &str| s@).contains(word@),
{
    let ghost words = table@.map_values(|s: &str| s@);
    let mut low: usize = 0;
    let mut high: usize = table.len();
    while low < high
        invariant
            0 <= low <= high <= table.len(),
            words == table@.map_values(|s: &str| s@),
            strictly_sorted(words),
            forall|i: int| 0 <= i < low ==> word_lt(#[trigger] words[i], word@),
            forall|i: int| high <= i < words.len() ==> word_lt(word@, #[trigger] words[i]),
        decreases high - low,
    {
        let middle: usize = low + (high - low) / 2;
        match compare_words(table[middle], word) {
            WordOrder::Same => {
                assert(words[middle as int] == word@);
                return true;
            },
            WordOrder::Before => {
                assert forall|i: int| 0 <= i < middle + 1 implies word_lt(
                    #[trigger] words[i],
                    word@,
                ) by {
                    if i < middle {
                        lemma_word_lt_transitive(words[i], words[middle as int], word@);
                    }
                }
                low = middle + 1;
            },
            WordOrder::After => {
                assert forall|i: int| middle <= i < words.len() implies word_lt(
                    word@,
                    #[trigger] words[i],
                ) by {
                    if middle < i {
                        lemma_word_lt_transitive(word@, words[middle as int], words[i]);
                    }
                }
                high = middle;
            },
        }
    }
    proof {
        lemma_word_lt_irreflexive(word@);
        assert forall|i: int| 0 <= i < words.len() implies words[i] != word@ by {
            if i < low {
                assert(word_lt(words[i], word@));
            } else {
                assert(word_lt(word@, words[i]));
            }
        }
    }
    false
}

/// Tells whether `word` is one of the shell's reserved words.
pub fn is_reserved(word: &str) -> (reserved: bool)
    ensures
        reserved == is_reserved_word(word@),
{
    proof {
        reserved_words_are_sorted();
    }
    search_sorted(&RESERVED_COMMAND_WORDS, word)
}

} // verus!
