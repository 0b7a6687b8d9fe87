//! Lists of words that statements outside the parser's grammar are read from.

use vstd::prelude::*;
use crate::outside::upper;
use crate::replica::{add_last, no_items};
use crate::text::{join, joined, same};

verus! {

/// The words in upper case.
pub open spec fn upper_all(words: Seq<Seq<char>>) -> Seq<Seq<char>> {
    Seq::new(words.len(), |i: int| upper(words[i]))
}

/// The words in upper case.
pub fn to_upper(words: &Vec<String>) -> (result: Vec<String>)
    ensures
        result.deep_view() == upper_all(words.deep_view()),
{
    let mut result: Vec<String> = no_items();
    let ghost goal = upper_all(words.deep_view());
    let mut i: usize = 0;
    while i < words.len()
        invariant
            i <= words.len(),
            goal == upper_all(words.deep_view()),
            result.deep_view() == goal.take(i as int),
        decreases words.len() - i,
    {
        add_last(&mut result, words[i].as_str().to_uppercase());
        i += 1;
        assert(result.deep_view() =~= goal.take(i as int));
    }
    assert(goal.take(words@.len() as int) =~= goal);
    result
}

/// Whether the word at a position is this one.
pub open spec fn word_is(words: Seq<Seq<char>>, i: int, word: Seq<char>) -> bool {
    0 <= i < words.len() && words[i] == word
}

/// Whether the word at a position is this one.
pub fn is_word(words: &Vec<String>, i: usize, word: &str) -> (result: bool)
    ensures
        result == word_is(words.deep_view(), i as int, word@),
{
    if i < words.len() {
        assert(words.deep_view()[i as int] == words[i as int]@);
        same(words[i].as_str(), word)
    } else {
        false
    }
}

/// The first position at or after `from` of the word, or the length.
pub open spec fn word_from(words: Seq<Seq<char>>, word: Seq<char>, from: int) -> int
    decreases words.len() - from,
{
    if from < 0 || from >= words.len() {
        words.len() as int
    } else if words[from] == word {
        from
    } else {
        word_from(words, word, from + 1)
    }
}

pub proof fn word_from_found(words: Seq<Seq<char>>, word: Seq<char>, from: int)
    ensures
        from >= 0 && word_from(words, word, from) < words.len() ==> words[word_from(words, word, from)] == word && from <= word_from(words, word, from),
    decreases words.len() - from,
{
    if 0 <= from < words.len() && words[from] != word {
        word_from_found(words, word, from + 1);
    }
}

/// The first position at or after `from` of the word, or the length.
pub fn find_word(words: &Vec<String>, word: &str, from: usize) -> (result: usize)
    requires
        from <= words.len(),
    ensures
        result == word_from(words.deep_view(), word@, from as int),
        from <= result <= words.len(),
{
    let mut i: usize = from;
    while i < words.len()
        invariant
            from <= i <= words.len(),
            word_from(words.deep_view(), word@, from as int) == word_from(
                words.deep_view(),
                word@,
                i as int,
            ),
        decreases words.len() - i,
    {
        assert(words.deep_view()[i as int] == words[i as int]@);
        if same(words[i].as_str(), word) {
            return i;
        }
        i += 1;
    }
    i
}

/// The words of a range with blanks between them.
pub open spec fn phrase(words: Seq<Seq<char>>, from: int, to: int) -> Seq<char> {
    joined(words.subrange(from, to), " "@)
}

/// The words of a range.
pub fn slice(words: &Vec<String>, from: usize, to: usize) -> (result: Vec<String>)
    requires
        from <= to <= words.len(),
    ensures
        result.deep_view() == words.deep_view().subrange(from as int, to as int),
{
    let mut result: Vec<String> = no_items();
    let mut i: usize = from;
    while i < to
        invariant
            from <= i <= to <= words.len(),
            result.deep_view() == words.deep_view().subrange(from as int, i as int),
        decreases to - i,
    {
        add_last(&mut result, words[i].clone());
        i += 1;
        assert(result.deep_view() =~= words.deep_view().subrange(from as int, i as int));
    }
    result
}

/// The words of a range with blanks between them.
pub fn to_phrase(words: &Vec<String>, from: usize, to: usize) -> (result: String)
    requires
        from <= to <= words.len(),
    ensures
        result@ == phrase(words.deep_view(), from as int, to as int),
{
    join(&slice(words, from, to), " ")
}

/// The position of the parenthesis that closes the `depth` ones open before position `from`.
pub open spec fn close_from(words: Seq<Seq<char>>, from: int, depth: int) -> Option<int>
    decreases words.len() - from,
{
    if from < 0 || from >= words.len() {
        None
    } else if words[from] == "("@ {
        close_from(words, from + 1, depth + 1)
    } else if words[from] == ")"@ {
        if depth == 1 {
            Some(from)
        } else {
            close_from(words, from + 1, depth - 1)
        }
    } else {
        close_from(words, from + 1, depth)
    }
}

/// The position of the parenthesis that closes the one open before position `from`.
pub fn find_close(words: &Vec<String>, from: usize) -> (result: Option<usize>)
    ensures
        (match result {
            Some(i) => Some(i as int),
            None => None,
        }) == close_from(words.deep_view(), from as int, 1),
        result matches Some(i) ==> from <= i < words.len(),
{
    let mut depth: i128 = 1;
    let mut i: usize = from;
    let ghost model = words.deep_view();
    while i < words.len()
        invariant
            from <= i,
            model == words.deep_view(),
            from - i <= depth - 1 <= i - from,
            close_from(model, from as int, 1) == close_from(model, i as int, depth as int),
        decreases words.len() - i,
    {
        assert(model[i as int] == words[i as int]@);
        if same(words[i].as_str(), "(") {
            depth += 1;
        } else if same(words[i].as_str(), ")") {
            if depth == 1 {
                return Some(i);
            }
            depth -= 1;
        }
        i += 1;
    }
    None
}

} // verus!
