//! Cutting text at markers, trimming it and replacing characters in it.

use vstd::prelude::*;
use crate::outside::white;
use crate::text::{chars_of, nothing, owned, strip_prefix, text_of};

verus! {

// ---------------------------------------------------------------------------------------------
// Finding
// ---------------------------------------------------------------------------------------------

/// The first position at or after `from` where `marker` stands in `text`.
pub open spec fn find_text_from(text: Seq<char>, marker: Seq<char>, from: int) -> Option<int>
    decreases text.len() + 1 - from,
{
    if from < 0 || from + marker.len() > text.len() {
        None
    } else if text.subrange(from, from + marker.len()) == marker {
        Some(from)
    } else {
        find_text_from(text, marker, from + 1)
    }
}

/// Whether `marker` stands somewhere in `text`.
pub open spec fn holds_text(text: Seq<char>, marker: Seq<char>) -> bool {
    find_text_from(text, marker, 0) is Some
}

pub proof fn find_text_range(text: Seq<char>, marker: Seq<char>, from: int)
    requires
        0 <= from,
    ensures
        match find_text_from(text, marker, from) {
            Some(i) => from <= i && i + marker.len() <= text.len() && text.subrange(i, i + marker.len())
                == marker,
            None => true,
        },
    decreases text.len() + 1 - from,
{
    if from + marker.len() <= text.len() && text.subrange(from, from + marker.len()) != marker {
        find_text_range(text, marker, from + 1);
    }
}

fn stands_at(text: &Vec<char>, marker: &Vec<char>, at: usize) -> (result: bool)
    requires
        at + marker.len() <= text.len(),
    ensures
        result == (text@.subrange(at as int, at + marker.len()) == marker@),
{
    let mut i: usize = 0;
    while i < marker.len()
        invariant
            i <= marker.len(),
            at + marker.len() <= text.len(),
            forall|j: int| 0 <= j < i ==> text[at + j] == marker[j],
        decreases marker.len() - i,
    {
        if text[at + i] != marker[i] {
            assert(text@.subrange(at as int, at + marker.len())[i as int] != marker@[i as int]);
            return false;
        }
        i += 1;
    }
    assert(text@.subrange(at as int, at + marker.len()) =~= marker@);
    true
}

fn find_text(text: &Vec<char>, marker: &Vec<char>) -> (result: Option<usize>)
    ensures
        match result {
            Some(i) => find_text_from(text@, marker@, 0) == Some(i as int) && i + marker.len() <= text.len(),
            None => find_text_from(text@, marker@, 0) is None,
        },
{
    let mut i: usize = 0;
    if marker.len() > text.len() {
        return None;
    }
    let last: usize = text.len() - marker.len();
    loop
        invariant
            last + marker.len() == text.len(),
            i <= last,
            find_text_from(text@, marker@, 0) == find_text_from(text@, marker@, i as int),
        decreases last - i,
    {
        if stands_at(text, marker, i) {
            return Some(i);
        }
        if i == last {
            assert(find_text_from(text@, marker@, i + 1) is None);
            return None;
        }
        i += 1;
    }
}

/// Whether `marker` stands somewhere in `text`.
pub fn contains_text(text: &str, marker: &str) -> (result: bool)
    ensures
        result == holds_text(text@, marker@),
{
    match find_text(&chars_of(text), &chars_of(marker)) {
        Some(_) => true,
        None => false,
    }
}

// ---------------------------------------------------------------------------------------------
// Cutting
// ---------------------------------------------------------------------------------------------

/// The parts before and after the first `marker`.
pub open spec fn cut_at(text: Seq<char>, marker: Seq<char>) -> Option<(Seq<char>, Seq<char>)> {
    match find_text_from(text, marker, 0) {
        Some(i) => Some((text.take(i), text.skip(i + marker.len()))),
        None => None,
    }
}

/// The parts before and after the first `marker`.
pub fn cut(text: &str, marker: &str) -> (result: Option<(String, String)>)
    ensures
        result.deep_view() == cut_at(text@, marker@),
        match result {
            Some((head, tail)) => head@.len() + marker@.len() + tail@.len() == text@.len(),
            None => true,
        },
{
    let characters = chars_of(text);
    let wanted = chars_of(marker);
    match find_text(&characters, &wanted) {
        Some(i) => {
            let head = text_of(&characters, 0, i);
            let tail = text_of(&characters, i + wanted.len(), characters.len());
            assert(head@ =~= text@.take(i as int));
            assert(tail@ =~= text@.skip(i + marker@.len()));
            Some((head, tail))
        },
        None => None,
    }
}

/// The pieces between the markers.
pub open spec fn pieces_of(text: Seq<char>, marker: Seq<char>) -> Seq<Seq<char>>
    decreases text.len(),
{
    match cut_at(text, marker) {
        Some((head, tail)) => if tail.len() < text.len() {
            seq![head] + pieces_of(tail, marker)
        } else {
            seq![text]
        },
        None => seq![text],
    }
}

/// There is always at least one piece, and none is longer than the text.
pub proof fn pieces_are_parts(text: Seq<char>, marker: Seq<char>)
    ensures
        pieces_of(text, marker).len() >= 1,
        forall|i: int|
            0 <= i < pieces_of(text, marker).len() ==> (#[trigger] pieces_of(text, marker)[i]).len()
                <= text.len(),
    decreases text.len(),
{
    find_text_range(text, marker, 0);
    match cut_at(text, marker) {
        Some((head, tail)) => if tail.len() < text.len() {
            pieces_are_parts(tail, marker);
        },
        None => {},
    }
}

/// The pieces between the markers.
pub fn pieces(text: &str, marker: &str) -> (result: Vec<String>)
    ensures
        result.deep_view() == pieces_of(text@, marker@),
        result.len() >= 1,
{
    let mut done: Vec<String> = Vec::new();
    let mut rest = owned(text);
    let ghost goal = pieces_of(text@, marker@);
    assert(done.deep_view() + goal =~= goal);
    loop
        invariant
            goal == pieces_of(text@, marker@),
            done.deep_view() + pieces_of(rest@, marker@) == goal,
        decreases rest@.len(),
    {
        let ghost before = done.deep_view();
        match cut(rest.as_str(), marker) {
            Some((head, tail)) => {
                if marker.is_empty() {
                    assert(marker@.len() == 0);
                    proof {
                        assert(rest@.subrange(0, 0) =~= marker@);
                        assert(find_text_from(rest@, marker@, 0) == Some(0int));
                        assert(rest@.skip(0) =~= rest@);
                    }
                    done.push(rest);
                    assert(done.deep_view() =~= before + pieces_of(rest@, marker@));
                    return done;
                }
                assert(marker@.len() > 0);
                let ghost left = head@;
                done.push(head);
                assert(done.deep_view() =~= before.push(left));
                assert(before.push(left) + pieces_of(tail@, marker@) =~= before + (seq![left] + pieces_of(
                    tail@,
                    marker@,
                )));
                rest = tail;
            },
            None => {
                done.push(rest);
                assert(done.deep_view() =~= before + seq![rest@]);
                return done;
            },
        }
    }
}

/// What stands before a last character `c`, where the text ends with it.
pub open spec fn before_last(text: Seq<char>, c: char) -> Option<Seq<char>> {
    if text.len() > 0 && text.last() == c {
        Some(text.drop_last())
    } else {
        None
    }
}

/// What stands before a last character `c`, where the text ends with it.
pub fn strip_last(text: &str, c: char) -> (result: Option<String>)
    ensures
        result.deep_view() == before_last(text@, c),
{
    let characters = chars_of(text);
    if characters.len() > 0 && characters[characters.len() - 1] == c {
        let result = text_of(&characters, 0, characters.len() - 1);
        assert(result@ =~= text@.drop_last());
        Some(result)
    } else {
        None
    }
}

/// What stands between a first `(` and a last `)`.
pub open spec fn in_parentheses(text: Seq<char>) -> Option<Seq<char>> {
    match crate::text::after_prefix(text, "("@) {
        Some(rest) => before_last(rest, ')'),
        None => None,
    }
}

/// What stands between a first `(` and a last `)`.
pub fn inside_parentheses(text: &str) -> (result: Option<String>)
    ensures
        result.deep_view() == in_parentheses(text@),
{
    match strip_prefix(text, "(") {
        Some(rest) => strip_last(rest.as_str(), ')'),
        None => None,
    }
}

// ---------------------------------------------------------------------------------------------
// Trimming
// ---------------------------------------------------------------------------------------------

/// The text without the white space at its beginning.
pub open spec fn trimmed_head(text: Seq<char>) -> Seq<char>
    decreases text.len(),
{
    if text.len() > 0 && white(text[0]) {
        trimmed_head(text.skip(1))
    } else {
        text
    }
}

/// The text without the white space at its end.
pub open spec fn trimmed_tail(text: Seq<char>) -> Seq<char>
    decreases text.len(),
{
    if text.len() > 0 && white(text.last()) {
        trimmed_tail(text.drop_last())
    } else {
        text
    }
}

/// The text without the white space at both its ends.
pub open spec fn trimmed(text: Seq<char>) -> Seq<char> {
    trimmed_tail(trimmed_head(text))
}

pub proof fn trimmed_head_length(text: Seq<char>)
    ensures
        trimmed_head(text).len() <= text.len(),
    decreases text.len(),
{
    if text.len() > 0 && white(text[0]) {
        trimmed_head_length(text.skip(1));
    }
}

pub proof fn trimmed_tail_length(text: Seq<char>)
    ensures
        trimmed_tail(text).len() <= text.len(),
    decreases text.len(),
{
    if text.len() > 0 && white(text.last()) {
        trimmed_tail_length(text.drop_last());
    }
}

/// Trimming makes no text longer.
pub proof fn trimmed_length(text: Seq<char>)
    ensures
        trimmed(text).len() <= text.len(),
{
    trimmed_head_length(text);
    trimmed_tail_length(trimmed_head(text));
}

/// The text without the white space at both its ends.
pub fn trim(text: &str) -> (result: String)
    ensures
        result@ == trimmed(text@),
{
    let characters = chars_of(text);
    assert(characters@.subrange(0, characters@.len() as int) =~= text@);
    trim_part(&characters, 0, characters.len())
}

/// `characters[from..to]` without the white space at both its ends.
pub fn trim_part(characters: &Vec<char>, from: usize, to: usize) -> (result: String)
    requires
        from <= to <= characters.len(),
    ensures
        result@ == trimmed(characters@.subrange(from as int, to as int)),
{
    let ghost part = characters@.subrange(from as int, to as int);
    let mut start: usize = from;
    while start < to && characters[start].is_whitespace()
        invariant
            from <= start <= to <= characters.len(),
            part == characters@.subrange(from as int, to as int),
            trimmed_head(part) == trimmed_head(characters@.subrange(start as int, to as int)),
        decreases to - start,
    {
        assert(characters@.subrange(start as int, to as int)[0] == characters@[start as int]);
        assert(characters@.subrange(start as int, to as int).skip(1) =~= characters@.subrange(
            start + 1,
            to as int,
        ));
        start += 1;
    }
    let ghost middle = characters@.subrange(start as int, to as int);
    assert(trimmed_head(part) == middle);
    let mut end: usize = to;
    while end > start && characters[end - 1].is_whitespace()
        invariant
            start <= end <= to <= characters.len(),
            trimmed_tail(middle) == trimmed_tail(characters@.subrange(start as int, end as int)),
        decreases end,
    {
        assert(characters@.subrange(start as int, end as int).last() == characters@[end - 1]);
        assert(characters@.subrange(start as int, end as int).drop_last() =~= characters@.subrange(
            start as int,
            end - 1,
        ));
        end -= 1;
    }
    text_of(characters, start, end)
}

// ---------------------------------------------------------------------------------------------
// Replacing
// ---------------------------------------------------------------------------------------------

/// The text with `with` in place of every `c`.
pub open spec fn replaced(text: Seq<char>, c: char, with: Seq<char>) -> Seq<char>
    decreases text.len(),
{
    if text.len() == 0 {
        Seq::empty()
    } else if text.last() == c {
        replaced(text.drop_last(), c, with) + with
    } else {
        replaced(text.drop_last(), c, with).push(text.last())
    }
}

/// The text with `with` in place of every `c`.
pub fn replace(text: &str, c: char, with: &str) -> (result: String)
    ensures
        result@ == replaced(text@, c, with@),
{
    let characters = chars_of(text);
    let mut result = nothing();
    let mut i: usize = 0;
    assert(characters@.take(0) =~= Seq::<char>::empty());
    while i < characters.len()
        invariant
            i <= characters.len(),
            characters@ == text@,
            result@ == replaced(characters@.take(i as int), c, with@),
        decreases characters.len() - i,
    {
        assert(characters@.take(i + 1).drop_last() =~= characters@.take(i as int));
        assert(characters@.take(i + 1).last() == characters@[i as int]);
        if characters[i] == c {
            result = crate::text::cat2(result.as_str(), with);
        } else {
            result.push(characters[i]);
        }
        i += 1;
    }
    assert(characters@.take(characters@.len() as int) =~= characters@);
    result
}

} // verus!
