//! Quoted names and texts in statements.

use vstd::prelude::*;
use crate::cuts::replaced;
use crate::postgrest::{ident_of, quoted_text};

verus! {

/// The quoted text that goes on at position `from` after `done`, and the position after its end: two
/// quotes stand for one, and a single quote ends it. None where it has no end.
pub open spec fn quotation(text: Seq<char>, quote: char, from: int, done: Seq<char>) -> Option<(Seq<char>, int)>
    decreases text.len() - from,
{
    if from < 0 || from >= text.len() {
        None
    } else if text[from] != quote {
        quotation(text, quote, from + 1, done.push(text[from]))
    } else if from + 1 < text.len() && text[from + 1] == quote {
        quotation(text, quote, from + 2, done.push(quote))
    } else {
        Some((done, from + 1))
    }
}

/// Reading goes on after a text whose quotes are doubled, with the text read.
proof fn doubled_is_read(head: Seq<char>, value: Seq<char>, rest: Seq<char>, quote: char, done: Seq<char>)
    ensures
        ({
            let written = replaced(value, quote, seq![quote, quote]);
            let text = head + written + rest;
            quotation(text, quote, head.len() as int, done) == quotation(
                text,
                quote,
                (head.len() + written.len()) as int,
                done + value,
            )
        }),
    decreases value.len(),
{
    let twice = seq![quote, quote];
    let written = replaced(value, quote, twice);
    let text = head + written + rest;
    if value.len() == 0 {
        assert(done + value =~= done);
    } else {
        let front = value.drop_last();
        let last = value.last();
        let before = replaced(front, quote, twice);
        let piece = if last == quote {
            twice
        } else {
            seq![last]
        };
        assert(written =~= before + piece);
        doubled_is_read(head, front, piece + rest, quote, done);
        assert(head + before + (piece + rest) =~= text);
        let at = (head.len() + before.len()) as int;
        assert(text[at] == piece[0]);
        if last == quote {
            assert(text[at + 1] == piece[1]);
        }
        assert((done + front).push(last) =~= done + value);
    }
}

/// A text between quotes with its quotes doubled is read whole: it ends with its last quote, unless
/// another follows, and nothing in it ends it before.
proof fn quoted_is_read(value: Seq<char>, tail: Seq<char>, quote: char)
    requires
        tail.len() == 0 || tail[0] != quote,
    ensures
        ({
            let text = seq![quote] + replaced(value, quote, seq![quote, quote]) + seq![quote];
            quotation(text + tail, quote, 1, Seq::empty()) == Some((value, text.len() as int))
        }),
{
    let written = replaced(value, quote, seq![quote, quote]);
    let text = seq![quote] + written + seq![quote];
    doubled_is_read(seq![quote], value, seq![quote] + tail, quote, Seq::empty());
    assert(seq![quote] + written + (seq![quote] + tail) =~= text + tail);
    assert(Seq::<char>::empty() + value =~= value);
    let at: int = 1 + written.len() as int;
    assert((text + tail)[at] == quote);
    if tail.len() > 0 {
        assert((text + tail)[at + 1] == tail[0]);
    }
}

/// A name in a statement is read as the name it was made of, whatever it holds, and the statement
/// goes on right after it.
pub proof fn names_are_read_whole(name: Seq<char>, tail: Seq<char>)
    requires
        tail.len() == 0 || tail[0] != '"',
    ensures
        match ident_of(name) {
            Ok(quoted) => quotation(quoted + tail, '"', 1, Seq::empty()) == Some((name, quoted.len() as int)),
            Err(_) => name.len() == 0 || name.contains('\0'),
        },
{
    reveal_strlit("\"");
    reveal_strlit("\"\"");
    assert("\""@ =~= seq!['"']);
    assert("\"\""@ =~= seq!['"', '"']);
    quoted_is_read(name, tail, '"');
}

/// A text in a statement is read as the text it was made of, whatever it holds, and the statement
/// goes on right after it.
pub proof fn texts_are_read_whole(value: Seq<char>, tail: Seq<char>)
    requires
        tail.len() == 0 || tail[0] != '\'',
    ensures
        quotation(quoted_text(value) + tail, '\'', 1, Seq::empty()) == Some((value, quoted_text(value).len() as int)),
{
    reveal_strlit("'");
    reveal_strlit("''");
    assert("'"@ =~= seq!['\'']);
    assert("''"@ =~= seq!['\'', '\'']);
    quoted_is_read(value, tail, '\'');
}

} // verus!
