//! What cutting a list into its items gives.

use vstd::prelude::*;
use crate::cuts::{trimmed, trimmed_head, trimmed_tail};
use crate::error::{unsupported_failure, Failure};
use crate::outside::white;
use crate::postgrest::{split_from, split_of};

verus! {

/// Where a reader of a list stands: how many parentheses are open, whether it is inside double
/// quotes, and whether the next character is escaped.
pub struct Place {
    pub depth: int,
    pub quoted: bool,
    pub escaped: bool,
}

/// That quotes, parentheses and the backslash are no white space, as a test of each shows.
pub open spec fn marks_are_solid() -> bool {
    !white('"') && !white('(') && !white(')') && !white('\\')
}

/// The place outside all parentheses and quotes.
pub open spec fn outside() -> Place {
    Place { depth: 0, quoted: false, escaped: false }
}

/// The place after one more character; none after a parenthesis that closes nothing.
pub open spec fn step(place: Place, c: char) -> Option<Place> {
    if place.escaped {
        Some(Place { escaped: false, ..place })
    } else if place.quoted {
        Some(Place { depth: place.depth, quoted: c != '"', escaped: c == '\\' })
    } else if c == '"' {
        Some(Place { quoted: true, ..place })
    } else if c == '(' {
        Some(Place { depth: place.depth + 1, ..place })
    } else if c == ')' {
        if place.depth > 0 {
            Some(Place { depth: place.depth - 1, ..place })
        } else {
            None
        }
    } else {
        Some(place)
    }
}

/// The place after the first `count` characters.
pub open spec fn place_after(text: Seq<char>, count: int) -> Option<Place>
    decreases count,
{
    if count <= 0 || count > text.len() {
        Some(outside())
    } else {
        match place_after(text, count - 1) {
            None => None,
            Some(place) => step(place, text[count - 1]),
        }
    }
}

/// Whether parentheses and quotes are balanced.
pub open spec fn balanced(text: Seq<char>) -> bool {
    place_after(text, text.len() as int) == Some(outside())
}

/// Whether the character at this position is a comma outside parentheses and quotes.
pub open spec fn outer_comma(text: Seq<char>, i: int) -> bool {
    text[i] == ',' && place_after(text, i) == Some(outside())
}

/// The positions of the commas outside parentheses and quotes among the first `count` characters.
pub open spec fn outer_commas(text: Seq<char>, count: int) -> Seq<int>
    decreases count,
{
    if count <= 0 || count > text.len() {
        Seq::empty()
    } else if outer_comma(text, count - 1) {
        outer_commas(text, count - 1).push(count - 1)
    } else {
        outer_commas(text, count - 1)
    }
}

/// Where the piece after the first `k` commas begins.
pub open spec fn begins(commas: Seq<int>, k: int) -> int {
    if k <= 0 {
        0
    } else {
        commas[k - 1] + 1
    }
}

/// The piece after the first `k` commas: up to the next one, or to the end of the text.
pub open spec fn piece(text: Seq<char>, k: int) -> Seq<char> {
    let commas = outer_commas(text, text.len() as int);
    text.subrange(
        begins(commas, k),
        if k < commas.len() {
            commas[k]
        } else {
            text.len() as int
        },
    )
}

proof fn commas_are_in_order(text: Seq<char>, count: int)
    requires
        0 <= count <= text.len(),
    ensures
        forall|k: int|
            0 <= k < outer_commas(text, count).len() ==> 0 <= #[trigger] outer_commas(text, count)[k] < count
                && outer_comma(text, outer_commas(text, count)[k]),
        forall|j: int, k: int|
            0 <= j < k < outer_commas(text, count).len() ==> #[trigger] outer_commas(text, count)[j]
                < #[trigger] outer_commas(text, count)[k],
        forall|i: int|
            0 <= i < count && #[trigger] outer_comma(text, i) ==> outer_commas(text, count).contains(i),
    decreases count,
{
    if count > 0 {
        commas_are_in_order(text, count - 1);
        let earlier = outer_commas(text, count - 1);
        let all = outer_commas(text, count);
        assert forall|i: int| 0 <= i < count && #[trigger] outer_comma(text, i) implies all.contains(i) by {
            if i == count - 1 {
                assert(all[earlier.len() as int] == i);
            } else {
                let k = choose|k: int| 0 <= k < earlier.len() && earlier[k] == i;
                assert(all[k] == i);
            }
        }
    }
}

/// Whether these are the pieces that end among the first `count` characters.
spec fn pieces_until(text: Seq<char>, count: int, done: Seq<Seq<char>>) -> bool {
    let commas = outer_commas(text, count);
    &&& done.len() == commas.len()
    &&& forall|k: int|
        0 <= k < done.len() ==> #[trigger] done[k] == trimmed(text.subrange(begins(commas, k), commas[k]))
}

proof fn splitting_goes_by_commas(
    text: Seq<char>,
    i: int,
    start: int,
    depth: int,
    quoted: bool,
    escaped: bool,
    done: Seq<Seq<char>>,
)
    requires
        0 <= i <= text.len(),
        place_after(text, i) == Some(Place { depth, quoted, escaped }),
        escaped ==> quoted,
        depth >= 0,
        start == begins(outer_commas(text, i), outer_commas(text, i).len() as int),
        pieces_until(text, i, done),
    ensures
        match split_from(text, i, start, depth, quoted, escaped, done) {
            Err(error) => !balanced(text) && error == unsupported_failure("Unbalanced expression"@),
            Ok(pieces) => {
                &&& balanced(text)
                &&& pieces.len() == outer_commas(text, text.len() as int).len() + 1
                &&& forall|k: int| 0 <= k < pieces.len() ==> #[trigger] pieces[k] == trimmed(piece(text, k))
            },
        },
    decreases text.len() - i,
{
    let commas = outer_commas(text, i);
    if i >= text.len() {
        if depth == 0 && !quoted {
            let pieces = done.push(trimmed(text.subrange(start, text.len() as int)));
            assert forall|k: int| 0 <= k < pieces.len() implies #[trigger] pieces[k] == trimmed(piece(text, k)) by {
                if k < done.len() {
                    assert(pieces[k] == done[k]);
                }
            }
        }
    } else {
        assert(place_after(text, i + 1) == step(Place { depth, quoted, escaped }, text[i]));
        if escaped {
            splitting_goes_by_commas(text, i + 1, start, depth, quoted, false, done);
        } else if text[i] == '\\' && quoted {
            splitting_goes_by_commas(text, i + 1, start, depth, quoted, true, done);
        } else if quoted != (text[i] == '"') {
            splitting_goes_by_commas(text, i + 1, start, depth, true, false, done);
        } else if text[i] == '(' {
            splitting_goes_by_commas(text, i + 1, start, depth + 1, false, false, done);
        } else if text[i] == ')' {
            if depth <= 0 {
                nothing_follows(text, i + 1, text.len() as int);
            } else {
                splitting_goes_by_commas(text, i + 1, start, depth - 1, false, false, done);
            }
        } else if text[i] == ',' && depth == 0 {
            let more = done.push(trimmed(text.subrange(start, i)));
            assert(outer_commas(text, i + 1) == commas.push(i));
            assert forall|k: int| 0 <= k < more.len() implies #[trigger] more[k] == trimmed(
                text.subrange(begins(commas.push(i), k), commas.push(i)[k]),
            ) by {
                if k < done.len() {
                    assert(more[k] == done[k]);
                    assert(begins(commas.push(i), k) == begins(commas, k));
                } else {
                    assert(begins(commas.push(i), k) == begins(commas, k));
                }
            }
            splitting_goes_by_commas(text, i + 1, i + 1, depth, false, false, more);
        } else {
            splitting_goes_by_commas(text, i + 1, start, depth, false, false, done);
        }
    }
}

proof fn nothing_follows(text: Seq<char>, count: int, more: int)
    requires
        0 < count <= more <= text.len(),
        place_after(text, count) is None,
    ensures
        place_after(text, more) is None,
    decreases more - count,
{
    if count < more {
        nothing_follows(text, count, more - 1);
    }
}

proof fn places_shift(text: Seq<char>, start: int, end: int, count: int)
    requires
        0 <= start <= end <= text.len(),
        0 <= count <= end - start,
        place_after(text, start) == Some(outside()),
    ensures
        place_after(text.subrange(start, end), count) == place_after(text, start + count),
    decreases count,
{
    if count > 0 {
        places_shift(text, start, end, count - 1);
        assert(text.subrange(start, end)[count - 1] == text[start + count - 1]);
    }
}

proof fn head_is_suffix(text: Seq<char>)
    ensures
        trimmed_head(text).len() <= text.len(),
        trimmed_head(text) == text.skip(text.len() - trimmed_head(text).len()),
        forall|i: int| 0 <= i < text.len() - trimmed_head(text).len() ==> white(#[trigger] text[i]),
        trimmed_head(text).len() > 0 ==> !white(trimmed_head(text)[0]),
    decreases text.len(),
{
    if text.len() > 0 && white(text[0]) {
        let rest = text.skip(1);
        head_is_suffix(rest);
        assert(trimmed_head(text) =~= text.skip(text.len() - trimmed_head(text).len()));
        assert forall|i: int| 0 <= i < text.len() - trimmed_head(text).len() implies white(#[trigger] text[i]) by {
            if i > 0 {
                assert(rest[i - 1] == text[i]);
            }
        }
    } else {
        assert(text.skip(0) =~= text);
    }
}

proof fn tail_is_prefix(text: Seq<char>)
    ensures
        trimmed_tail(text).len() <= text.len(),
        trimmed_tail(text) == text.take(trimmed_tail(text).len() as int),
        forall|i: int| trimmed_tail(text).len() <= i < text.len() ==> white(#[trigger] text[i]),
        trimmed_tail(text).len() > 0 ==> !white(trimmed_tail(text).last()),
    decreases text.len(),
{
    if text.len() > 0 && white(text.last()) {
        let rest = text.drop_last();
        tail_is_prefix(rest);
        assert(trimmed_tail(text) =~= text.take(trimmed_tail(text).len() as int));
        assert forall|i: int| trimmed_tail(text).len() <= i < text.len() implies white(#[trigger] text[i]) by {
            if i < text.len() - 1 {
                assert(rest[i] == text[i]);
            }
        }
    } else {
        assert(text.take(text.len() as int) =~= text);
    }
}

/// Trimming what is trimmed changes nothing.
pub proof fn trimming_is_done_once(text: Seq<char>)
    ensures
        trimmed(trimmed(text)) == trimmed(text),
{
    let head = trimmed_head(text);
    let kept = trimmed(text);
    head_is_suffix(text);
    tail_is_prefix(head);
    if kept.len() > 0 {
        assert(kept[0] == head[0]);
    }
    assert(trimmed_head(kept) == kept);
    assert(trimmed_tail(kept) == kept);
}

proof fn white_leaves_places(text: Seq<char>, count: int)
    requires
        marks_are_solid(),
        0 < count <= text.len(),
        white(text[count - 1]),
    ensures
        place_after(text, count) == Some(outside()) ==> place_after(text, count - 1) == Some(outside()),
        place_after(text, count - 1) == Some(outside()) ==> place_after(text, count) == Some(outside()),
{
}

proof fn white_ends_leave_places(text: Seq<char>, from: int, to: int)
    requires
        marks_are_solid(),
        0 <= from <= to <= text.len(),
        forall|i: int| from <= i < to ==> white(#[trigger] text[i]),
    ensures
        place_after(text, to) == Some(outside()) ==> place_after(text, from) == Some(outside()),
        place_after(text, from) == Some(outside()) ==> place_after(text, to) == Some(outside()),
    decreases to - from,
{
    if from < to {
        white_leaves_places(text, to);
        white_ends_leave_places(text, from, to - 1);
    }
}

/// Cutting a list succeeds where its parentheses and quotes are balanced. It gives one piece more
/// than there are commas outside them: the trimmed texts between those commas, in order.
pub proof fn lists_are_cut_at_outer_commas(text: Seq<char>)
    ensures
        match split_of(text) {
            Err(error) => !balanced(text) && error == unsupported_failure("Unbalanced expression"@),
            Ok(pieces) => {
                &&& balanced(text)
                &&& pieces.len() == outer_commas(text, text.len() as int).len() + 1
                &&& forall|k: int| 0 <= k < pieces.len() ==> #[trigger] pieces[k] == trimmed(piece(text, k))
            },
        },
{
    splitting_goes_by_commas(text, 0, 0, 0, false, false, Seq::empty());
}

proof fn pieces_hold_no_commas(text: Seq<char>, start: int, end: int)
    requires
        marks_are_solid(),
        0 <= start <= end <= text.len(),
        place_after(text, start) == Some(outside()),
        place_after(text, end) == Some(outside()),
        forall|i: int| start <= i < end ==> !#[trigger] outer_comma(text, i),
    ensures
        split_of(trimmed(text.subrange(start, end))) == Ok::<Seq<Seq<char>>, Failure>(
            seq![trimmed(text.subrange(start, end))],
        ),
{
    let part = text.subrange(start, end);
    let head = trimmed_head(part);
    let kept = trimmed(part);
    head_is_suffix(part);
    tail_is_prefix(head);
    let first = start + (part.len() - head.len());
    let last = first + kept.len();
    assert forall|i: int| start <= i < first implies white(#[trigger] text[i]) by {
        assert(part[i - start] == text[i]);
    }
    assert forall|i: int| last <= i < end implies white(#[trigger] text[i]) by {
        assert(head[i - first] == text[i]);
    }
    white_ends_leave_places(text, start, first);
    white_ends_leave_places(text, last, end);
    assert(kept =~= text.subrange(first, last));
    places_shift(text, first, last, kept.len() as int);
    assert(balanced(kept));
    assert(outer_commas(kept, kept.len() as int).len() == 0) by {
        let commas = outer_commas(kept, kept.len() as int);
        commas_are_in_order(kept, kept.len() as int);
        if commas.len() > 0 {
            let i = commas[0];
            assert(outer_comma(kept, i));
            places_shift(text, first, last, i);
            assert(outer_comma(text, first + i));
        }
    }
    lists_are_cut_at_outer_commas(kept);
    assert(piece(kept, 0) =~= kept);
    trimming_is_done_once(part);
    match split_of(kept) {
        Ok(pieces) => {
            assert(pieces[0] == trimmed(piece(kept, 0)));
            assert(pieces =~= seq![kept]);
        },
        Err(_) => {},
    }
}

/// Cutting a piece again gives that piece alone.
pub proof fn pieces_are_cut_no_further(text: Seq<char>, k: int)
    requires
        marks_are_solid(),
    ensures
        split_of(text) matches Ok(pieces) ==> 0 <= k < pieces.len() ==> split_of(pieces[k]) == Ok::<
            Seq<Seq<char>>,
            Failure,
        >(seq![pieces[k]]),
{
    lists_are_cut_at_outer_commas(text);
    let length = text.len() as int;
    let commas = outer_commas(text, length);
    commas_are_in_order(text, length);
    match split_of(text) {
        Ok(pieces) => {
            if 0 <= k < pieces.len() {
                let start = begins(commas, k);
                let end = if k < commas.len() {
                    commas[k]
                } else {
                    length
                };
                if k > 0 {
                    assert(outer_comma(text, commas[k - 1]));
                    assert(place_after(text, start) == step(outside(), ','));
                }
                assert forall|i: int| start <= i < end implies !#[trigger] outer_comma(text, i) by {
                    if outer_comma(text, i) {
                        let j = choose|j: int| 0 <= j < commas.len() && commas[j] == i;
                        if j < k - 1 {
                            assert(commas[j] < commas[k - 1]);
                        }
                        if k < commas.len() && k < j {
                            assert(commas[k] < commas[j]);
                        }
                    }
                }
                if k > 0 && k < commas.len() {
                    assert(commas[k - 1] < commas[k]);
                }
                pieces_hold_no_commas(text, start, end);
                assert(piece(text, k) == text.subrange(start, end));
            }
        },
        Err(_) => {},
    }
}

} // verus!
