//! Text as sequences of characters: comparing, searching, splitting, and decimal numbers.

use vstd::prelude::*;
use vstd::string::StringExecFns;
use vstd::std_specs::iter::IteratorSpec;

verus! {

/// `std::string::String::push` appends one character and changes nothing else.
pub assume_specification[ std::string::String::push ](subject: &mut std::string::String, character: char)
    ensures
        final(subject)@ == old(subject)@.push(character),
;

// ---------------------------------------------------------------------------------------------
// Copies and characters
// ---------------------------------------------------------------------------------------------

/// The characters of `text` in order.
pub fn chars_of(text: &str) -> (result: Vec<char>)
    ensures
        result@ == text@,
{
    let mut result: Vec<char> = Vec::new();
    let mut iter = text.chars();
    loop
        invariant
            iter.obeys_prophetic_iter_laws(),
            iter.decrease() is Some,
            result@ + iter.remaining() == text@,
        ensures
            result@ == text@,
        decreases iter.decrease()->0,
    {
        let ghost before = iter.remaining();
        match iter.next() {
            None => {
                assert(before.len() == 0);
                assert(result@ + before == result@);
                break;
            },
            Some(c) => {
                assert(before == seq![c] + iter.remaining());
                result.push(c);
                assert(result@ + iter.remaining() =~= text@);
            },
        }
    }
    result
}

/// The text made of `characters[from..to]`.
pub fn text_of(characters: &Vec<char>, from: usize, to: usize) -> (result: String)
    requires
        from <= to <= characters.len(),
    ensures
        result@ == characters@.subrange(from as int, to as int),
{
    let mut result = String::new();
    let mut i: usize = from;
    while i < to
        invariant
            from <= i <= to <= characters.len(),
            result@ == characters@.subrange(from as int, i as int),
        decreases to - i,
    {
        result.push(characters[i]);
        i += 1;
        assert(result@ =~= characters@.subrange(from as int, i as int));
    }
    result
}

/// An owned copy of `text`.
pub fn owned(text: &str) -> (result: String)
    ensures
        result@ == text@,
{
    text.to_owned()
}

/// The empty text.
pub fn nothing() -> (result: String)
    ensures
        result@ == Seq::<char>::empty(),
{
    String::new()
}

/// Whether two texts hold the same characters.
pub fn same(a: &str, b: &str) -> (result: bool)
    ensures
        result == (a@ == b@),
{
    let left = owned(a);
    let right = owned(b);
    left == right
}

/// `a` followed by `b`.
pub fn cat2(a: &str, b: &str) -> (result: String)
    ensures
        result@ == a@ + b@,
{
    let mut result = owned(a);
    result.append(b);
    result
}

/// The three texts one after another.
pub fn cat3(a: &str, b: &str, c: &str) -> (result: String)
    ensures
        result@ == a@ + b@ + c@,
{
    let mut result = owned(a);
    result.append(b);
    result.append(c);
    result
}

/// The four texts one after another.
pub fn cat4(a: &str, b: &str, c: &str, d: &str) -> (result: String)
    ensures
        result@ == a@ + b@ + c@ + d@,
{
    let mut result = cat3(a, b, c);
    result.append(d);
    result
}

/// The five texts one after another.
pub fn cat5(a: &str, b: &str, c: &str, d: &str, e: &str) -> (result: String)
    ensures
        result@ == a@ + b@ + c@ + d@ + e@,
{
    let mut result = cat4(a, b, c, d);
    result.append(e);
    result
}

// ---------------------------------------------------------------------------------------------
// Membership in a list of texts
// ---------------------------------------------------------------------------------------------

/// Whether `name` is one of `names`.
pub open spec fn listed(names: Seq<Seq<char>>, name: Seq<char>) -> bool {
    exists|i: int| 0 <= i < names.len() && names[i] == name
}

/// Whether `name` is one of `names`.
pub fn is_listed(names: &Vec<String>, name: &str) -> (result: bool)
    ensures
        result == listed(names.deep_view(), name@),
{
    let mut i: usize = 0;
    while i < names.len()
        invariant
            i <= names.len(),
            forall|j: int| 0 <= j < i ==> names.deep_view()[j] != name@,
        decreases names.len() - i,
    {
        if same(names[i].as_str(), name) {
            assert(names.deep_view()[i as int] == name@);
            return true;
        }
        i += 1;
    }
    false
}

/// Whether two lists hold the same texts in the same order.
pub fn same_names(a: &Vec<String>, b: &Vec<String>) -> (result: bool)
    ensures
        result == (a.deep_view() == b.deep_view()),
{
    if a.len() != b.len() {
        assert(a.deep_view().len() != b.deep_view().len());
        return false;
    }
    let mut i: usize = 0;
    while i < a.len()
        invariant
            i <= a.len() == b.len(),
            forall|j: int| 0 <= j < i ==> a.deep_view()[j] == b.deep_view()[j],
        decreases a.len() - i,
    {
        if !same(a[i].as_str(), b[i].as_str()) {
            assert(a.deep_view()[i as int] != b.deep_view()[i as int]);
            return false;
        }
        i += 1;
    }
    assert(a.deep_view() =~= b.deep_view());
    true
}

// ---------------------------------------------------------------------------------------------
// Order
// ---------------------------------------------------------------------------------------------

/// Lexicographic order by code point, which is also the order of the UTF-8 bytes.
pub open spec fn text_before(a: Seq<char>, b: Seq<char>) -> bool
    decreases a.len(),
{
    if b.len() == 0 {
        false
    } else if a.len() == 0 {
        true
    } else if a[0] != b[0] {
        (a[0] as int) < (b[0] as int)
    } else {
        text_before(a.skip(1), b.skip(1))
    }
}

pub proof fn text_order_irreflexive(a: Seq<char>)
    ensures
        !text_before(a, a),
    decreases a.len(),
{
    if a.len() > 0 {
        text_order_irreflexive(a.skip(1));
    }
}

pub proof fn text_order_transitive(a: Seq<char>, b: Seq<char>, c: Seq<char>)
    requires
        text_before(a, b),
        text_before(b, c),
    ensures
        text_before(a, c),
    decreases a.len(),
{
    if a.len() > 0 && b.len() > 0 && c.len() > 0 && a[0] == b[0] && b[0] == c[0] {
        text_order_transitive(a.skip(1), b.skip(1), c.skip(1));
    }
}

pub proof fn text_order_total(a: Seq<char>, b: Seq<char>)
    ensures
        text_before(a, b) || text_before(b, a) || a == b,
    decreases a.len(),
{
    if a.len() > 0 && b.len() > 0 && a[0] == b[0] {
        text_order_total(a.skip(1), b.skip(1));
        if a.skip(1) == b.skip(1) {
            assert(a =~= seq![a[0]] + a.skip(1));
            assert(b =~= seq![b[0]] + b.skip(1));
        }
    } else if a.len() == 0 && b.len() == 0 {
        assert(a =~= b);
    }
}

/// Whether `a` comes strictly before `b`.
pub fn is_text_before(a: &str, b: &str) -> (result: bool)
    ensures
        result == text_before(a@, b@),
{
    let left = chars_of(a);
    let right = chars_of(b);
    let mut i: usize = 0;
    assert(a@.skip(0) =~= a@);
    assert(b@.skip(0) =~= b@);
    loop
        invariant
            left@ == a@,
            right@ == b@,
            i <= left.len(),
            i <= right.len(),
            text_before(a@, b@) == text_before(a@.skip(i as int), b@.skip(i as int)),
        decreases left.len() - i,
    {
        if i >= right.len() {
            return false;
        }
        if i >= left.len() {
            return true;
        }
        if left[i] != right[i] {
            return left[i] < right[i];
        }
        assert(a@.skip(i as int).skip(1) =~= a@.skip(i + 1));
        assert(b@.skip(i as int).skip(1) =~= b@.skip(i + 1));
        i += 1;
    }
}

// ---------------------------------------------------------------------------------------------
// Searching and cutting
// ---------------------------------------------------------------------------------------------

/// The first position at or after `from` that holds `c`, or the length.
pub open spec fn find_from(text: Seq<char>, c: char, from: int) -> int
    decreases text.len() - from,
{
    if from >= text.len() {
        text.len() as int
    } else if text[from] == c {
        from
    } else {
        find_from(text, c, from + 1)
    }
}

pub proof fn find_from_range(text: Seq<char>, c: char, from: int)
    requires
        0 <= from <= text.len(),
    ensures
        from <= find_from(text, c, from) <= text.len(),
        find_from(text, c, from) < text.len() ==> text[find_from(text, c, from)] == c,
        forall|i: int| from <= i < find_from(text, c, from) ==> text[i] != c,
    decreases text.len() - from,
{
    if from < text.len() && text[from] != c {
        find_from_range(text, c, from + 1);
    }
}

/// The first position at or after `from` that holds `c`, or the length.
pub fn find_char(text: &Vec<char>, c: char, from: usize) -> (result: usize)
    requires
        from <= text.len(),
    ensures
        result == find_from(text@, c, from as int),
        from <= result <= text.len(),
        result < text.len() ==> text[result as int] == c,
{
    let mut i: usize = from;
    while i < text.len()
        invariant
            from <= i <= text.len(),
            find_from(text@, c, from as int) == find_from(text@, c, i as int),
        decreases text.len() - i,
    {
        if text[i] == c {
            return i;
        }
        i += 1;
    }
    i
}

/// The part before the first `c`, or all of the text.
pub open spec fn before_char(text: Seq<char>, c: char) -> Seq<char> {
    text.take(find_from(text, c, 0))
}

/// The part before the first `c`, or all of the text.
pub fn part_before(text: &str, c: char) -> (result: String)
    ensures
        result@ == before_char(text@, c),
{
    let characters = chars_of(text);
    let end: usize = find_char(&characters, c, 0);
    let result = text_of(&characters, 0, end);
    assert(result@ =~= before_char(text@, c));
    result
}

/// The part between the first and the second `c`, when there is a first one.
pub open spec fn second_part(text: Seq<char>, c: char) -> Option<Seq<char>> {
    let first = find_from(text, c, 0);
    if first < text.len() {
        Some(text.subrange(first + 1, find_from(text, c, first + 1)))
    } else {
        None
    }
}

/// The part between the first and the second `c`, when there is a first one.
pub fn part_between(text: &str, c: char) -> (result: Option<String>)
    ensures
        result.deep_view() == second_part(text@, c),
{
    let characters = chars_of(text);
    let first: usize = find_char(&characters, c, 0);
    if first < characters.len() {
        let end: usize = find_char(&characters, c, first + 1);
        Some(text_of(&characters, first + 1, end))
    } else {
        None
    }
}

/// The text without the run of `c` at its end.
pub open spec fn without_tail(text: Seq<char>, c: char) -> Seq<char>
    decreases text.len(),
{
    if text.len() > 0 && text.last() == c {
        without_tail(text.drop_last(), c)
    } else {
        text
    }
}

/// The text without the run of `c` at its beginning.
pub open spec fn without_head(text: Seq<char>, c: char) -> Seq<char>
    decreases text.len(),
{
    if text.len() > 0 && text[0] == c {
        without_head(text.skip(1), c)
    } else {
        text
    }
}

/// The text without the run of `c` at its end.
pub fn trim_tail(text: &str, c: char) -> (result: String)
    ensures
        result@ == without_tail(text@, c),
{
    let characters = chars_of(text);
    let mut end: usize = characters.len();
    assert(characters@.take(end as int) =~= characters@);
    while end > 0 && characters[end - 1] == c
        invariant
            end <= characters.len(),
            characters@ == text@,
            without_tail(text@, c) == without_tail(characters@.take(end as int), c),
        decreases end,
    {
        assert(characters@.take(end as int).drop_last() =~= characters@.take(end - 1));
        end -= 1;
    }
    let result = text_of(&characters, 0, end);
    assert(result@ =~= characters@.take(end as int));
    result
}

/// The text without the runs of `c` at both its ends.
pub open spec fn without_ends(text: Seq<char>, c: char) -> Seq<char> {
    without_tail(without_head(text, c), c)
}

/// The text without the runs of `c` at both its ends.
pub fn trim_both(text: &str, c: char) -> (result: String)
    ensures
        result@ == without_ends(text@, c),
{
    let characters = chars_of(text);
    let mut start: usize = 0;
    assert(characters@.skip(0) =~= characters@);
    while start < characters.len() && characters[start] == c
        invariant
            start <= characters.len(),
            characters@ == text@,
            without_head(text@, c) == without_head(characters@.skip(start as int), c),
        decreases characters.len() - start,
    {
        assert(characters@.skip(start as int).skip(1) =~= characters@.skip(start + 1));
        start += 1;
    }
    let middle = text_of(&characters, start, characters.len());
    assert(middle@ =~= characters@.skip(start as int));
    trim_tail(middle.as_str(), c)
}

/// Whether `text` begins with `prefix`.
pub open spec fn begins(text: Seq<char>, prefix: Seq<char>) -> bool {
    prefix.len() <= text.len() && text.take(prefix.len() as int) == prefix
}

/// What follows `prefix` in `text`, when the text begins with it.
pub open spec fn after_prefix(text: Seq<char>, prefix: Seq<char>) -> Option<Seq<char>> {
    if begins(text, prefix) {
        Some(text.skip(prefix.len() as int))
    } else {
        None
    }
}

/// What follows `prefix` in `text`, when the text begins with it.
pub fn strip_prefix(text: &str, prefix: &str) -> (result: Option<String>)
    ensures
        result.deep_view() == after_prefix(text@, prefix@),
{
    let characters = chars_of(text);
    let wanted = chars_of(prefix);
    if wanted.len() > characters.len() {
        return None;
    }
    let mut i: usize = 0;
    while i < wanted.len()
        invariant
            i <= wanted.len() <= characters.len(),
            characters@ == text@,
            wanted@ == prefix@,
            forall|j: int| 0 <= j < i ==> characters[j] == wanted[j],
        decreases wanted.len() - i,
    {
        if characters[i] != wanted[i] {
            assert(text@.take(prefix@.len() as int)[i as int] != prefix@[i as int]);
            return None;
        }
        i += 1;
    }
    assert(text@.take(prefix@.len() as int) =~= prefix@);
    let rest = text_of(&characters, wanted.len(), characters.len());
    assert(rest@ =~= text@.skip(prefix@.len() as int));
    Some(rest)
}

/// Whether `text` begins with `prefix`.
pub fn starts_with(text: &str, prefix: &str) -> (result: bool)
    ensures
        result == begins(text@, prefix@),
{
    match strip_prefix(text, prefix) {
        Some(_) => true,
        None => false,
    }
}

/// The ASCII lower-case letter of `c`, or `c`.
pub open spec fn letter_folded(c: char) -> char {
    if 'A' <= c && c <= 'Z' {
        (c as int + 32) as char
    } else {
        c
    }
}

/// Whether two texts differ at most in the case of ASCII letters.
pub open spec fn alike(a: Seq<char>, b: Seq<char>) -> bool {
    a.len() == b.len() && forall|i: int|
        0 <= i < a.len() ==> letter_folded(#[trigger] a[i]) == letter_folded(b[i])
}

fn fold_letter(c: char) -> (result: char)
    ensures
        result == letter_folded(c),
{
    if 'A' <= c && c <= 'Z' {
        (c as u8 + 32u8) as char
    } else {
        c
    }
}

/// Whether two texts differ at most in the case of ASCII letters.
pub fn is_alike(a: &str, b: &str) -> (result: bool)
    ensures
        result == alike(a@, b@),
{
    let left = chars_of(a);
    let right = chars_of(b);
    if left.len() != right.len() {
        return false;
    }
    let mut i: usize = 0;
    while i < left.len()
        invariant
            i <= left.len() == right.len(),
            left@ == a@,
            right@ == b@,
            forall|j: int| 0 <= j < i ==> letter_folded(#[trigger] a@[j]) == letter_folded(b@[j]),
        decreases left.len() - i,
    {
        assert(a@[i as int] == left[i as int]);
        if fold_letter(left[i]) != fold_letter(right[i]) {
            return false;
        }
        i += 1;
    }
    true
}

// ---------------------------------------------------------------------------------------------
// Joining
// ---------------------------------------------------------------------------------------------

/// `parts[from..]` with `separator` between them.
pub open spec fn joined_from(parts: Seq<Seq<char>>, separator: Seq<char>, from: int) -> Seq<char>
    decreases parts.len() - from,
{
    if from >= parts.len() {
        Seq::empty()
    } else if from + 1 == parts.len() {
        parts[from]
    } else {
        parts[from] + separator + joined_from(parts, separator, from + 1)
    }
}

/// The parts with `separator` between them.
pub open spec fn joined(parts: Seq<Seq<char>>, separator: Seq<char>) -> Seq<char> {
    joined_from(parts, separator, 0)
}

/// The parts with `separator` between them.
pub fn join(parts: &Vec<String>, separator: &str) -> (result: String)
    ensures
        result@ == joined(parts.deep_view(), separator@),
{
    let mut result = String::new();
    let mut i: usize = 0;
    assert(result@ + joined(parts.deep_view(), separator@) =~= joined(parts.deep_view(), separator@));
    while i < parts.len()
        invariant
            i <= parts.len(),
            result@ + joined_from(parts.deep_view(), separator@, i as int) == joined(
                parts.deep_view(),
                separator@,
            ),
        decreases parts.len() - i,
    {
        let ghost before = result@;
        let ghost rest = joined_from(parts.deep_view(), separator@, i + 1);
        assert(parts.deep_view()[i as int] == parts[i as int]@);
        result.append(parts[i].as_str());
        if i + 1 < parts.len() {
            result.append(separator);
            assert(before + (parts[i as int]@ + separator@ + rest) =~= result@ + rest);
        } else {
            assert(result@ + Seq::<char>::empty() =~= result@);
        }
        i += 1;
    }
    assert(result@ + Seq::<char>::empty() =~= result@);
    result
}

// ---------------------------------------------------------------------------------------------
// Decimal numbers
// ---------------------------------------------------------------------------------------------

/// Whether `c` is an ASCII digit.
pub open spec fn is_digit(c: char) -> bool {
    '0' <= c && c <= '9'
}

/// The number that a run of decimal digits stands for.
pub open spec fn digits_value(digits: Seq<char>) -> nat
    decreases digits.len(),
{
    if digits.len() == 0 {
        0
    } else {
        digits_value(digits.drop_last()) * 10 + (digits.last() as int - '0' as int) as nat
    }
}

/// The number that a non-empty run of decimal digits stands for; nothing for any other text.
pub open spec fn digits_number(digits: Seq<char>) -> Option<nat> {
    if digits.len() > 0 && (forall|i: int| 0 <= i < digits.len() ==> is_digit(#[trigger] digits[i])) {
        Some(digits_value(digits))
    } else {
        None
    }
}

/// The number written by `text`: digits after an optional plus sign.
pub open spec fn unsigned_number(text: Seq<char>) -> Option<nat> {
    if text.len() > 0 && text[0] == '+' {
        digits_number(text.skip(1))
    } else {
        digits_number(text)
    }
}

/// The number written by `text`: digits after an optional sign.
pub open spec fn signed_number(text: Seq<char>) -> Option<int> {
    if text.len() > 0 && text[0] == '-' {
        match digits_number(text.skip(1)) {
            Some(n) => Some(-(n as int)),
            None => None,
        }
    } else {
        match unsigned_number(text) {
            Some(n) => Some(n as int),
            None => None,
        }
    }
}

/// The 64-bit signed integer written by `text`, when there is one in range.
pub open spec fn parsed_i64(text: Seq<char>) -> Option<i64> {
    match signed_number(text) {
        Some(n) => if i64::MIN <= n <= i64::MAX {
            Some(n as i64)
        } else {
            None
        },
        None => None,
    }
}

/// The 64-bit unsigned integer written by `text`, when there is one in range.
pub open spec fn parsed_u64(text: Seq<char>) -> Option<u64> {
    match unsigned_number(text) {
        Some(n) => if n <= u64::MAX {
            Some(n as u64)
        } else {
            None
        },
        None => None,
    }
}

/// The machine-size integer written by `text`, when there is one in range.
pub open spec fn parsed_usize(text: Seq<char>) -> Option<usize> {
    match unsigned_number(text) {
        Some(n) => if n <= usize::MAX {
            Some(n as usize)
        } else {
            None
        },
        None => None,
    }
}

proof fn digits_value_grows(digits: Seq<char>, k: int)
    requires
        0 <= k <= digits.len(),
        forall|i: int| 0 <= i < digits.len() ==> is_digit(#[trigger] digits[i]),
    ensures
        digits_value(digits.take(k)) <= digits_value(digits),
    decreases digits.len(),
{
    if k == digits.len() {
        assert(digits.take(k) =~= digits);
    } else {
        assert(digits.drop_last().take(k) =~= digits.take(k));
        digits_value_grows(digits.drop_last(), k);
    }
}

/// The value of the digits `characters[from..]`: nothing when they are no non-empty run of
/// digits, `Some(None)` when the value exceeds the 64-bit range.
fn read_digits(characters: &Vec<char>, from: usize) -> (result: Option<Option<u64>>)
    requires
        from <= characters.len(),
    ensures
        match digits_number(characters@.skip(from as int)) {
            None => result is None,
            Some(n) => result == Some(if n <= u64::MAX { Some(n as u64) } else { None }),
        },
{
    let ghost digits = characters@.skip(from as int);
    if from == characters.len() {
        return None;
    }
    let mut check: usize = from;
    while check < characters.len()
        invariant
            from <= check <= characters.len(),
            digits == characters@.skip(from as int),
            forall|i: int| 0 <= i < check - from ==> is_digit(#[trigger] digits[i]),
        decreases characters.len() - check,
    {
        let c: char = characters[check];
        if c < '0' || c > '9' {
            assert(!is_digit(digits[check - from]));
            return None;
        }
        assert(digits[check - from] == c);
        check += 1;
    }
    let mut value: u64 = 0;
    let mut i: usize = from;
    assert(digits.take(0) =~= Seq::<char>::empty());
    while i < characters.len()
        invariant
            from <= i <= characters.len(),
            from < characters.len(),
            digits == characters@.skip(from as int),
            forall|k: int| 0 <= k < digits.len() ==> is_digit(#[trigger] digits[k]),
            value == digits_value(digits.take(i - from)),
        decreases characters.len() - i,
    {
        let c: char = characters[i];
        assert(digits[i - from] == c);
        assert(digits.take(i - from + 1).drop_last() =~= digits.take(i - from));
        proof {
            digits_value_grows(digits, i - from + 1);
        }
        let digit: u64 = (c as u32 - 48u32) as u64;
        match value.checked_mul(10) {
            None => {
                return Some(None);
            },
            Some(scaled) => {
                match scaled.checked_add(digit) {
                    None => {
                        return Some(None);
                    },
                    Some(next) => {
                        value = next;
                    },
                }
            },
        }
        i += 1;
    }
    assert(digits.take(i - from) =~= digits);
    Some(Some(value))
}

/// The 64-bit signed integer written by `text`, when there is one in range.
pub fn parse_i64(text: &str) -> (result: Option<i64>)
    ensures
        result == parsed_i64(text@),
{
    let characters = chars_of(text);
    assert(text@.skip(0) =~= text@);
    if characters.len() > 0 && characters[0] == '-' {
        match read_digits(&characters, 1) {
            Some(Some(n)) => if n <= 9223372036854775807u64 {
                Some(-(n as i64))
            } else if n == 9223372036854775808u64 {
                Some(i64::MIN)
            } else {
                None
            },
            _ => None,
        }
    } else {
        let start: usize = if characters.len() > 0 && characters[0] == '+' { 1 } else { 0 };
        match read_digits(&characters, start) {
            Some(Some(n)) => if n <= 9223372036854775807u64 {
                Some(n as i64)
            } else {
                None
            },
            _ => None,
        }
    }
}

/// The 64-bit unsigned integer written by `text`, when there is one in range.
pub fn parse_u64(text: &str) -> (result: Option<u64>)
    ensures
        result == parsed_u64(text@),
{
    let characters = chars_of(text);
    assert(text@.skip(0) =~= text@);
    let start: usize = if characters.len() > 0 && characters[0] == '+' { 1 } else { 0 };
    match read_digits(&characters, start) {
        Some(found) => found,
        None => None,
    }
}

/// The machine-size integer written by `text`, when there is one in range.
pub fn parse_usize(text: &str) -> (result: Option<usize>)
    ensures
        result == parsed_usize(text@),
{
    match parse_u64(text) {
        Some(n) => if n <= usize::MAX as u64 {
            Some(n as usize)
        } else {
            None
        },
        None => None,
    }
}

/// The decimal digits of `n` without leading zeros.
pub open spec fn decimal(n: nat) -> Seq<char>
    decreases n,
{
    if n < 10 {
        seq![(48 + n) as char]
    } else {
        decimal(n / 10).push((48 + n % 10) as char)
    }
}

/// The decimal digits of `n` without leading zeros.
pub fn decimal_text(n: u64) -> (result: String)
    ensures
        result@ == decimal(n as nat),
    decreases n,
{
    let digit: char = (48u8 + (n % 10) as u8) as char;
    if n < 10 {
        let mut result = String::new();
        result.push(digit);
        assert(result@ =~= decimal(n as nat));
        result
    } else {
        let mut result = decimal_text(n / 10);
        result.push(digit);
        result
    }
}

/// The decimal digits of a number of twice the usual width.
pub fn wide_decimal_text(n: u128) -> (result: String)
    ensures
        result@ == decimal(n as nat),
    decreases n,
{
    let digit: char = (48u8 + (n % 10) as u8) as char;
    if n < 10 {
        let mut result = String::new();
        result.push(digit);
        assert(result@ =~= decimal(n as nat));
        result
    } else {
        let mut result = wide_decimal_text(n / 10);
        result.push(digit);
        result
    }
}

} // verus!
