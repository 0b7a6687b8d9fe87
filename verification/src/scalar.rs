//! Scalars: types of cells, three-valued logic, comparison, arithmetic and patterns.

use vstd::prelude::*;
use crate::catalog::Column;
use crate::error::{err, failure, outcome, unsupported, unsupported_failure, Outcome, Result};
use crate::json::{group_value_views, Datum, Json, Num};
use crate::text::{
    before_char, cat2, cat3, cat4, chars_of, decimal, decimal_text, is_text_before, parse_usize,
    parsed_usize, part_before, part_between, same, second_part, text_before, trim_tail, without_tail,
};
use crate::value::{as_int, text};

verus! {

broadcast use group_value_views;

// ---------------------------------------------------------------------------------------------
// Types of cells
// ---------------------------------------------------------------------------------------------

pub open spec fn small_type(base: Seq<char>) -> bool {
    base == "smallint"@ || base == "int2"@
}

pub open spec fn int_type(base: Seq<char>) -> bool {
    base == "int"@ || base == "integer"@ || base == "int4"@
}

pub open spec fn big_type(base: Seq<char>) -> bool {
    base == "bigint"@ || base == "int8"@
}

pub open spec fn varying_type(base: Seq<char>) -> bool {
    base == "varchar"@ || base == "character varying"@
}

pub open spec fn text_type(base: Seq<char>) -> bool {
    base == "text"@ || varying_type(base)
}

pub open spec fn bool_type(base: Seq<char>) -> bool {
    base == "boolean"@ || base == "bool"@
}

pub open spec fn json_type(base: Seq<char>) -> bool {
    base == "json"@ || base == "jsonb"@
}

/// Whether the type, its length left out, is one that cells can have.
pub open spec fn known_type(base: Seq<char>) -> bool {
    small_type(base) || int_type(base) || big_type(base) || text_type(base) || bool_type(base) || base
        == "uuid"@ || json_type(base)
}

/// Whether a data type is supported.
pub open spec fn type_supported(name: Seq<char>) -> Outcome<()> {
    if known_type(before_char(name, '(')) {
        Ok(())
    } else {
        Err(
            unsupported_failure(
                "Data type "@ + name + " is not implemented in the canonical mutation engine"@,
            ),
        )
    }
}

pub open spec fn hex_digit(c: char) -> bool {
    '0' <= c && c <= '9' || 'a' <= c && c <= 'f' || 'A' <= c && c <= 'F'
}

/// Whether a text is a UUID: hexadecimal digits with hyphens at the four fixed places.
pub open spec fn uuid_text(s: Seq<char>) -> bool {
    s.len() == 36 && forall|i: int|
        0 <= i < 36 ==> (if i == 8 || i == 13 || i == 18 || i == 23 {
            #[trigger] s[i] == '-'
        } else {
            hex_digit(s[i])
        })
}

/// Whether a value that is not null has the type.
pub open spec fn has_type(base: Seq<char>, value: Json) -> bool {
    if small_type(base) {
        as_int(value) matches Some(n) && -32768 <= n <= 32767
    } else if int_type(base) {
        as_int(value) matches Some(n) && -2147483648 <= n <= 2147483647
    } else if big_type(base) {
        as_int(value) is Some
    } else if text_type(base) {
        value is String
    } else if bool_type(base) {
        value is Bool
    } else if base == "uuid"@ {
        value matches Json::String(s) && uuid_text(s)
    } else {
        json_type(base)
    }
}

/// The greatest length of a varying text type that has one.
pub open spec fn length_limit(name: Seq<char>) -> Option<usize> {
    match second_part(name, '(') {
        Some(part) => parsed_usize(without_tail(part, ')')),
        None => None,
    }
}

/// Whether a column of this name, type and nullability can hold the value.
pub open spec fn value_checked(
    name: Seq<char>,
    declared: Seq<char>,
    nullable: bool,
    value: Json,
) -> Outcome<()> {
    let base = before_char(declared, '(');
    if value is Null {
        if nullable {
            Ok(())
        } else {
            Err(failure("ConstraintViolation"@, name + " is NOT NULL"@))
        }
    } else if !has_type(base, value) {
        Err(failure("TypeError"@, "Invalid "@ + declared + " value for column "@ + name))
    } else if varying_type(base) && length_limit(declared) is Some && text(value).len()
        > length_limit(declared)->0 {
        Err(
            failure(
                "TypeError"@,
                name + " exceeds length "@ + decimal(length_limit(declared)->0 as nat),
            ),
        )
    } else {
        Ok(())
    }
}

fn is_small_type(base: &str) -> (result: bool)
    ensures
        result == small_type(base@),
{
    same(base, "smallint") || same(base, "int2")
}

fn is_int_type(base: &str) -> (result: bool)
    ensures
        result == int_type(base@),
{
    same(base, "int") || same(base, "integer") || same(base, "int4")
}

fn is_big_type(base: &str) -> (result: bool)
    ensures
        result == big_type(base@),
{
    same(base, "bigint") || same(base, "int8")
}

fn is_varying_type(base: &str) -> (result: bool)
    ensures
        result == varying_type(base@),
{
    same(base, "varchar") || same(base, "character varying")
}

fn is_text_type(base: &str) -> (result: bool)
    ensures
        result == text_type(base@),
{
    same(base, "text") || is_varying_type(base)
}

fn is_bool_type(base: &str) -> (result: bool)
    ensures
        result == bool_type(base@),
{
    same(base, "boolean") || same(base, "bool")
}

fn is_json_type(base: &str) -> (result: bool)
    ensures
        result == json_type(base@),
{
    same(base, "json") || same(base, "jsonb")
}

/// Refuses a data type that cells cannot have.
pub fn check_type_supported(name: &str) -> (result: Result<()>)
    ensures
        outcome(result) == type_supported(name@),
{
    let base = part_before(name, '(');
    let base = base.as_str();
    if is_small_type(base) || is_int_type(base) || is_big_type(base) || is_text_type(base) || is_bool_type(base)
        || same(base, "uuid") || is_json_type(base) {
        Ok(())
    } else {
        Err(
            unsupported(
                cat3(
                    "Data type ",
                    name,
                    " is not implemented in the canonical mutation engine",
                ).as_str(),
            ),
        )
    }
}

fn is_uuid(s: &str) -> (result: bool)
    ensures
        result == uuid_text(s@),
{
    let characters = chars_of(s);
    if characters.len() != 36 {
        return false;
    }
    let mut i: usize = 0;
    while i < 36
        invariant
            i <= 36,
            characters@ == s@,
            characters.len() == 36,
            forall|j: int|
                0 <= j < i ==> (if j == 8 || j == 13 || j == 18 || j == 23 {
                    #[trigger] s@[j] == '-'
                } else {
                    hex_digit(s@[j])
                }),
        decreases 36 - i,
    {
        let c: char = characters[i];
        assert(s@[i as int] == c);
        let hyphen = i == 8 || i == 13 || i == 18 || i == 23;
        let fits = if hyphen {
            c == '-'
        } else {
            '0' <= c && c <= '9' || 'a' <= c && c <= 'f' || 'A' <= c && c <= 'F'
        };
        if !fits {
            return false;
        }
        i += 1;
    }
    true
}

fn is_of_type(base: &str, value: &Datum) -> (result: bool)
    ensures
        result == has_type(base@, value@),
{
    if is_small_type(base) {
        match value.as_i64() {
            Some(n) => -32768 <= n && n <= 32767,
            None => false,
        }
    } else if is_int_type(base) {
        match value.as_i64() {
            Some(n) => -2147483648 <= n && n <= 2147483647,
            None => false,
        }
    } else if is_big_type(base) {
        value.as_i64().is_some()
    } else if is_text_type(base) {
        value.as_str().is_some()
    } else if is_bool_type(base) {
        match value {
            Datum::Bool(_) => true,
            _ => false,
        }
    } else if same(base, "uuid") {
        match value.as_str() {
            Some(s) => is_uuid(s),
            None => false,
        }
    } else {
        is_json_type(base)
    }
}

/// Refuses a value that a column of this name, type and nullability cannot hold.
pub fn check_typed(name: &str, declared: &str, nullable: bool, value: &Datum) -> (result: Result<()>)
    ensures
        outcome(result) == value_checked(name@, declared@, nullable, value@),
{
    if value.is_null() {
        return if nullable {
            Ok(())
        } else {
            Err(err("ConstraintViolation", cat2(name, " is NOT NULL").as_str()))
        };
    }
    let base = part_before(declared, '(');
    if !is_of_type(base.as_str(), value) {
        return Err(
            err("TypeError", cat4("Invalid ", declared, " value for column ", name).as_str()),
        );
    }
    if is_varying_type(base.as_str()) {
        if let Some(part) = part_between(declared, '(') {
            if let Some(limit) = parse_usize(trim_tail(part.as_str(), ')').as_str()) {
                if chars_of(value.text()).len() > limit {
                    return Err(
                        err(
                            "TypeError",
                            cat3(name, " exceeds length ", decimal_text(limit as u64).as_str()).as_str(),
                        ),
                    );
                }
            }
        }
    }
    Ok(())
}

/// Refuses a value that the column cannot hold.
pub fn check_value(column: &Column, value: &Datum) -> (result: Result<()>)
    ensures
        outcome(result) == value_checked(
            column.name@,
            column.data_type@,
            column.nullable,
            value@,
        ),
{
    check_typed(column.name.as_str(), column.data_type.as_str(), column.nullable, value)
}

// ---------------------------------------------------------------------------------------------
// Three-valued logic
// ---------------------------------------------------------------------------------------------

/// The truth value of a predicate's value; unknown for null.
pub open spec fn truth_of(value: Json) -> Outcome<Option<bool>> {
    match value {
        Json::Null => Ok(None),
        Json::Bool(b) => Ok(Some(b)),
        _ => Err(failure("TypeError"@, "Predicate requires boolean"@)),
    }
}

/// The value of a truth value.
pub open spec fn of_truth(truth: Option<bool>) -> Json {
    match truth {
        Some(b) => Json::Bool(b),
        None => Json::Null,
    }
}

/// Conjunction with an unknown.
pub open spec fn both(a: Option<bool>, b: Option<bool>) -> Option<bool> {
    if a == Some(false) || b == Some(false) {
        Some(false)
    } else if a == Some(true) && b == Some(true) {
        Some(true)
    } else {
        None
    }
}

/// Disjunction with an unknown.
pub open spec fn either(a: Option<bool>, b: Option<bool>) -> Option<bool> {
    if a == Some(true) || b == Some(true) {
        Some(true)
    } else if a == Some(false) && b == Some(false) {
        Some(false)
    } else {
        None
    }
}

/// Negation with an unknown.
pub open spec fn opposite(a: Option<bool>) -> Option<bool> {
    match a {
        Some(b) => Some(!b),
        None => None,
    }
}

/// The laws of three-valued logic: both connectives commute and associate, and negation exchanges
/// them.
pub proof fn three_valued_laws(a: Option<bool>, b: Option<bool>, c: Option<bool>)
    ensures
        both(a, b) == both(b, a),
        either(a, b) == either(b, a),
        both(a, both(b, c)) == both(both(a, b), c),
        either(a, either(b, c)) == either(either(a, b), c),
        opposite(both(a, b)) == either(opposite(a), opposite(b)),
        opposite(either(a, b)) == both(opposite(a), opposite(b)),
        opposite(opposite(a)) == a,
{
}

/// The truth value of a predicate's value; unknown for null.
pub fn truth(value: &Datum) -> (result: Result<Option<bool>>)
    ensures
        outcome(result) == truth_of(value@),
{
    match value {
        Datum::Null => Ok(None),
        Datum::Bool(b) => Ok(Some(*b)),
        _ => Err(err("TypeError", "Predicate requires boolean")),
    }
}

pub fn from_truth(truth: Option<bool>) -> (result: Datum)
    ensures
        result@ == of_truth(truth),
{
    match truth {
        Some(b) => Datum::Bool(b),
        None => Datum::Null,
    }
}

// ---------------------------------------------------------------------------------------------
// Comparison and arithmetic
// ---------------------------------------------------------------------------------------------

/// How two values compare.
#[derive(Debug, Clone, Copy, PartialEq, Eq, Structural)]
pub enum Order {
    Less,
    Equal,
    Greater,
}

impl DeepView for Order {
    type V = Order;

    open spec fn deep_view(&self) -> Order {
        *self
    }
}

/// The order of two integers.
pub open spec fn int_order(a: int, b: int) -> Order {
    if a < b {
        Order::Less
    } else if a == b {
        Order::Equal
    } else {
        Order::Greater
    }
}

/// The order of two texts.
pub open spec fn text_order(a: Seq<char>, b: Seq<char>) -> Order {
    if a == b {
        Order::Equal
    } else if text_before(a, b) {
        Order::Less
    } else {
        Order::Greater
    }
}

/// How two values compare: integers, texts and booleans compare with their like.
pub open spec fn compared(a: Json, b: Json) -> Outcome<Order> {
    match (a, b) {
        (Json::Number(x), Json::Number(y)) => match (x, y) {
            (Num::Int(m), Num::Int(n)) => Ok(int_order(m as int, n as int)),
            _ => Err(unsupported_failure("Non-integer numeric comparison"@)),
        },
        (Json::String(x), Json::String(y)) => Ok(text_order(x, y)),
        (Json::Bool(x), Json::Bool(y)) => Ok(
            if x == y {
                Order::Equal
            } else if y {
                Order::Less
            } else {
                Order::Greater
            },
        ),
        _ => Err(failure("TypeError"@, "Incompatible comparison operands"@)),
    }
}

/// How two values compare.
pub fn compare(a: &Datum, b: &Datum) -> (result: Result<Order>)
    ensures
        outcome(result) == compared(a@, b@),
{
    match (a, b) {
        (Datum::Number(_), Datum::Number(_)) => match (a.as_i64(), b.as_i64()) {
            (Some(m), Some(n)) => Ok(
                if m < n {
                    Order::Less
                } else if m == n {
                    Order::Equal
                } else {
                    Order::Greater
                },
            ),
            _ => Err(unsupported("Non-integer numeric comparison")),
        },
        (Datum::String(x), Datum::String(y)) => Ok(
            if same(x.as_str(), y.as_str()) {
                Order::Equal
            } else if is_text_before(x.as_str(), y.as_str()) {
                Order::Less
            } else {
                Order::Greater
            },
        ),
        (Datum::Bool(x), Datum::Bool(y)) => Ok(
            if *x == *y {
                Order::Equal
            } else if *y {
                Order::Less
            } else {
                Order::Greater
            },
        ),
        _ => Err(err("TypeError", "Incompatible comparison operands")),
    }
}

pub open spec fn magnitude(n: int) -> int {
    if n < 0 {
        -n
    } else {
        n
    }
}

/// The quotient rounded towards zero.
pub open spec fn quotient(a: int, b: int) -> int {
    let q = magnitude(a) / magnitude(b);
    if (a < 0) != (b < 0) {
        -q
    } else {
        q
    }
}

/// The remainder with the sign of the dividend.
pub open spec fn remainder(a: int, b: int) -> int {
    let r = magnitude(a) % magnitude(b);
    if a < 0 {
        -r
    } else {
        r
    }
}

/// The integer where it is in the 64-bit range.
pub open spec fn in_range(n: int) -> Option<i64> {
    if i64::MIN <= n <= i64::MAX {
        Some(n as i64)
    } else {
        None
    }
}

/// The quotient and the remainder are undefined for a zero divisor and where the quotient is out
/// of range.
pub open spec fn divisible(a: int, b: int) -> bool {
    b != 0 && !(a == i64::MIN && b == -1)
}

/// The value of an arithmetic operator; nothing where it overflows or divides by zero.
pub open spec fn arithmetic(op: Seq<char>, a: int, b: int) -> Option<i64> {
    if op == "Plus"@ {
        in_range(a + b)
    } else if op == "Minus"@ {
        in_range(a - b)
    } else if op == "Multiply"@ {
        in_range(a * b)
    } else if op == "Divide"@ {
        if divisible(a, b) {
            in_range(quotient(a, b))
        } else {
            None
        }
    } else {
        if divisible(a, b) {
            in_range(remainder(a, b))
        } else {
            None
        }
    }
}

fn absolute(n: i64) -> (result: u64)
    ensures
        result == magnitude(n as int),
{
    if n == i64::MIN {
        9223372036854775808u64
    } else if n < 0 {
        (-n) as u64
    } else {
        n as u64
    }
}

fn signed(negative: bool, size: u64) -> (result: Option<i64>)
    ensures
        result == in_range(if negative { -(size as int) } else { size as int }),
{
    if negative {
        if size <= 9223372036854775807u64 {
            Some(-(size as i64))
        } else if size == 9223372036854775808u64 {
            Some(i64::MIN)
        } else {
            None
        }
    } else if size <= 9223372036854775807u64 {
        Some(size as i64)
    } else {
        None
    }
}

pub fn calculate(op: &str, a: i64, b: i64) -> (result: Option<i64>)
    ensures
        result == arithmetic(op@, a as int, b as int),
{
    if same(op, "Plus") {
        a.checked_add(b)
    } else if same(op, "Minus") {
        a.checked_sub(b)
    } else if same(op, "Multiply") {
        a.checked_mul(b)
    } else if b == 0 || (a == i64::MIN && b == -1) {
        None
    } else if same(op, "Divide") {
        signed((a < 0) != (b < 0), absolute(a) / absolute(b))
    } else {
        signed(a < 0, absolute(a) % absolute(b))
    }
}

// ---------------------------------------------------------------------------------------------
// Patterns
// ---------------------------------------------------------------------------------------------

/// An element of a LIKE pattern.
pub enum Glob {
    /// Any run of characters.
    Run,
    /// Any one character.
    One,
    /// This character.
    Only(char),
}

/// The element that a character of a pattern stands for.
pub open spec fn glob_of(token: char, escaped: bool) -> Glob {
    if escaped {
        Glob::Only(token)
    } else if token == '%' {
        Glob::Run
    } else if token == '_' {
        Glob::One
    } else {
        Glob::Only(token)
    }
}

/// The elements of a pattern from position `from` on; nothing where it ends with the escape.
pub open spec fn globs_from(pattern: Seq<char>, escape: char, from: int) -> Option<Seq<Glob>>
    decreases pattern.len() - from,
{
    if from >= pattern.len() {
        Some(Seq::empty())
    } else if pattern[from] == escape {
        if from + 1 >= pattern.len() {
            None
        } else {
            match globs_from(pattern, escape, from + 2) {
                Some(rest) => Some(seq![glob_of(pattern[from + 1], true)] + rest),
                None => None,
            }
        }
    } else {
        match globs_from(pattern, escape, from + 1) {
            Some(rest) => Some(seq![glob_of(pattern[from], false)] + rest),
            None => None,
        }
    }
}

/// Whether a text is what the elements describe.
pub open spec fn fits(value: Seq<char>, globs: Seq<Glob>) -> bool
    decreases globs.len(),
{
    if globs.len() == 0 {
        value.len() == 0
    } else {
        match globs.last() {
            Glob::Run => exists|k: int| 0 <= k <= value.len() && fits(#[trigger] value.take(k), globs.drop_last()),
            Glob::One => value.len() > 0 && fits(value.drop_last(), globs.drop_last()),
            Glob::Only(c) => value.len() > 0 && value.last() == c && fits(
                value.drop_last(),
                globs.drop_last(),
            ),
        }
    }
}

/// Whether a text matches a LIKE pattern.
pub open spec fn like_of(value: Seq<char>, pattern: Seq<char>, escape: char) -> Outcome<bool> {
    match globs_from(pattern, escape, 0) {
        Some(globs) => Ok(fits(value, globs)),
        None => Err(failure("SyntaxError"@, "LIKE pattern ends with escape"@)),
    }
}

proof fn run_extends(value: Seq<char>, globs: Seq<Glob>, i: int)
    requires
        0 <= i <= value.len(),
    ensures
        fits(value.take(i), globs.push(Glob::Run)) == (fits(value.take(i), globs) || (i > 0 && fits(
            value.take(i - 1),
            globs.push(Glob::Run),
        ))),
{
    let all = globs.push(Glob::Run);
    assert(all.drop_last() =~= globs);
    let here = value.take(i);
    assert(here.take(i) =~= here);
    if i > 0 {
        let less = value.take(i - 1);
        assert forall|k: int| 0 <= k <= i - 1 implies #[trigger] less.take(k) == here.take(k) by {
            assert(less.take(k) =~= here.take(k));
        }
        if fits(less, all) {
            let k = choose|k: int| 0 <= k <= less.len() && fits(#[trigger] less.take(k), globs);
            assert(fits(here.take(k), globs));
        }
        if fits(here, all) {
            let k = choose|k: int| 0 <= k <= here.len() && fits(#[trigger] here.take(k), globs);
            if k < i {
                assert(less.take(k) == here.take(k));
                assert(fits(less.take(k), globs));
            } else {
                assert(here.take(k) =~= here);
            }
        }
    } else if fits(here, all) {
        let k = choose|k: int| 0 <= k <= here.len() && fits(#[trigger] here.take(k), globs);
        assert(here.take(k) =~= here);
    }
    if fits(here, globs) {
        assert(fits(here.take(i), globs));
    }
}

proof fn push_then<A>(list: Seq<A>, middle: A, rest: Seq<A>)
    ensures
        list + (seq![middle] + rest) == list.push(middle) + rest,
{
    assert(list + (seq![middle] + rest) =~= list.push(middle) + rest);
}

/// The state of the match after one more element.
fn step(matches: &Vec<bool>, characters: &Vec<char>, token: char, escaped: bool, Ghost(globs): Ghost<Seq<Glob>>) -> (result: Vec<bool>)
    requires
        matches.len() == characters.len() + 1,
        forall|i: int| 0 <= i <= characters.len() ==> #[trigger] matches[i] == fits(characters@.take(i), globs),
    ensures
        result.len() == characters.len() + 1,
        forall|i: int|
            0 <= i <= characters.len() ==> #[trigger] result[i] == fits(
                characters@.take(i),
                globs.push(glob_of(token, escaped)),
            ),
{
    let ghost glob = glob_of(token, escaped);
    let mut next: Vec<bool> = Vec::new();
    let run = token == '%' && !escaped;
    let one = token == '_' && !escaped;
    let ghost all = globs.push(glob);
    assert(all.drop_last() =~= globs);
    if run {
        next.push(matches[0]);
        proof {
            run_extends(characters@, globs, 0);
            assert(matches[0] == fits(characters@.take(0), globs));
        }
    } else {
        next.push(false);
    }
    let mut i: usize = 1;
    while i <= characters.len()
        invariant
            1 <= i <= characters.len() + 1,
            next.len() == i,
            matches.len() == characters.len() + 1,
            run == (glob is Run),
            one == (glob is One),
            !run && !one ==> glob == Glob::Only(token),
            all == globs.push(glob),
            all.drop_last() == globs,
            forall|j: int| 0 <= j <= characters.len() ==> #[trigger] matches[j] == fits(characters@.take(j), globs),
            forall|j: int| 0 <= j < i ==> #[trigger] next[j] == fits(characters@.take(j), all),
        decreases characters.len() + 1 - i,
    {
        assert(matches[i as int] == fits(characters@.take(i as int), globs));
        assert(matches[i - 1] == fits(characters@.take(i - 1), globs));
        assert(next[i - 1] == fits(characters@.take(i - 1), all));
        assert(characters@.take(i as int).drop_last() =~= characters@.take(i - 1));
        let value: bool = if run {
            proof {
                run_extends(characters@, globs, i as int);
            }
            matches[i] || next[i - 1]
        } else {
            matches[i - 1] && (one || characters[i - 1] == token)
        };
        next.push(value);
        i += 1;
    }
    next
}

/// Whether a text matches a LIKE pattern.
pub fn like(value: &str, pattern: &str, escape: char) -> (result: Result<bool>)
    ensures
        outcome(result) == like_of(value@, pattern@, escape),
{
    let characters = chars_of(value);
    let pattern_chars = chars_of(pattern);
    let mut matches: Vec<bool> = Vec::new();
    let mut k: usize = 0;
    matches.push(true);
    while k < characters.len()
        invariant
            k <= characters.len(),
            matches.len() == k + 1,
            matches[0],
            forall|j: int| 1 <= j <= k ==> !#[trigger] matches[j],
        decreases characters.len() - k,
    {
        matches.push(false);
        k += 1;
    }
    let ghost mut globs = Seq::<Glob>::empty();
    let mut i: usize = 0;
    assert(globs_from(pattern@, escape, 0) is Some ==> globs + globs_from(pattern@, escape, 0)->0
        =~= globs_from(pattern@, escape, 0)->0);
    while i < pattern_chars.len()
        invariant
            i <= pattern_chars.len(),
            pattern_chars@ == pattern@,
            characters@ == value@,
            matches.len() == characters.len() + 1,
            forall|j: int| 0 <= j <= characters.len() ==> #[trigger] matches[j] == fits(value@.take(j), globs),
            globs_from(pattern@, escape, 0) is Some == globs_from(pattern@, escape, i as int) is Some,
            globs_from(pattern@, escape, 0) is Some ==> globs_from(pattern@, escape, 0)->0 == globs
                + globs_from(pattern@, escape, i as int)->0,
        decreases pattern_chars.len() - i,
    {
        let mut token: char = pattern_chars[i];
        let escaped = token == escape;
        let ghost from = i as int;
        i += 1;
        if escaped {
            if i >= pattern_chars.len() {
                return Err(err("SyntaxError", "LIKE pattern ends with escape"));
            }
            token = pattern_chars[i];
            i += 1;
        }
        let ghost glob = glob_of(token, escaped);
        matches = step(&matches, &characters, token, escaped, Ghost(globs));
        proof {
            if globs_from(pattern@, escape, from) is Some {
                let rest = globs_from(pattern@, escape, i as int)->0;
                assert(globs_from(pattern@, escape, from)->0 == seq![glob] + rest);
                push_then(globs, glob, rest);
            }
            globs = globs.push(glob);
        }
    }
    assert(globs + Seq::<Glob>::empty() =~= globs);
    assert(matches[characters@.len() as int] == fits(value@.take(characters@.len() as int), globs));
    assert(value@.take(characters@.len() as int) =~= value@);
    Ok(matches[characters.len()])
}

} // verus!
