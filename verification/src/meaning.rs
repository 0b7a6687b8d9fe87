//! What expressions mean: the order of values, the logic with an unknown, arithmetic and patterns.

use vstd::prelude::*;
use crate::ast::{data_type_of, function_name_of, ident_name, ident_names, json_text_of};
use crate::catalog::{AuthModel, CellsModel};
use crate::error::Failure;
use crate::eval::{
    call_modified, chosen_from, coalesced_from, escape_of, evaluated, listed_from, satisfied,
};
use crate::json::{Json, Num};
use crate::ordmap::get;
use crate::outside::lower;
use crate::scalar::{fits, globs_from, like_of, Glob};
use crate::text::{joined, text_before, text_order_total};
use crate::value::{child, flag, item, items, parts_are_lighter, payload, tag, text};

verus! {

// ---------------------------------------------------------------------------------------------
// The order of values
// ---------------------------------------------------------------------------------------------

/// Whether a text stands before another in a dictionary: it is a proper beginning of it, or has the lesser
/// character at the first place where they differ.
pub open spec fn lexically(a: Seq<char>, b: Seq<char>) -> bool {
    exists|k: int| #[trigger] differ_at(a, b, k)
}

/// Whether two texts are the same up to a place where the first ends or has the lesser character.
pub open spec fn differ_at(a: Seq<char>, b: Seq<char>, k: int) -> bool {
    &&& 0 <= k <= a.len() && k < b.len()
    &&& forall|i: int| 0 <= i < k ==> a[i] == b[i]
    &&& k < a.len() ==> (a[k] as int) < (b[k] as int)
}

/// Whether two values can be compared: integers, texts and booleans with their like.
pub open spec fn of_a_kind(a: Json, b: Json) -> bool {
    match (a, b) {
        (Json::Number(Num::Int(_)), Json::Number(Num::Int(_))) => true,
        (Json::String(_), Json::String(_)) => true,
        (Json::Bool(_), Json::Bool(_)) => true,
        _ => false,
    }
}

/// Whether a value is less than another of its kind.
pub open spec fn below(a: Json, b: Json) -> bool {
    match (a, b) {
        (Json::Number(Num::Int(m)), Json::Number(Num::Int(n))) => m < n,
        (Json::String(x), Json::String(y)) => lexically(x, y),
        (Json::Bool(x), Json::Bool(y)) => !x && y,
        _ => false,
    }
}

proof fn dictionary_order(a: Seq<char>, b: Seq<char>)
    ensures
        text_before(a, b) == lexically(a, b),
    decreases a.len(),
{
    if b.len() == 0 {
    } else if a.len() == 0 {
        assert(differ_at(a, b, 0));
    } else if a[0] != b[0] {
        if (a[0] as int) < (b[0] as int) {
            assert(differ_at(a, b, 0));
        } else if lexically(a, b) {
            let k = choose|k: int| #[trigger] differ_at(a, b, k);
            assert(k > 0);
            assert(a[0] == b[0]);
        }
    } else {
        let x = a.skip(1);
        let y = b.skip(1);
        dictionary_order(x, y);
        if lexically(x, y) {
            let k = choose|k: int| #[trigger] differ_at(x, y, k);
            assert forall|i: int| 0 <= i < k + 1 implies a[i] == b[i] by {
                if i > 0 {
                    assert(x[i - 1] == y[i - 1]);
                }
            }
            assert(differ_at(a, b, k + 1));
        }
        if lexically(a, b) {
            let k = choose|k: int| #[trigger] differ_at(a, b, k);
            assert(k > 0);
            assert forall|i: int| 0 <= i < k - 1 implies x[i] == y[i] by {
                assert(a[i + 1] == b[i + 1]);
            }
            assert(differ_at(x, y, k - 1));
        }
    }
}

/// How two values compare, by what they are.
pub proof fn order_of_values(a: Json, b: Json)
    ensures
        of_a_kind(a, b) ==> crate::scalar::compared(a, b) == Ok::<crate::scalar::Order, Failure>(
            if a == b {
                crate::scalar::Order::Equal
            } else if below(a, b) {
                crate::scalar::Order::Less
            } else {
                crate::scalar::Order::Greater
            },
        ),
        !of_a_kind(a, b) ==> crate::scalar::compared(a, b) is Err,
        of_a_kind(a, b) ==> (below(a, b) ==> a != b && !below(b, a)) && (a != b ==> below(a, b) || below(b, a)),
{
    match (a, b) {
        (Json::String(x), Json::String(y)) => {
            dictionary_order(x, y);
            dictionary_order(y, x);
            text_order_total(x, y);
            crate::text::text_order_irreflexive(x);
            if text_before(x, y) && text_before(y, x) {
                crate::text::text_order_transitive(x, y, x);
            }
        },
        _ => {},
    }
}

// ---------------------------------------------------------------------------------------------
// Operators
// ---------------------------------------------------------------------------------------------

/// The operator of an expression of two operands, and their values.
pub open spec fn operands(expr: Json, op: Seq<char>, a: Json, b: Json, row: CellsModel, caller: AuthModel) -> bool {
    let node = payload(expr);
    &&& !(expr is Null) && tag(expr) == "BinaryOp"@
    &&& tag(child(node, "op"@)) == op
    &&& evaluated(child(node, "left"@), row, caller) == Ok::<Json, Failure>(a)
    &&& evaluated(child(node, "right"@), row, caller) == Ok::<Json, Failure>(b)
}

/// That an expression has a value.
pub open spec fn valued(expr: Json, value: Json, row: CellsModel, caller: AuthModel) -> bool {
    evaluated(expr, row, caller) == Ok::<Json, Failure>(value)
}

/// What a comparison says of two values of a kind.
pub open spec fn related(op: Seq<char>, a: Json, b: Json) -> bool {
    ||| op == "Eq"@ && a == b
    ||| op == "NotEq"@ && a != b
    ||| op == "Lt"@ && below(a, b)
    ||| op == "LtEq"@ && (below(a, b) || a == b)
    ||| op == "Gt"@ && below(b, a)
    ||| op == "GtEq"@ && (below(b, a) || a == b)
}

/// Whether an operator compares.
pub open spec fn relation(op: Seq<char>) -> bool {
    op == "Eq"@ || op == "NotEq"@ || op == "Lt"@ || op == "LtEq"@ || op == "Gt"@ || op == "GtEq"@
}

/// That the names of operators are names of their own.
pub proof fn operator_names_differ()
    ensures
        "Eq"@ != "NotEq"@ && "Eq"@ != "Lt"@ && "Eq"@ != "LtEq"@ && "Eq"@ != "Gt"@ && "Eq"@ != "GtEq"@,
        "NotEq"@ != "Lt"@ && "NotEq"@ != "LtEq"@ && "NotEq"@ != "Gt"@ && "NotEq"@ != "GtEq"@,
        "Lt"@ != "LtEq"@ && "Lt"@ != "Gt"@ && "Lt"@ != "GtEq"@,
        "LtEq"@ != "Gt"@ && "LtEq"@ != "GtEq"@ && "Gt"@ != "GtEq"@,
        "And"@ != "Or"@,
        "Plus"@ != "Minus"@ && "Plus"@ != "Multiply"@ && "Plus"@ != "Divide"@ && "Plus"@ != "Modulo"@,
        "Minus"@ != "Multiply"@ && "Minus"@ != "Divide"@ && "Minus"@ != "Modulo"@,
        "Multiply"@ != "Divide"@ && "Multiply"@ != "Modulo"@ && "Divide"@ != "Modulo"@,
        "Not"@ != "Plus"@ && "Not"@ != "Minus"@,
        forall|op: Seq<char>| #[trigger] relation(op) ==> op != "And"@ && op != "Or"@ && op != "Plus"@ && op
            != "Minus"@ && op != "Multiply"@ && op != "Divide"@ && op != "Modulo"@ && op != "StringConcat"@,
        !relation("Plus"@) && !relation("Minus"@) && !relation("Multiply"@) && !relation("Divide"@) && !relation(
            "Modulo"@,
        ) && !relation("StringConcat"@),
        "StringConcat"@ != "And"@ && "StringConcat"@ != "Or"@ && "StringConcat"@ != "Plus"@ && "StringConcat"@
            != "Minus"@ && "StringConcat"@ != "Multiply"@ && "StringConcat"@ != "Divide"@ && "StringConcat"@
            != "Modulo"@,
        "Plus"@ != "And"@ && "Plus"@ != "Or"@ && "Minus"@ != "And"@ && "Minus"@ != "Or"@ && "Multiply"@ != "And"@
            && "Multiply"@ != "Or"@ && "Divide"@ != "And"@ && "Divide"@ != "Or"@ && "Modulo"@ != "And"@ && "Modulo"@
            != "Or"@,
{
    reveal_strlit("Eq");
    reveal_strlit("NotEq");
    reveal_strlit("Lt");
    reveal_strlit("LtEq");
    reveal_strlit("Gt");
    reveal_strlit("GtEq");
    reveal_strlit("And");
    reveal_strlit("Or");
    reveal_strlit("Plus");
    reveal_strlit("Minus");
    reveal_strlit("Multiply");
    reveal_strlit("Divide");
    reveal_strlit("Modulo");
    reveal_strlit("Not");
    reveal_strlit("StringConcat");
    assert("Eq"@[0] == 'E' && "NotEq"@[0] == 'N' && "Lt"@[0] == 'L' && "LtEq"@[0] == 'L' && "Gt"@[0] == 'G'
        && "GtEq"@[0] == 'G' && "And"@[0] == 'A' && "Or"@[0] == 'O');
    assert("Plus"@[0] == 'P' && "Minus"@[1] == 'i' && "Multiply"@[1] == 'u' && "Divide"@[0] == 'D' && "Modulo"@[1]
        == 'o' && "Minus"@[0] == 'M' && "Multiply"@[0] == 'M' && "Modulo"@[0] == 'M' && "Not"@[0] == 'N'
        && "StringConcat"@[0] == 'S');
    assert("Plus"@.len() == 4 && "Minus"@.len() == 5 && "Multiply"@.len() == 8 && "Divide"@.len() == 6
        && "Modulo"@.len() == 6 && "StringConcat"@.len() == 12);
    assert("Eq"@.len() == 2 && "Lt"@.len() == 2 && "Gt"@.len() == 2 && "LtEq"@.len() == 4 && "GtEq"@.len() == 4
        && "NotEq"@.len() == 5 && "Not"@.len() == 3);
}

proof fn forms_differ()
    ensures
        "BinaryOp"@ != "Value"@ && "BinaryOp"@ != "Identifier"@ && "BinaryOp"@ != "CompoundIdentifier"@ && "BinaryOp"@
            != "Nested"@ && "BinaryOp"@ != "IsNull"@ && "BinaryOp"@ != "IsNotNull"@ && "BinaryOp"@ != "IsTrue"@
            && "BinaryOp"@ != "IsFalse"@ && "BinaryOp"@ != "UnaryOp"@,
        "UnaryOp"@ != "Value"@ && "UnaryOp"@ != "Identifier"@ && "UnaryOp"@ != "CompoundIdentifier"@ && "UnaryOp"@
            != "Nested"@ && "UnaryOp"@ != "IsNull"@ && "UnaryOp"@ != "IsNotNull"@ && "UnaryOp"@ != "IsTrue"@
            && "UnaryOp"@ != "IsFalse"@,
        "InList"@ != "Value"@ && "InList"@ != "Identifier"@ && "InList"@ != "CompoundIdentifier"@ && "InList"@
            != "Nested"@ && "InList"@ != "IsNull"@ && "InList"@ != "IsNotNull"@ && "InList"@ != "IsTrue"@ && "InList"@
            != "IsFalse"@ && "InList"@ != "UnaryOp"@ && "InList"@ != "BinaryOp"@,
        "Between"@ != "Value"@ && "Between"@ != "Identifier"@ && "Between"@ != "CompoundIdentifier"@ && "Between"@
            != "Nested"@ && "Between"@ != "IsNull"@ && "Between"@ != "IsNotNull"@ && "Between"@ != "IsTrue"@
            && "Between"@ != "IsFalse"@ && "Between"@ != "UnaryOp"@ && "Between"@ != "BinaryOp"@ && "Between"@
            != "InList"@,
{
    reveal_strlit("Value");
    reveal_strlit("Identifier");
    reveal_strlit("CompoundIdentifier");
    reveal_strlit("Nested");
    reveal_strlit("IsNull");
    reveal_strlit("IsNotNull");
    reveal_strlit("IsTrue");
    reveal_strlit("IsFalse");
    reveal_strlit("UnaryOp");
    reveal_strlit("BinaryOp");
    reveal_strlit("InList");
    reveal_strlit("Between");
    assert("BinaryOp"@[1] == 'i' && "BinaryOp"@[0] == 'B' && "Between"@[0] == 'B' && "Between"@[1] == 'e');
    assert("Value"@[0] == 'V' && "Identifier"@[0] == 'I' && "Identifier"@[1] == 'd' && "CompoundIdentifier"@[0] == 'C'
        && "Nested"@[0] == 'N' && "IsNull"@[1] == 's' && "IsNotNull"@[1] == 's' && "IsTrue"@[1] == 's' && "IsFalse"@[1]
        == 's' && "UnaryOp"@[0] == 'U' && "InList"@[1] == 'n' && "InList"@[0] == 'I');
    assert("IsNull"@[0] == 'I' && "IsNotNull"@[0] == 'I' && "IsTrue"@[0] == 'I' && "IsFalse"@[0] == 'I');
}

/// A comparison of two values of a kind says whether they stand in the relation that its operator names.
/// With a null it is unknown, and values of different kinds do not compare.
pub proof fn comparisons_follow_the_order(
    expr: Json,
    op: Seq<char>,
    a: Json,
    b: Json,
    row: CellsModel,
    caller: AuthModel,
)
    requires
        relation(op),
        operands(expr, op, a, b, row, caller),
    ensures
        of_a_kind(a, b) ==> valued(expr, Json::Bool(related(op, a, b)), row, caller),
        a is Null || b is Null ==> valued(expr, Json::Null, row, caller),
        !(a is Null) && !(b is Null) && !of_a_kind(a, b) ==> evaluated(expr, row, caller) is Err,
{
    forms_differ();
    operator_names_differ();
    order_of_values(a, b);
    order_of_values(b, a);
}

/// What AND and OR make of two truth values, where null is the unknown: AND is false where one side is and
/// true where both are, OR is true where one side is and false where both are.
pub proof fn connectives_know_the_unknown(
    expr: Json,
    a: Json,
    b: Json,
    row: CellsModel,
    caller: AuthModel,
)
    requires
        a is Null || a is Bool,
        b is Null || b is Bool,
    ensures
        operands(expr, "And"@, a, b, row, caller) ==> valued(
            expr,
            if a == Json::Bool(false) || b == Json::Bool(false) {
                Json::Bool(false)
            } else if a is Null || b is Null {
                Json::Null
            } else {
                Json::Bool(true)
            },
            row,
            caller,
        ),
        operands(expr, "Or"@, a, b, row, caller) ==> valued(
            expr,
            if a == Json::Bool(true) || b == Json::Bool(true) {
                Json::Bool(true)
            } else if a is Null || b is Null {
                Json::Null
            } else {
                Json::Bool(false)
            },
            row,
            caller,
        ),
{
    forms_differ();
    operator_names_differ();
}

/// What NOT, minus and plus make of a value.
pub proof fn unary_operators_mean(expr: Json, value: Json, row: CellsModel, caller: AuthModel)
    requires
        !(expr is Null) && tag(expr) == "UnaryOp"@,
        valued(child(payload(expr), "expr"@), value, row, caller),
    ensures
        value is Null ==> valued(expr, Json::Null, row, caller),
        tag(child(payload(expr), "op"@)) == "Not"@ ==> {
            &&& value matches Json::Bool(b) ==> valued(expr, Json::Bool(!b), row, caller)
            &&& !(value is Null) && !(value is Bool) ==> evaluated(expr, row, caller) is Err
        },
        tag(child(payload(expr), "op"@)) == "Minus"@ ==> {
            &&& value matches Json::Number(Num::Int(n)) ==> if n == i64::MIN {
                evaluated(expr, row, caller) is Err
            } else {
                evaluated(expr, row, caller) matches Ok(Json::Number(Num::Int(m))) && m + n == 0
            }
            &&& !(value is Null) && !(value matches Json::Number(Num::Int(_))) ==> evaluated(expr, row, caller) is Err
        },
        tag(child(payload(expr), "op"@)) == "Plus"@ ==> {
            &&& value matches Json::Number(Num::Int(_)) ==> valued(expr, value, row, caller)
            &&& !(value is Null) && !(value matches Json::Number(Num::Int(_))) ==> evaluated(expr, row, caller) is Err
        },
{
    forms_differ();
    operator_names_differ();
}

/// Addition, subtraction and multiplication of integers are exact or fail; a quotient and a remainder make
/// up the dividend, the remainder less than the divisor and with the sign of the dividend. Texts are put
/// one behind the other. With a null all of them are null.
pub proof fn arithmetic_is_exact(
    expr: Json,
    op: Seq<char>,
    m: i64,
    n: i64,
    row: CellsModel,
    caller: AuthModel,
)
    requires
        operands(expr, op, Json::Number(Num::Int(m)), Json::Number(Num::Int(n)), row, caller),
    ensures
        op == "Plus"@ ==> exactly(evaluated(expr, row, caller), m + n),
        op == "Minus"@ ==> exactly(evaluated(expr, row, caller), m - n),
        op == "Multiply"@ ==> exactly(evaluated(expr, row, caller), m * n),
        (op == "Divide"@ || op == "Modulo"@) && (n == 0 || m == i64::MIN && n == -1) ==> evaluated(
            expr,
            row,
            caller,
        ) is Err,
        op == "Divide"@ && n != 0 && !(m == i64::MIN && n == -1) ==> exists|r: int| #[trigger]
            divides(evaluated(expr, row, caller), m as int, n as int, r),
        op == "Modulo"@ && n != 0 && !(m == i64::MIN && n == -1) ==> exists|q: int| #[trigger]
            leaves(evaluated(expr, row, caller), m as int, n as int, q),
{
    forms_differ();
    operator_names_differ();
    if (op == "Divide"@ || op == "Modulo"@) && n != 0 && !(m == i64::MIN && n == -1) {
        let a = m as int;
        let b = n as int;
        division_makes_up(a, b);
        if op == "Divide"@ {
            assert(divides(evaluated(expr, row, caller), a, b, crate::scalar::remainder(a, b)));
        } else {
            assert(leaves(evaluated(expr, row, caller), a, b, crate::scalar::quotient(a, b)));
        }
    }
}

/// That an outcome is an integer, or a failure where it has no 64 bits.
pub open spec fn exactly(outcome: crate::error::Outcome<Json>, n: int) -> bool {
    if i64::MIN <= n <= i64::MAX {
        outcome matches Ok(Json::Number(Num::Int(k))) && k == n
    } else {
        outcome is Err
    }
}

/// That a remainder fits a dividend and a divisor: it is smaller than the divisor and has the sign of the
/// dividend.
pub open spec fn remains(a: int, b: int, r: int) -> bool {
    &&& -r < b || -r < -b
    &&& r < b || r < -b
    &&& a >= 0 ==> r >= 0
    &&& a <= 0 ==> r <= 0
}

/// That an outcome is the quotient that leaves this remainder.
pub open spec fn divides(outcome: crate::error::Outcome<Json>, a: int, b: int, r: int) -> bool {
    outcome matches Ok(Json::Number(Num::Int(q))) && a == b * q + r && remains(a, b, r)
}

/// That an outcome is the remainder that this quotient leaves.
pub open spec fn leaves(outcome: crate::error::Outcome<Json>, a: int, b: int, q: int) -> bool {
    outcome matches Ok(Json::Number(Num::Int(r))) && a == b * q + r && remains(a, b, r as int)
}

proof fn division_makes_up(a: int, b: int)
    requires
        b != 0,
        i64::MIN <= a <= i64::MAX,
        i64::MIN <= b <= i64::MAX,
        !(a == i64::MIN && b == -1),
    ensures
        a == b * crate::scalar::quotient(a, b) + crate::scalar::remainder(a, b),
        remains(a, b, crate::scalar::remainder(a, b)),
        i64::MIN <= crate::scalar::quotient(a, b) <= i64::MAX,
        i64::MIN <= crate::scalar::remainder(a, b) <= i64::MAX,
{
    let x = crate::scalar::magnitude(a);
    let y = crate::scalar::magnitude(b);
    let q = x / y;
    let r = x % y;
    assert(x == y * q + r && 0 <= r < y) by (nonlinear_arith)
        requires
            y > 0,
            x >= 0,
            q == x / y,
            r == x % y,
    ;
    assert(0 <= q <= x) by (nonlinear_arith)
        requires
            x == y * q + r,
            0 <= r < y,
            x >= 0,
            q == x / y,
    ;
    if b > 0 {
        assert(b * (-q) == -(y * q)) by (nonlinear_arith)
            requires
                y == b,
        ;
    } else {
        assert(b * q == -(y * q)) by (nonlinear_arith)
            requires
                y == -b,
        ;
        assert(b * (-q) == y * q) by (nonlinear_arith)
            requires
                y == -b,
        ;
    }
    if x == 9223372036854775808 && q == x {
        assert(y == 1) by (nonlinear_arith)
            requires
                x == y * q + r,
                q == x,
                0 <= r < y,
                x > 0,
        ;
    }
}

/// Operators other than AND and OR give null where an operand is null.
pub proof fn operators_pass_null_on(expr: Json, op: Seq<char>, a: Json, b: Json, row: CellsModel, caller: AuthModel)
    requires
        operands(expr, op, a, b, row, caller),
        op != "And"@ && op != "Or"@,
        a is Null || b is Null,
    ensures
        valued(expr, Json::Null, row, caller),
{
    forms_differ();
}

/// Texts are put one behind the other; other values are not.
pub proof fn texts_are_joined(expr: Json, a: Json, b: Json, row: CellsModel, caller: AuthModel)
    requires
        operands(expr, "StringConcat"@, a, b, row, caller),
        !(a is Null) && !(b is Null),
    ensures
        match (a, b) {
            (Json::String(x), Json::String(y)) => valued(expr, Json::String(x + y), row, caller),
            _ => evaluated(expr, row, caller) is Err,
        },
{
    forms_differ();
    operator_names_differ();
}

/// BETWEEN asks whether a value is neither below the one bound nor above the other, NOT BETWEEN the
/// opposite; with a null it is unknown. It has the value of the two comparisons with AND between them.
pub proof fn between_is_two_comparisons(
    expr: Json,
    value: Json,
    low: Json,
    high: Json,
    row: CellsModel,
    caller: AuthModel,
)
    requires
        !(expr is Null) && tag(expr) == "Between"@,
        valued(child(payload(expr), "expr"@), value, row, caller),
        valued(child(payload(expr), "low"@), low, row, caller),
        valued(child(payload(expr), "high"@), high, row, caller),
    ensures
        value is Null || low is Null || high is Null ==> valued(expr, Json::Null, row, caller),
        of_a_kind(value, low) && of_a_kind(value, high) ==> valued(
            expr,
            Json::Bool((!below(value, low) && !below(high, value)) != flag(child(payload(expr), "negated"@))),
            row,
            caller,
        ),
        of_a_kind(value, low) && of_a_kind(value, high) ==> ((!below(value, low) && !below(high, value)) <==> related(
            "GtEq"@,
            value,
            low,
        ) && related("LtEq"@, value, high)),
        !(value is Null) && !(low is Null) && !(high is Null) && !of_a_kind(value, low) ==> evaluated(
            expr,
            row,
            caller,
        ) is Err,
{
    forms_differ();
    operator_names_differ();
    order_of_values(value, low);
    order_of_values(low, value);
    order_of_values(value, high);
    order_of_values(high, value);
}

/// Whether a value is among those from position `from` on.
pub open spec fn among(value: Json, others: Seq<Json>, from: int) -> bool {
    exists|i: int| from <= i < others.len() && #[trigger] others[i] == value
}

/// Whether one of the values from position `from` on is null.
pub open spec fn null_among(others: Seq<Json>, from: int) -> bool {
    exists|i: int| from <= i < others.len() && #[trigger] others[i] is Null
}

proof fn listed_means(
    list: Json,
    from: int,
    value: Json,
    others: Seq<Json>,
    unknown: bool,
    negated: bool,
    row: CellsModel,
    caller: AuthModel,
)
    requires
        0 <= from <= items(list).len(),
        others.len() == items(list).len(),
        forall|i: int| 0 <= i < others.len() ==> valued(#[trigger] items(list)[i], others[i], row, caller),
        forall|i: int|
            0 <= i < others.len() ==> value is Null || (#[trigger] others[i]) is Null || of_a_kind(value, others[i]),
        value is Null ==> unknown,
    ensures
        listed_from(list, from, value, unknown, negated, row, caller) == Ok::<Json, Failure>(
            if !(value is Null) && among(value, others, from) {
                Json::Bool(!negated)
            } else if unknown || null_among(others, from) {
                Json::Null
            } else {
                Json::Bool(negated)
            },
        ),
    decreases items(list).len() - from,
{
    parts_are_lighter(list);
    if from < items(list).len() {
        let other = others[from];
        assert(valued(items(list)[from], other, row, caller));
        order_of_values(value, other);
        listed_means(list, from + 1, value, others, unknown, negated, row, caller);
        listed_means(list, from + 1, value, others, true, negated, row, caller);
        if among(value, others, from) && other != value {
            let i = choose|i: int| from <= i < others.len() && #[trigger] others[i] == value;
            assert(i > from);
        }
        if null_among(others, from) && !(other is Null) {
            let i = choose|i: int| from <= i < others.len() && #[trigger] others[i] is Null;
            assert(i > from);
        }
    }
}

/// IN asks whether a value is among those of the list. Where it is not, a null in the list or in its place
/// makes the answer unknown. NOT IN is the opposite.
pub proof fn lists_hold_their_values(expr: Json, value: Json, others: Seq<Json>, row: CellsModel, caller: AuthModel)
    requires
        !(expr is Null) && tag(expr) == "InList"@,
        valued(child(payload(expr), "expr"@), value, row, caller),
        others.len() == items(child(payload(expr), "list"@)).len(),
        forall|i: int|
            0 <= i < others.len() ==> valued(
                #[trigger] items(child(payload(expr), "list"@))[i],
                others[i],
                row,
                caller,
            ),
        forall|i: int|
            0 <= i < others.len() ==> value is Null || (#[trigger] others[i]) is Null || of_a_kind(value, others[i]),
    ensures
        valued(
            expr,
            if !(value is Null) && others.contains(value) {
                Json::Bool(!flag(child(payload(expr), "negated"@)))
            } else if value is Null || others.contains(Json::Null) {
                Json::Null
            } else {
                Json::Bool(flag(child(payload(expr), "negated"@)))
            },
            row,
            caller,
        ),
{
    forms_differ();
    let list = child(payload(expr), "list"@);
    listed_means(list, 0, value, others, value is Null, flag(child(payload(expr), "negated"@)), row, caller);
    assert(among(value, others, 0) == others.contains(value)) by {
        if others.contains(value) {
            let i = choose|i: int| 0 <= i < others.len() && others[i] == value;
            assert(others[i] == value);
        }
    }
    assert(null_among(others, 0) == others.contains(Json::Null)) by {
        if others.contains(Json::Null) {
            let i = choose|i: int| 0 <= i < others.len() && others[i] == Json::Null;
            assert(others[i] is Null);
        }
    }
}

// ---------------------------------------------------------------------------------------------
// Tests and choices
// ---------------------------------------------------------------------------------------------

proof fn other_forms_differ()
    ensures
        "Nested"@ != "Value"@ && "Nested"@ != "Identifier"@ && "Nested"@ != "CompoundIdentifier"@,
        "IsNull"@ != "Value"@ && "IsNull"@ != "Identifier"@ && "IsNull"@ != "CompoundIdentifier"@ && "IsNull"@
            != "Nested"@,
        "IsNotNull"@ != "Value"@ && "IsNotNull"@ != "Identifier"@ && "IsNotNull"@ != "CompoundIdentifier"@
            && "IsNotNull"@ != "Nested"@ && "IsNotNull"@ != "IsNull"@,
        "IsTrue"@ != "Value"@ && "IsTrue"@ != "Identifier"@ && "IsTrue"@ != "CompoundIdentifier"@ && "IsTrue"@
            != "Nested"@ && "IsTrue"@ != "IsNull"@ && "IsTrue"@ != "IsNotNull"@ && "IsTrue"@ != "IsFalse"@,
        "IsFalse"@ != "Value"@ && "IsFalse"@ != "Identifier"@ && "IsFalse"@ != "CompoundIdentifier"@ && "IsFalse"@
            != "Nested"@ && "IsFalse"@ != "IsNull"@ && "IsFalse"@ != "IsNotNull"@,
        "Identifier"@ != "Value"@ && "CompoundIdentifier"@ != "Value"@ && "CompoundIdentifier"@ != "Identifier"@,
        "Null"@ != "Boolean"@ && "Null"@ != "SingleQuotedString"@ && "Null"@ != "Number"@ && "Boolean"@
            != "SingleQuotedString"@ && "Boolean"@ != "Number"@ && "SingleQuotedString"@ != "Number"@,
        forall|form: Seq<char>|
            form == "Function"@ || form == "Cast"@ || form == "Like"@ || form == "ILike"@ || form == "Case"@
                ==> !#[trigger] early_form(form),
        "Cast"@ != "Function"@ && "Like"@ != "Function"@ && "ILike"@ != "Function"@ && "Case"@ != "Function"@,
        "Like"@ != "Cast"@ && "ILike"@ != "Cast"@ && "Case"@ != "Cast"@ && "Like"@ != "ILike"@ && "Case"@ != "Like"@
            && "Case"@ != "ILike"@,
{
    reveal_strlit("Value");
    reveal_strlit("Identifier");
    reveal_strlit("CompoundIdentifier");
    reveal_strlit("Nested");
    reveal_strlit("IsNull");
    reveal_strlit("IsNotNull");
    reveal_strlit("IsTrue");
    reveal_strlit("IsFalse");
    reveal_strlit("UnaryOp");
    reveal_strlit("BinaryOp");
    reveal_strlit("InList");
    reveal_strlit("Between");
    reveal_strlit("Function");
    reveal_strlit("Cast");
    reveal_strlit("Like");
    reveal_strlit("ILike");
    reveal_strlit("Case");
    reveal_strlit("Null");
    reveal_strlit("Boolean");
    reveal_strlit("SingleQuotedString");
    reveal_strlit("Number");
    assert("Value"@[0] == 'V' && "Identifier"@[1] == 'd' && "CompoundIdentifier"@[0] == 'C' && "CompoundIdentifier"@[1]
        == 'o' && "Nested"@[0] == 'N' && "IsNull"@[2] == 'N' && "IsNotNull"@[2] == 'N' && "IsTrue"@[2] == 'T'
        && "IsFalse"@[2] == 'F' && "IsNull"@.len() == 6 && "IsNotNull"@.len() == 9);
    assert("IsNull"@[0] == 'I' && "IsNotNull"@[0] == 'I' && "IsTrue"@[0] == 'I' && "IsFalse"@[0] == 'I'
        && "Identifier"@[0] == 'I' && "IsNull"@[1] == 's' && "IsNotNull"@[1] == 's' && "IsTrue"@[1] == 's'
        && "IsFalse"@[1] == 's');
    assert("Null"@[1] == 'u' && "Number"@[2] == 'm' && "Null"@[2] == 'l' && "Boolean"@[0] == 'B'
        && "SingleQuotedString"@[0] == 'S' && "Null"@[0] == 'N' && "Number"@[0] == 'N');
    assert("Function"@[0] == 'F' && "Cast"@[0] == 'C' && "Cast"@[1] == 'a' && "Cast"@[3] == 't' && "Case"@[3] == 'e'
        && "Case"@[0] == 'C' && "Case"@[1] == 'a' && "Like"@[0] == 'L' && "ILike"@[0] == 'I' && "ILike"@[1] == 'L');
    assert("UnaryOp"@[0] == 'U' && "BinaryOp"@[0] == 'B' && "InList"@[1] == 'n' && "InList"@[0] == 'I' && "Between"@[0]
        == 'B');
    assert("Value"@ != "Function"@ && "Value"@ != "Cast"@ && "Value"@ != "Like"@ && "Value"@ != "ILike"@ && "Value"@
        != "Case"@);
}

/// Whether a form of expression is none of calls, casts, patterns and choices.
pub open spec fn early_form(form: Seq<char>) -> bool {
    form == "Value"@ || form == "Identifier"@ || form == "CompoundIdentifier"@ || form == "Nested"@ || form == "IsNull"@
        || form == "IsNotNull"@ || form == "IsTrue"@ || form == "IsFalse"@ || form == "UnaryOp"@ || form == "BinaryOp"@
        || form == "InList"@ || form == "Between"@
}

/// A column has the value of its cell and nothing else; parentheses change nothing.
pub proof fn columns_have_their_cells(expr: Json, row: CellsModel, caller: AuthModel)
    requires
        !(expr is Null),
    ensures
        tag(expr) == "Identifier"@ ==> match get(row, ident_name(payload(expr))) {
            Some(value) => valued(expr, value, row, caller),
            None => evaluated(expr, row, caller) is Err,
        },
        tag(expr) == "CompoundIdentifier"@ ==> match get(row, joined(ident_names(payload(expr)), "."@)) {
            Some(value) => valued(expr, value, row, caller),
            None => evaluated(expr, row, caller) is Err,
        },
        tag(expr) == "Nested"@ ==> evaluated(expr, row, caller) == evaluated(payload(expr), row, caller),
{
    other_forms_differ();
}

/// A literal has the value that it writes, on every row.
pub proof fn literals_have_their_values(expr: Json, row: CellsModel, caller: AuthModel)
    requires
        !(expr is Null),
        tag(expr) == "Value"@,
    ensures
        tag(payload(expr)) == "Null"@ ==> valued(expr, Json::Null, row, caller),
        tag(payload(expr)) == "Boolean"@ ==> valued(
            expr,
            Json::Bool(payload(payload(expr)) == Json::Bool(true)),
            row,
            caller,
        ),
        tag(payload(expr)) == "SingleQuotedString"@ ==> (payload(payload(expr)) matches Json::String(s) ==> valued(
            expr,
            Json::String(s),
            row,
            caller,
        )),
        tag(payload(expr)) == "Number"@ ==> (evaluated(expr, row, caller) matches Ok(value) ==> (value matches
            Json::Number(Num::Int(n)) && crate::text::signed_number(text(item(payload(payload(expr)), 0))) == Some(
            n as int,
        ))),
{
    other_forms_differ();
}

/// IS NULL and IS NOT NULL ask for null and are never unknown; IS TRUE and IS FALSE ask for one truth value.
pub proof fn tests_are_never_unknown(expr: Json, value: Json, row: CellsModel, caller: AuthModel)
    requires
        !(expr is Null),
        valued(payload(expr), value, row, caller),
    ensures
        tag(expr) == "IsNull"@ ==> valued(expr, Json::Bool(value is Null), row, caller),
        tag(expr) == "IsNotNull"@ ==> valued(expr, Json::Bool(!(value is Null)), row, caller),
        tag(expr) == "IsTrue"@ && (value is Null || value is Bool) ==> valued(
            expr,
            Json::Bool(value == Json::Bool(true)),
            row,
            caller,
        ),
        tag(expr) == "IsFalse"@ && (value is Null || value is Bool) ==> valued(
            expr,
            Json::Bool(value == Json::Bool(false)),
            row,
            caller,
        ),
{
    other_forms_differ();
}

/// A predicate lets a row pass where it is true, and neither where it is false nor where it is unknown; an
/// absent one lets every row pass.
pub proof fn predicates_pass_what_is_true(expr: Json, row: CellsModel, caller: AuthModel)
    ensures
        expr is Null ==> satisfied(expr, row, caller) == Ok::<bool, Failure>(true),
        !(expr is Null) ==> match evaluated(expr, row, caller) {
            Err(error) => satisfied(expr, row, caller) == Err::<bool, Failure>(error),
            Ok(value) => if value is Null || value is Bool {
                satisfied(expr, row, caller) == Ok::<bool, Failure>(value == Json::Bool(true))
            } else {
                satisfied(expr, row, caller) is Err
            },
        },
{
}

/// The caller's identity and claims are what `auth.uid()` and `auth.jwt()` give.
pub proof fn callers_are_themselves(expr: Json, row: CellsModel, caller: AuthModel)
    requires
        !(expr is Null) && tag(expr) == "Function"@,
        !call_modified(payload(expr)),
        items(child(payload(expr), "args"@)).len() == 0,
    ensures
        function_name_of(child(payload(expr), "name"@)) == "auth.uid"@ ==> valued(
            expr,
            match caller.uid {
                Some(uid) => Json::String(uid),
                None => Json::Null,
            },
            row,
            caller,
        ),
        function_name_of(child(payload(expr), "name"@)) == "auth.jwt"@ ==> valued(expr, caller.jwt_claims, row, caller),
{
    other_forms_differ();
    assert(!early_form(tag(expr)));
    reveal_strlit("auth.uid");
    reveal_strlit("auth.jwt");
    assert("auth.uid"@[5] == 'u' && "auth.jwt"@[5] == 'j');
}

/// The value of an argument.
pub open spec fn argument_valued(arg: Json, value: Json, row: CellsModel, caller: AuthModel) -> bool {
    tag(arg) == "Unnamed"@ && tag(payload(arg)) == "Expr"@ && valued(payload(payload(arg)), value, row, caller)
}

/// The first position from `from` on with a value, or the length.
pub open spec fn first_known(values: Seq<Json>, at: int) -> bool {
    &&& 0 <= at <= values.len()
    &&& forall|i: int| 0 <= i < at ==> #[trigger] values[i] is Null
    &&& at < values.len() ==> !(values[at] is Null)
}

proof fn coalesced_means(args: Json, from: int, values: Seq<Json>, at: int, row: CellsModel, caller: AuthModel)
    requires
        0 <= from <= at,
        first_known(values, at),
        values.len() == items(args).len(),
        forall|i: int| 0 <= i < values.len() ==> argument_valued(#[trigger] items(args)[i], values[i], row, caller),
    ensures
        coalesced_from(args, from, row, caller) == Ok::<Json, Failure>(
            if at < values.len() {
                values[at]
            } else {
                Json::Null
            },
        ),
    decreases at - from,
{
    parts_are_lighter(args);
    if from < values.len() {
        assert(argument_valued(items(args)[from], values[from], row, caller));
        parts_are_lighter(items(args)[from]);
        parts_are_lighter(payload(items(args)[from]));
        if from < at {
            assert(values[from] is Null);
            coalesced_means(args, from + 1, values, at, row, caller);
        }
    }
}

/// COALESCE gives the first of its arguments that is not null, and null where all are.
pub proof fn coalesce_gives_the_first_value(
    expr: Json,
    values: Seq<Json>,
    at: int,
    row: CellsModel,
    caller: AuthModel,
)
    requires
        !(expr is Null) && tag(expr) == "Function"@,
        function_name_of(child(payload(expr), "name"@)) == "coalesce"@,
        !call_modified(payload(expr)),
        values.len() == items(child(payload(expr), "args"@)).len(),
        forall|i: int|
            0 <= i < values.len() ==> argument_valued(
                #[trigger] items(child(payload(expr), "args"@))[i],
                values[i],
                row,
                caller,
            ),
        first_known(values, at),
    ensures
        valued(
            expr,
            if at < values.len() {
                values[at]
            } else {
                Json::Null
            },
            row,
            caller,
        ),
{
    other_forms_differ();
    assert(!early_form(tag(expr)));
    reveal_strlit("auth.uid");
    reveal_strlit("auth.jwt");
    reveal_strlit("coalesce");
    assert("auth.uid"@[0] == 'a' && "auth.jwt"@[0] == 'a' && "coalesce"@[0] == 'c');
    coalesced_means(child(payload(expr), "args"@), 0, values, at, row, caller);
}

/// Whether a branch of CASE is taken, given the values of what it tests: a true condition, or a value equal
/// to the operand.
pub open spec fn branch_taken(operand: Option<Json>, tested: Json) -> bool {
    match operand {
        None => tested == Json::Bool(true),
        Some(value) => !(value is Null) && value == tested,
    }
}

/// Whether the value that a branch tests can be tested.
pub open spec fn branch_tests(operand: Option<Json>, tested: Json) -> bool {
    match operand {
        None => tested is Null || tested is Bool,
        Some(value) => value is Null || tested is Null || of_a_kind(value, tested),
    }
}

/// That the operand of CASE, where it has one, has a value.
pub open spec fn operand_valued(node: Json, operand: Option<Json>, row: CellsModel, caller: AuthModel) -> bool {
    match operand {
        None => child(node, "operand"@) is Null,
        Some(value) => !(child(node, "operand"@) is Null) && valued(child(node, "operand"@), value, row, caller),
    }
}

/// That the branches of CASE before a position are tested and not taken.
pub open spec fn passed_over(
    node: Json,
    operand: Option<Json>,
    tested: Seq<Json>,
    at: int,
    row: CellsModel,
    caller: AuthModel,
) -> bool {
    let conditions = items(child(node, "conditions"@));
    &&& 0 <= at <= conditions.len()
    &&& at <= items(child(node, "results"@)).len()
    &&& at <= tested.len()
    &&& forall|i: int|
        0 <= i < at ==> valued(conditions[i], #[trigger] tested[i], row, caller) && branch_tests(operand, tested[i])
            && !branch_taken(operand, tested[i])
}

proof fn choice_passes(
    node: Json,
    from: int,
    operand: Option<Json>,
    tested: Seq<Json>,
    at: int,
    row: CellsModel,
    caller: AuthModel,
)
    requires
        !(node is Null),
        0 <= from <= at,
        operand_valued(node, operand, row, caller),
        passed_over(node, operand, tested, at, row, caller),
    ensures
        chosen_from(node, from, row, caller) == chosen_from(node, at, row, caller),
    decreases at - from,
{
    if from < at {
        assert(branch_tests(operand, tested[from]));
        if operand is Some {
            order_of_values(operand->0, tested[from]);
        }
        choice_passes(node, from + 1, operand, tested, at, row, caller);
    }
}

/// CASE gives the result of the first branch whose condition is true, or whose value equals the operand;
/// where there is none, the value of ELSE, or null.
pub proof fn cases_take_the_first_branch(
    expr: Json,
    operand: Option<Json>,
    tested: Seq<Json>,
    at: int,
    row: CellsModel,
    caller: AuthModel,
)
    requires
        !(expr is Null) && tag(expr) == "Case"@,
        !(payload(expr) is Null),
        operand_valued(payload(expr), operand, row, caller),
        passed_over(payload(expr), operand, tested, at, row, caller),
        items(child(payload(expr), "conditions"@)).len() == items(child(payload(expr), "results"@)).len(),
        at < items(child(payload(expr), "conditions"@)).len() ==> at < tested.len() && valued(
            items(child(payload(expr), "conditions"@))[at],
            tested[at],
            row,
            caller,
        ) && branch_tests(operand, tested[at]) && branch_taken(operand, tested[at]),
    ensures
        at < items(child(payload(expr), "conditions"@)).len() ==> evaluated(expr, row, caller) == evaluated(
            items(child(payload(expr), "results"@))[at],
            row,
            caller,
        ),
        at == items(child(payload(expr), "conditions"@)).len() ==> evaluated(expr, row, caller) == if child(
            payload(expr),
            "else_result"@,
        ) is Null {
            Ok::<Json, Failure>(Json::Null)
        } else {
            evaluated(child(payload(expr), "else_result"@), row, caller)
        },
{
    other_forms_differ();
    assert(!early_form(tag(expr)));
    let node = payload(expr);
    choice_passes(node, 0, operand, tested, at, row, caller);
    if at < items(child(node, "conditions"@)).len() && operand is Some {
        order_of_values(operand->0, tested[at]);
    }
}

// ---------------------------------------------------------------------------------------------
// Casts
// ---------------------------------------------------------------------------------------------

proof fn casting_names_differ()
    ensures
        "text"@ != "int"@ && "text"@ != "integer"@ && "text"@ != "bigint"@ && "text"@ != "smallint"@,
{
    reveal_strlit("text");
    reveal_strlit("int");
    reveal_strlit("integer");
    reveal_strlit("bigint");
    reveal_strlit("smallint");
    assert("text"@[0] == 't' && "int"@[0] == 'i' && "integer"@[0] == 'i' && "bigint"@[0] == 'b' && "smallint"@[0]
        == 's');
}

/// A cast gives null for null. Cast to text, a text is itself and any other value its JSON text. Cast to an
/// integer type, an integer is itself and a text the integer that it writes, or the cast fails.
pub proof fn casts_keep_what_they_can(expr: Json, value: Json, row: CellsModel, caller: AuthModel)
    requires
        !(expr is Null) && tag(expr) == "Cast"@,
        valued(child(payload(expr), "expr"@), value, row, caller),
    ensures
        value is Null ==> valued(expr, Json::Null, row, caller),
        evaluated(expr, row, caller) matches Ok(result) ==> {
            let target = data_type_of(child(payload(expr), "data_type"@));
            &&& !(value is Null) && target == "text"@ ==> result == match value {
                Json::String(s) => Json::String(s),
                _ => Json::String(json_text_of(value)),
            }
            &&& !(value is Null) && (target == "int"@ || target == "integer"@ || target == "bigint"@ || target
                == "smallint"@) ==> {
                &&& result matches Json::Number(Num::Int(n))
                &&& value matches Json::String(s) ==> crate::text::signed_number(s) == Some(n as int)
                &&& !(value is String) ==> result == value
                &&& target == "int"@ || target == "integer"@ ==> -0x8000_0000 <= n <= 0x7fff_ffff
                &&& target == "smallint"@ ==> -0x8000 <= n <= 0x7fff
            }
        },
{
    other_forms_differ();
    assert(!early_form(tag(expr)));
    casting_names_differ();
    let target = data_type_of(child(payload(expr), "data_type"@));
    whole_names(target);
}

proof fn whole_names(target: Seq<char>)
    ensures
        target == "text"@ || target == "int"@ || target == "integer"@ || target == "bigint"@ || target == "smallint"@
            ==> crate::text::before_char(target, '(') == target,
        "bigint"@ != "smallint"@ && "bigint"@ != "int2"@ && "bigint"@ != "int"@ && "bigint"@ != "integer"@ && "bigint"@
            != "int4"@,
        "int"@ != "smallint"@ && "int"@ != "int2"@ && "integer"@ != "smallint"@ && "integer"@ != "int2"@,
{
    reveal_strlit("text");
    reveal_strlit("int");
    reveal_strlit("integer");
    reveal_strlit("bigint");
    reveal_strlit("smallint");
    reveal_strlit("int2");
    reveal_strlit("int4");
    crate::text::find_from_range(target, '(', 0);
    assert("bigint"@[0] == 'b' && "smallint"@[0] == 's' && "int2"@[0] == 'i' && "int"@[0] == 'i' && "integer"@[0] == 'i'
        && "int4"@[0] == 'i');
    assert("int"@.len() == 3 && "int2"@.len() == 4 && "integer"@.len() == 7);
}

// ---------------------------------------------------------------------------------------------
// Patterns
// ---------------------------------------------------------------------------------------------

proof fn globs_behind(p: Seq<char>, q: Seq<char>, escape: char, from: int)
    requires
        0 <= from,
    ensures
        globs_from(p + q, escape, p.len() + from) == globs_from(q, escape, from),
    decreases q.len() - from,
{
    let all = p + q;
    let at = p.len() + from;
    if from < q.len() {
        assert(all[at] == q[from]);
        if q[from] == escape {
            if from + 1 < q.len() {
                assert(all[at + 1] == q[from + 1]);
                globs_behind(p, q, escape, from + 2);
            }
        } else {
            globs_behind(p, q, escape, from + 1);
        }
    }
}

proof fn globs_join(p: Seq<char>, q: Seq<char>, escape: char, from: int)
    requires
        0 <= from <= p.len(),
        globs_from(p, escape, from) is Some,
        globs_from(q, escape, 0) is Some,
    ensures
        globs_from(p + q, escape, from) == Some(globs_from(p, escape, from)->0 + globs_from(q, escape, 0)->0),
    decreases p.len() - from,
{
    let all = p + q;
    let tail = globs_from(q, escape, 0)->0;
    if from >= p.len() {
        globs_behind(p, q, escape, 0);
        assert(Seq::<Glob>::empty() + tail =~= tail);
    } else {
        assert(all[from] == p[from]);
        if p[from] == escape {
            assert(all[from + 1] == p[from + 1]);
            globs_join(p, q, escape, from + 2);
            let rest = globs_from(p, escape, from + 2)->0;
            let first = seq![crate::scalar::glob_of(p[from + 1], true)];
            assert(first + (rest + tail) =~= (first + rest) + tail);
        } else {
            globs_join(p, q, escape, from + 1);
            let rest = globs_from(p, escape, from + 1)->0;
            let first = seq![crate::scalar::glob_of(p[from], false)];
            assert(first + (rest + tail) =~= (first + rest) + tail);
        }
    }
}

/// Whether a text falls into two parts that fit two lists of elements.
pub open spec fn fits_apart(value: Seq<char>, a: Seq<Glob>, b: Seq<Glob>) -> bool {
    exists|k: int| #[trigger] fits_at(value, a, b, k)
}

/// Whether a text fits two lists of elements before and behind a place.
pub open spec fn fits_at(value: Seq<char>, a: Seq<Glob>, b: Seq<Glob>, k: int) -> bool {
    0 <= k <= value.len() && fits(value.take(k), a) && fits(value.skip(k), b)
}

proof fn fitting_falls_apart(value: Seq<char>, a: Seq<Glob>, b: Seq<Glob>)
    ensures
        fits(value, a + b) == fits_apart(value, a, b),
    decreases b.len(),
{
    if b.len() == 0 {
        assert(a + b =~= a);
        assert(value.take(value.len() as int) =~= value);
        if fits(value, a) {
            assert(value.skip(value.len() as int).len() == 0);
            assert(fits_at(value, a, b, value.len() as int));
        }
        if fits_apart(value, a, b) {
            let k = choose|k: int| #[trigger] fits_at(value, a, b, k);
            assert(value.skip(k).len() == 0);
            assert(k == value.len());
        }
    } else {
        let less = b.drop_last();
        assert((a + b).drop_last() =~= a + less);
        assert((a + b).last() == b.last());
        match b.last() {
            Glob::Run => {
                if fits(value, a + b) {
                    let j = choose|j: int| 0 <= j <= value.len() && fits(#[trigger] value.take(j), a + less);
                    fitting_falls_apart(value.take(j), a, less);
                    let k = choose|k: int| #[trigger] fits_at(value.take(j), a, less, k);
                    assert(value.take(j).take(k) =~= value.take(k));
                    assert(value.take(j).skip(k) =~= value.skip(k).take(j - k));
                    assert(fits(value.skip(k).take(j - k), less));
                    assert(fits_at(value, a, b, k));
                }
                if fits_apart(value, a, b) {
                    let k = choose|k: int| #[trigger] fits_at(value, a, b, k);
                    let rest = value.skip(k);
                    let j = choose|j: int| 0 <= j <= rest.len() && fits(#[trigger] rest.take(j), less);
                    let part = value.take(k + j);
                    assert(part.take(k) =~= value.take(k));
                    assert(part.skip(k) =~= rest.take(j));
                    assert(fits_at(part, a, less, k));
                    fitting_falls_apart(part, a, less);
                    assert(fits(value.take(k + j), a + less));
                }
            },
            _ => {
                if value.len() > 0 {
                    let part = value.drop_last();
                    fitting_falls_apart(part, a, less);
                    if fits(value, a + b) {
                        let k = choose|k: int| #[trigger] fits_at(part, a, less, k);
                        assert(part.take(k) =~= value.take(k));
                        assert(part.skip(k) =~= value.skip(k).drop_last());
                        assert(value.skip(k).last() == value.last());
                        assert(fits_at(value, a, b, k));
                    }
                    if fits_apart(value, a, b) {
                        let k = choose|k: int| #[trigger] fits_at(value, a, b, k);
                        assert(value.skip(k).len() > 0);
                        assert(part.take(k) =~= value.take(k));
                        assert(part.skip(k) =~= value.skip(k).drop_last());
                        assert(value.skip(k).last() == value.last());
                        assert(fits_at(part, a, less, k));
                    }
                } else if fits_apart(value, a, b) {
                    let k = choose|k: int| #[trigger] fits_at(value, a, b, k);
                    assert(value.skip(k).len() == 0);
                }
            },
        }
    }
}

/// Whether a text matches one pattern before a place and another behind it.
pub open spec fn matches_at(value: Seq<char>, p: Seq<char>, q: Seq<char>, escape: char, k: int) -> bool {
    &&& 0 <= k <= value.len()
    &&& like_of(value.take(k), p, escape) == Ok::<bool, Failure>(true)
    &&& like_of(value.skip(k), q, escape) == Ok::<bool, Failure>(true)
}

/// A pattern made of two is matched by the texts that fall into a part that matches the one and a part that
/// matches the other.
pub proof fn patterns_match_in_parts(value: Seq<char>, p: Seq<char>, q: Seq<char>, escape: char)
    requires
        like_of(value, p, escape) is Ok,
        like_of(value, q, escape) is Ok,
    ensures
        like_of(value, p + q, escape) == Ok::<bool, Failure>(exists|k: int| #[trigger] matches_at(value, p, q, escape, k)),
{
    globs_join(p, q, escape, 0);
    let a = globs_from(p, escape, 0)->0;
    let b = globs_from(q, escape, 0)->0;
    fitting_falls_apart(value, a, b);
    if fits_apart(value, a, b) {
        let k = choose|k: int| #[trigger] fits_at(value, a, b, k);
        assert(matches_at(value, p, q, escape, k));
    }
    if exists|k: int| #[trigger] matches_at(value, p, q, escape, k) {
        let k = choose|k: int| #[trigger] matches_at(value, p, q, escape, k);
        assert(fits_at(value, a, b, k));
    }
}

proof fn one_glob(value: Seq<char>, glob: Glob)
    ensures
        fits(value, seq![glob]) == match glob {
            Glob::Run => true,
            Glob::One => value.len() == 1,
            Glob::Only(c) => value.len() == 1 && value[0] == c,
        },
{
    reveal_with_fuel(fits, 2);
    let all = seq![glob];
    let none = all.drop_last();
    assert(none.len() == 0);
    assert(all.last() == glob);
    match glob {
        Glob::Run => {
            assert(value.take(0).len() == 0);
            assert(fits(value.take(0), none));
            assert(fits(value.take(0), all.drop_last()));
        },
        _ => {
            if value.len() > 0 {
                assert(value.drop_last().len() == value.len() - 1);
            }
        },
    }
}

/// The patterns that others are made of: an empty one is matched by the empty text, `%` by every text, `_`
/// by every character, any other character by itself, and behind the escape every character by itself. A
/// pattern that ends with the escape fails.
pub proof fn simple_patterns_match(value: Seq<char>, c: char, escape: char)
    ensures
        like_of(value, Seq::empty(), escape) == Ok::<bool, Failure>(value.len() == 0),
        c == escape ==> like_of(value, seq![c], escape) is Err,
        c != escape && c == '%' ==> like_of(value, seq![c], escape) == Ok::<bool, Failure>(true),
        c != escape && c == '_' ==> like_of(value, seq![c], escape) == Ok::<bool, Failure>(value.len() == 1),
        c != escape && c != '%' && c != '_' ==> like_of(value, seq![c], escape) == Ok::<bool, Failure>(
            value == seq![c],
        ),
        like_of(value, seq![escape, c], escape) == Ok::<bool, Failure>(value == seq![c]),
{
    reveal_with_fuel(globs_from, 2);
    let none = Seq::<Glob>::empty();
    let single = seq![c];
    if c != escape {
        assert(globs_from(single, escape, 1) == Some(none));
        let glob = crate::scalar::glob_of(c, false);
        assert(seq![glob] + none =~= seq![glob]);
        assert(globs_from(single, escape, 0) == Some(seq![glob]));
        one_glob(value, glob);
    }
    let double = seq![escape, c];
    assert(double[0] == escape && double[1] == c);
    assert(globs_from(double, escape, 2) == Some(none));
    let only = crate::scalar::glob_of(c, true);
    assert(seq![only] + none =~= seq![only]);
    one_glob(value, only);
    if value.len() == 1 && value[0] == c {
        assert(value =~= seq![c]);
    }
}

/// LIKE asks whether a text matches a pattern, ILIKE the same of both in lower case, and with NOT the
/// opposite; with a null it is unknown, and what is no text does not match.
pub proof fn likes_match_patterns(expr: Json, value: Json, pattern: Json, row: CellsModel, caller: AuthModel)
    requires
        !(expr is Null) && (tag(expr) == "Like"@ || tag(expr) == "ILike"@),
        valued(child(payload(expr), "expr"@), value, row, caller),
        valued(child(payload(expr), "pattern"@), pattern, row, caller),
    ensures
        value is Null || pattern is Null ==> valued(expr, Json::Null, row, caller),
        !(value is Null) && !(pattern is Null) ==> match (value, pattern) {
            (Json::String(v), Json::String(p)) => {
                let escape = escape_of(child(payload(expr), "escape_char"@));
                let matched = if tag(expr) == "Like"@ {
                    like_of(v, p, escape)
                } else {
                    like_of(lower(v), lower(p), escape)
                };
                match matched {
                    Err(error) => evaluated(expr, row, caller) == Err::<Json, Failure>(error),
                    Ok(found) => valued(
                        expr,
                        Json::Bool(
                            if flag(child(payload(expr), "negated"@)) {
                                !found
                            } else {
                                found
                            },
                        ),
                        row,
                        caller,
                    ),
                }
            },
            _ => evaluated(expr, row, caller) is Err,
        },
        child(payload(expr), "escape_char"@) is Null ==> escape_of(child(payload(expr), "escape_char"@)) == '\\',
        child(payload(expr), "escape_char"@) matches Json::String(s) ==> (s.len() > 0 ==> escape_of(
            child(payload(expr), "escape_char"@),
        ) == s[0]),
{
    other_forms_differ();
    assert(!early_form(tag(expr)));
}

} // verus!
