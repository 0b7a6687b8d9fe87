//! What the filters of a request ask of a row.

use vstd::prelude::*;
use crate::catalog::{cell_of, column_named, AuthModel, CellsModel, TableModel};
use crate::cuts::{cut_at, find_text_from, in_parentheses, replaced};
use crate::error::Failure;
use crate::eval::{evaluated, satisfied};
use crate::json::Json;
use crate::meaning::{below, comparisons_follow_the_order, of_a_kind, operands, operator_names_differ, related, relation};
use crate::ast::json_of;
use crate::outside::upper;
use crate::postgrest::{filter_of, ident_of, plain_filter_of, quoted_text, scalar_type, typed_of};
use crate::quoting::{names_are_read_whole, quotation, texts_are_read_whole};

verus! {

// ---------------------------------------------------------------------------------------------
// Conditions
// ---------------------------------------------------------------------------------------------

/// The sign of a comparison in a statement.
pub open spec fn sign(op: Seq<char>) -> Seq<char> {
    if op == "Eq"@ {
        "="@
    } else if op == "NotEq"@ {
        "<>"@
    } else if op == "Lt"@ {
        "<"@
    } else if op == "LtEq"@ {
        "<="@
    } else if op == "Gt"@ {
        ">"@
    } else {
        ">="@
    }
}

/// Whether a condition starts with the quoted name of a column, and then goes on with `rest`.
pub open spec fn about(text: Seq<char>, column: Seq<char>, rest: Seq<char>) -> bool {
    &&& text.len() > 0 && text[0] == '"'
    &&& quotation(text, '"', 1, Seq::empty()) matches Some((name, end)) && name == column && text.skip(end) == rest
}

/// Whether a condition is a column, the sign of a comparison and a literal.
pub open spec fn written(text: Seq<char>, column: Seq<char>, op: Seq<char>, literal: Seq<char>) -> bool {
    about(text, column, " "@ + sign(op) + " "@ + literal)
}

/// Whether a word asks for a comparison.
pub open spec fn asks(word: Seq<char>) -> bool {
    word == "eq"@ || word == "neq"@ || word == "gt"@ || word == "gte"@ || word == "lt"@ || word == "lte"@
}

/// Whether a value stands in the relation to another that a word asks for.
pub open spec fn stands(word: Seq<char>, a: Json, b: Json) -> bool {
    ||| word == "eq"@ && a == b
    ||| word == "neq"@ && a != b
    ||| word == "gt"@ && below(b, a)
    ||| word == "gte"@ && (below(b, a) || a == b)
    ||| word == "lt"@ && below(a, b)
    ||| word == "lte"@ && (below(a, b) || a == b)
}

/// A filter: a word, a dot and a value.
pub open spec fn dotted(word: Seq<char>, value: Seq<char>) -> Seq<char> {
    word + "."@ + value
}

proof fn dot_is_found(text: Seq<char>, at: int, from: int)
    requires
        0 <= from <= at < text.len(),
        text[at] == '.',
        forall|i: int| 0 <= i < at ==> text[i] != '.',
    ensures
        find_text_from(text, "."@, from) == Some(at),
    decreases at - from,
{
    reveal_strlit(".");
    assert("."@ =~= seq!['.']);
    if from < at {
        assert(text.subrange(from, from + 1)[0] == text[from]);
        dot_is_found(text, at, from + 1);
    } else {
        assert(text.subrange(from, from + 1) =~= "."@);
    }
}

/// A filter is cut after its word.
pub proof fn filters_are_cut_after_the_word(word: Seq<char>, value: Seq<char>)
    requires
        !word.contains('.'),
    ensures
        cut_at(dotted(word, value), "."@) == Some((word, value)),
{
    reveal_strlit(".");
    assert("."@ =~= seq!['.']);
    let text = dotted(word, value);
    assert forall|i: int| 0 <= i < word.len() implies text[i] != '.' by {
        assert(text[i] == word[i]);
    }
    assert(text[word.len() as int] == '.');
    dot_is_found(text, word.len() as int, 0);
    assert(text.take(word.len() as int) =~= word);
    assert(text.skip(word.len() as int + 1) =~= value);
}

proof fn words_hold_no_dot()
    ensures
        forall|word: Seq<char>| #[trigger] asks(word) ==> !word.contains('.') && word != "not"@,
        forall|word: Seq<char>| #[trigger] asks(word) ==> word != "is"@ && word != "in"@ && word != "like"@ && word
            != "ilike"@,
        !"not"@.contains('.') && !"is"@.contains('.') && !"in"@.contains('.') && !"like"@.contains('.')
            && !"ilike"@.contains('.'),
        "is"@ != "not"@ && "in"@ != "not"@ && "like"@ != "not"@ && "ilike"@ != "not"@,
        "is"@ != "in"@ && "is"@ != "like"@ && "is"@ != "ilike"@ && "in"@ != "like"@ && "in"@ != "ilike"@,
        "eq"@ != "neq"@ && "eq"@ != "gt"@ && "eq"@ != "gte"@ && "eq"@ != "lt"@ && "eq"@ != "lte"@,
        "neq"@ != "gt"@ && "neq"@ != "gte"@ && "neq"@ != "lt"@ && "neq"@ != "lte"@,
        "gt"@ != "gte"@ && "gt"@ != "lt"@ && "gt"@ != "lte"@ && "gte"@ != "lt"@ && "gte"@ != "lte"@ && "lt"@ != "lte"@,
{
    reveal_strlit("eq");
    reveal_strlit("neq");
    reveal_strlit("gt");
    reveal_strlit("gte");
    reveal_strlit("lt");
    reveal_strlit("lte");
    reveal_strlit("not");
    reveal_strlit("is");
    reveal_strlit("in");
    reveal_strlit("like");
    reveal_strlit("ilike");
    assert("eq"@[0] == 'e' && "neq"@[0] == 'n' && "gt"@[0] == 'g' && "gte"@[0] == 'g' && "lt"@[0] == 'l' && "lte"@[0]
        == 'l' && "not"@[0] == 'n' && "is"@[0] == 'i' && "in"@[0] == 'i' && "like"@[0] == 'l' && "ilike"@[0] == 'i');
    assert("gt"@.len() == 2 && "gte"@.len() == 3 && "lt"@.len() == 2 && "lte"@.len() == 3 && "like"@.len() == 4);
    assert("neq"@[1] == 'e' && "not"@[1] == 'o' && "is"@[1] == 's' && "in"@[1] == 'n');
}

/// The filters that compare are written as a column, a sign and the literal of their value. They are
/// accepted for a column of the table with a name that can be quoted and a value of its type, and refused
/// otherwise.
pub proof fn filters_are_written_as_comparisons(table: TableModel, column: Seq<char>, word: Seq<char>, value: Seq<char>)
    requires
        asks(word),
    ensures
        filter_of(table, column, dotted(word, value)) is Ok <==> column.len() > 0 && !column.contains('\0') && typed_of(
            value,
            table,
            column,
        ) is Ok,
        filter_of(table, column, dotted(word, value)) matches Ok(text) ==> typed_of(value, table, column) matches Ok(
            literal,
        ) && exists|op: Seq<char>| relation(op) && #[trigger] written(text, column, op, literal),
{
    words_hold_no_dot();
    operator_names_differ();
    filters_are_cut_after_the_word(word, value);
    assert(asks(word));
    assert(filter_of(table, column, dotted(word, value)) == plain_filter_of(table, column, word, value));
    match filter_of(table, column, dotted(word, value)) {
        Err(_) => {},
        Ok(text) => {
            let literal = typed_of(value, table, column)->Ok_0;
            let quoted = ident_of(column)->Ok_0;
            let symbol = crate::postgrest::comparison_of(word)->Some_0;
            let rest = " "@ + symbol + " "@ + literal;
            reveal_strlit(" ");
            reveal_strlit("\"");
            names_are_read_whole(column, rest);
            assert(text =~= quoted + rest);
            assert(text.skip(quoted.len() as int) =~= rest);
            let op = if word == "eq"@ {
                "Eq"@
            } else if word == "neq"@ {
                "NotEq"@
            } else if word == "gt"@ {
                "Gt"@
            } else if word == "gte"@ {
                "GtEq"@
            } else if word == "lt"@ {
                "Lt"@
            } else {
                "LtEq"@
            };
            assert(relation(op) && written(text, column, op, literal));
        },
    }
}

proof fn signs_are_told_apart(one: Seq<char>, other: Seq<char>, a: Seq<char>, b: Seq<char>)
    requires
        relation(one),
        relation(other),
        " "@ + sign(one) + " "@ + a == " "@ + sign(other) + " "@ + b,
    ensures
        one == other,
        a == b,
{
    operator_names_differ();
    reveal_strlit(" ");
    reveal_strlit("=");
    reveal_strlit("<>");
    reveal_strlit("<");
    reveal_strlit("<=");
    reveal_strlit(">");
    reveal_strlit(">=");
    let x = " "@ + sign(one) + " "@ + a;
    let y = " "@ + sign(other) + " "@ + b;
    assert(x[1] == sign(one)[0] && y[1] == sign(other)[0]);
    assert(x[2] == if sign(one).len() > 1 {
        sign(one)[1]
    } else {
        ' '
    });
    assert(y[2] == if sign(other).len() > 1 {
        sign(other)[1]
    } else {
        ' '
    });
    assert(one == other);
    assert(a =~= x.skip(sign(one).len() as int + 2));
    assert(b =~= y.skip(sign(one).len() as int + 2));
}

/// A filter is satisfied by exactly the rows whose cell stands in the relation to the value that its word
/// asks for. The condition made for `column=word.value` reads as a comparison of the column with the
/// literal of the value; whatever the row, that comparison is true where the cell is so related, and not
/// where it is not, where the cell is null or where the value is.
pub proof fn filters_hold_as_they_say(
    table: TableModel,
    column: Seq<char>,
    word: Seq<char>,
    value: Seq<char>,
    text: Seq<char>,
    op: Seq<char>,
    literal: Seq<char>,
    condition: Json,
    operand: Json,
    row: CellsModel,
    caller: AuthModel,
)
    requires
        asks(word),
        filter_of(table, column, dotted(word, value)) == Ok::<Seq<char>, Failure>(text),
        relation(op),
        written(text, column, op, literal),
        operands(condition, op, cell_of(row, column), operand, row, caller),
    ensures
        typed_of(value, table, column) == Ok::<Seq<char>, Failure>(literal),
        of_a_kind(cell_of(row, column), operand) ==> satisfied(condition, row, caller) == Ok::<bool, Failure>(
            stands(word, cell_of(row, column), operand),
        ),
        cell_of(row, column) is Null || operand is Null ==> satisfied(condition, row, caller) == Ok::<bool, Failure>(
            false,
        ),
{
    let a = cell_of(row, column);
    words_hold_no_dot();
    operator_names_differ();
    filters_are_cut_after_the_word(word, value);
    assert(filter_of(table, column, dotted(word, value)) == plain_filter_of(table, column, word, value));
    let typed = typed_of(value, table, column)->Ok_0;
    let quoted = ident_of(column)->Ok_0;
    let symbol = crate::postgrest::comparison_of(word)->Some_0;
    let rest = " "@ + symbol + " "@ + typed;
    reveal_strlit(" ");
    names_are_read_whole(column, rest);
    assert(text =~= quoted + rest);
    assert(text.skip(quoted.len() as int) =~= rest);
    let named = if word == "eq"@ {
        "Eq"@
    } else if word == "neq"@ {
        "NotEq"@
    } else if word == "gt"@ {
        "Gt"@
    } else if word == "gte"@ {
        "GtEq"@
    } else if word == "lt"@ {
        "Lt"@
    } else {
        "LtEq"@
    };
    assert(symbol == sign(named));
    signs_are_told_apart(named, op, typed, literal);
    comparisons_follow_the_order(condition, op, a, operand, row, caller);
    if of_a_kind(a, operand) {
        assert(related(op, a, operand) == stands(word, a, operand));
        assert(evaluated(condition, row, caller) == Ok::<Json, Failure>(Json::Bool(stands(word, a, operand))));
    }
}

/// The value of a filter on a column of texts is the text itself between quotes: reading the literal gives
/// it back.
pub proof fn text_values_stand_for_themselves(table: TableModel, column: Seq<char>, value: Seq<char>)
    requires
        column_named(table.columns, column) matches Some(found) && !scalar_type(found.data_type),
        value.len() == 0 || value[0] != '"' && value.last() != '"',
    ensures
        typed_of(value, table, column) matches Ok(literal) && literal.len() > 0 && literal[0] == '\'' && quotation(
            literal,
            '\'',
            1,
            Seq::empty(),
        ) == Some((value, literal.len() as int)),
{
    texts_are_read_whole(value, Seq::empty());
    reveal_strlit("'");
    assert(quoted_text(value) + Seq::empty() =~= quoted_text(value));
}

/// The value of a filter on another column is a JSON value, written as the literal of that value: NULL,
/// TRUE, FALSE or the number.
pub proof fn plain_values_are_literals(table: TableModel, column: Seq<char>, value: Seq<char>)
    requires
        column_named(table.columns, column) matches Some(found) && scalar_type(found.data_type),
        value != "null"@,
    ensures
        match json_of(value) {
            Ok(Json::Null) => typed_of(value, table, column) == Ok::<Seq<char>, Failure>("NULL"@),
            Ok(Json::Bool(true)) => typed_of(value, table, column) == Ok::<Seq<char>, Failure>("TRUE"@),
            Ok(Json::Bool(false)) => typed_of(value, table, column) == Ok::<Seq<char>, Failure>("FALSE"@),
            Ok(Json::Number(n)) => typed_of(value, table, column) == Ok::<Seq<char>, Failure>(
                crate::ast::json_text_of(Json::Number(n)),
            ),
            Ok(_) => typed_of(value, table, column) is Ok,
            Err(_) => typed_of(value, table, column) is Err,
        },
{
}

// ---------------------------------------------------------------------------------------------
// Other filters
// ---------------------------------------------------------------------------------------------

/// A negated filter is the negation of the condition of the filter.
pub proof fn negated_filters_are_negations(table: TableModel, column: Seq<char>, inner: Seq<char>)
    ensures
        match (filter_of(table, column, inner), filter_of(table, column, dotted("not"@, inner))) {
            (Ok(condition), Ok(negation)) => negation == "NOT ("@ + condition + ")"@,
            (Err(error), Err(other)) => error == other,
            _ => false,
        },
{
    words_hold_no_dot();
    filters_are_cut_after_the_word("not"@, inner);
    reveal_strlit("not");
}

/// The filters `is`, `like`, `ilike` and `in` are written with the column, the word and the value: one of
/// the four truths, a pattern in which a star stands for any text, or a list.
pub proof fn other_filters_are_written_with_their_words(
    table: TableModel,
    column: Seq<char>,
    value: Seq<char>,
)
    requires
        column.len() > 0,
        !column.contains('\0'),
    ensures
        if value == "null"@ || value == "true"@ || value == "false"@ || value == "unknown"@ {
            filter_of(table, column, dotted("is"@, value)) matches Ok(text) && about(text, column, " IS "@ + upper(value))
        } else {
            filter_of(table, column, dotted("is"@, value)) is Err
        },
        filter_of(table, column, dotted("like"@, value)) matches Ok(text) && about(
            text,
            column,
            " "@ + upper("like"@) + " "@ + quoted_text(replaced(value, '*', "%"@)),
        ),
        filter_of(table, column, dotted("ilike"@, value)) matches Ok(text) && about(
            text,
            column,
            " "@ + upper("ilike"@) + " "@ + quoted_text(replaced(value, '*', "%"@)),
        ),
        in_parentheses(value) is None ==> filter_of(table, column, dotted("in"@, value)) is Err,
        in_parentheses(value) == Some(Seq::<char>::empty()) ==> filter_of(table, column, dotted("in"@, value)) == Ok::<
            Seq<char>,
            Failure,
        >("FALSE"@),
{
    words_hold_no_dot();
    filters_are_cut_after_the_word("is"@, value);
    filters_are_cut_after_the_word("like"@, value);
    filters_are_cut_after_the_word("ilike"@, value);
    filters_are_cut_after_the_word("in"@, value);
    assert(!asks("is"@) && !asks("like"@) && !asks("ilike"@) && !asks("in"@));
    assert(crate::postgrest::comparison_of("is"@) is None && crate::postgrest::comparison_of("like"@) is None
        && crate::postgrest::comparison_of("ilike"@) is None && crate::postgrest::comparison_of("in"@) is None);
    let quoted = ident_of(column)->Ok_0;
    let pattern = quoted_text(replaced(value, '*', "%"@));
    reveal_strlit(" ");
    reveal_strlit(" IS ");
    reveal_strlit("\"");
    let first = " IS "@ + upper(value);
    let second = " "@ + upper("like"@) + " "@ + pattern;
    let third = " "@ + upper("ilike"@) + " "@ + pattern;
    names_are_read_whole(column, first);
    names_are_read_whole(column, second);
    names_are_read_whole(column, third);
    assert(quoted + " IS "@ + upper(value) =~= quoted + first);
    assert(quoted + " "@ + upper("like"@) + " "@ + pattern =~= quoted + second);
    assert(quoted + " "@ + upper("ilike"@) + " "@ + pattern =~= quoted + third);
    assert((quoted + first).skip(quoted.len() as int) =~= first);
    assert((quoted + second).skip(quoted.len() as int) =~= second);
    assert((quoted + third).skip(quoted.len() as int) =~= third);
}

} // verus!
