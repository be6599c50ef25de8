//! Reading advances. Every function of the grammar stops within the text,
//! at or after the position where it started, and a successful reading of
//! an expression, a primary or a literal has taken at least one byte. So
//! the conditions under which the grammar goes on after a part always
//! hold, and a text that parses has been read to its end.

use crate::grammar::{
    and_tail, arguments, byte_at, comparison, comparison_rest, conjunction, digits_end, expression,
    has_token, identifier, int_literal, lemma_identifier, lemma_operator, lemma_skip_ws,
    lemma_token_len, list_items, list_literal, literal, name_compared, name_joined, name_led, named,
    negation, operand, operator, or_tail, parse_text, primary, quote_from, right_side, skip_ws,
    string_literal, token_len, whitespace_len, Parsed,
};
use crate::expr::SpecExpr;
use crate::types::SpecValue;
use vstd::prelude::*;

verus! {

/// Whether a reading that started at `pos` has stopped within the text at
/// or after `pos`.
pub open spec fn stops_within<T>(s: Seq<u8>, pos: int, r: Parsed<T>) -> bool {
    pos <= r.pos <= s.len()
}

/// Whether a reading that started at `pos` has stopped within the text at
/// or after `pos`, and after `pos` if it succeeded.
pub open spec fn reads_forward<T>(s: Seq<u8>, pos: int, r: Parsed<T>) -> bool {
    &&& pos <= r.pos <= s.len()
    &&& r.result is Ok ==> r.pos > pos
}

/// Whether the text holds nothing but whitespace from `from` up to `to`.
pub open spec fn only_whitespace(s: Seq<u8>, from: int, to: int) -> bool
    decreases to - from,
{
    if from >= to {
        from == to
    } else {
        whitespace_len(s, from) > 0 && from + whitespace_len(s, from) <= to && only_whitespace(
            s,
            from + whitespace_len(s, from),
            to,
        )
    }
}

/// What is skipped as whitespace is whitespace.
pub proof fn lemma_skipped_is_whitespace(s: Seq<u8>, pos: int)
    requires
        0 <= pos <= s.len(),
    ensures
        only_whitespace(s, pos, skip_ws(s, pos)),
    decreases s.len() - pos,
{
    reveal(skip_ws);
    lemma_skip_ws(s, pos);
    if whitespace_len(s, pos) > 0 {
        lemma_skip_ws(s, pos + whitespace_len(s, pos));
        lemma_skipped_is_whitespace(s, pos + whitespace_len(s, pos));
    }
}

proof fn lemma_quote_from(s: Seq<u8>, i: int)
    requires
        0 <= i <= s.len(),
    ensures
        i <= quote_from(s, i) <= s.len(),
    decreases s.len() - i,
{
    if i < s.len() && s[i] != 0x22 {
        lemma_quote_from(s, i + 1);
    }
}

proof fn lemma_digits_end(s: Seq<u8>, i: int)
    requires
        0 <= i <= s.len(),
    ensures
        i <= digits_end(s, i) <= s.len(),
    decreases s.len() - i,
{
    if i < s.len() && crate::grammar::is_digit(s[i]) {
        lemma_digits_end(s, i + 1);
    }
}

/// Reading a string literal advances.
pub proof fn lemma_string_literal(s: Seq<u8>, pos: int)
    requires
        0 <= pos <= s.len(),
    ensures
        reads_forward(s, pos, string_literal(s, pos)),
{
    lemma_skip_ws(s, pos);
    let p = skip_ws(s, pos);
    if p < s.len() {
        lemma_quote_from(s, p + 1);
    }
}

/// Reading an integer literal advances.
pub proof fn lemma_int_literal(s: Seq<u8>, pos: int)
    requires
        0 <= pos <= s.len(),
    ensures
        reads_forward(s, pos, int_literal(s, pos)),
{
    lemma_skip_ws(s, pos);
    let start = skip_ws(s, pos);
    if byte_at(s, start) == Some(0x2Du8) {
        lemma_digits_end(s, start + 1);
    } else {
        lemma_digits_end(s, start);
    }
}

/// Reading a literal advances.
pub proof fn lemma_literal(s: Seq<u8>, pos: int)
    requires
        0 <= pos <= s.len(),
    ensures
        reads_forward(s, pos, literal(s, pos)),
{
    lemma_skip_ws(s, pos);
    let p = skip_ws(s, pos);
    lemma_string_literal(s, p);
    lemma_int_literal(s, p);
    reveal_strlit("true");
    reveal_strlit("false");
    lemma_token_len("true"@);
    lemma_token_len("false"@);
}

/// Reading the items of a list advances, and never stops for want of an
/// advance.
pub proof fn lemma_list_items(s: Seq<u8>, pos: int, items: Seq<SpecValue>)
    requires
        0 <= pos <= s.len(),
    ensures
        reads_forward(s, pos, list_items(s, pos, items)),
    decreases s.len() - pos,
{
    lemma_skip_ws(s, pos);
    let p = skip_ws(s, pos);
    if byte_at(s, p) != Some(0x7Du8) {
        lemma_literal(s, p);
        let item = literal(s, p);
        if item.result is Ok {
            lemma_list_items(s, item.pos, items.push(item.result->Ok_0));
        }
    }
}

/// Reading a list literal advances.
pub proof fn lemma_list_literal(s: Seq<u8>, pos: int)
    requires
        0 <= pos <= s.len(),
    ensures
        reads_forward(s, pos, list_literal(s, pos)),
{
    if byte_at(s, pos) == Some(0x7Bu8) {
        lemma_list_items(s, pos + 1, Seq::empty());
    }
}

/// Reading an expression advances.
pub proof fn lemma_expression(s: Seq<u8>, pos: int)
    requires
        0 <= pos <= s.len(),
    ensures
        reads_forward(s, pos, expression(s, pos)),
    decreases s.len() - pos, 9int,
{
    lemma_conjunction(s, pos);
    let first = conjunction(s, pos);
    if first.result is Ok {
        lemma_or_tail(s, first.pos, first.result->Ok_0);
    }
}

/// Reading the rest of a chain of `||` stops within the text.
pub proof fn lemma_or_tail(s: Seq<u8>, pos: int, left: SpecExpr)
    requires
        0 <= pos <= s.len(),
    ensures
        stops_within(s, pos, or_tail(s, pos, left)),
    decreases s.len() - pos, 0int,
{
    lemma_skip_ws(s, pos);
    let p = skip_ws(s, pos);
    let n = if has_token(s, p, "||"@) {
        token_len("||"@)
    } else if has_token(s, p, "or"@) {
        token_len("or"@)
    } else {
        0
    };
    if n > 0 {
        lemma_conjunction(s, p + n);
        let right = conjunction(s, p + n);
        if right.result is Ok {
            lemma_or_tail(
                s,
                right.pos,
                SpecExpr::LogicalOp {
                    op: crate::expr::LogicalOp::Or,
                    left: Box::new(left),
                    right: Box::new(right.result->Ok_0),
                },
            );
        }
    }
}

/// Reading a chain of `&&` advances.
pub proof fn lemma_conjunction(s: Seq<u8>, pos: int)
    requires
        0 <= pos <= s.len(),
    ensures
        reads_forward(s, pos, conjunction(s, pos)),
    decreases s.len() - pos, 8int,
{
    lemma_negation(s, pos);
    let first = negation(s, pos);
    if first.result is Ok {
        lemma_and_tail(s, first.pos, first.result->Ok_0);
    }
}

/// Reading the rest of a chain of `&&` stops within the text.
pub proof fn lemma_and_tail(s: Seq<u8>, pos: int, left: SpecExpr)
    requires
        0 <= pos <= s.len(),
    ensures
        stops_within(s, pos, and_tail(s, pos, left)),
    decreases s.len() - pos, 0int,
{
    lemma_skip_ws(s, pos);
    let p = skip_ws(s, pos);
    let n = if has_token(s, p, "&&"@) {
        token_len("&&"@)
    } else if has_token(s, p, "and"@) {
        token_len("and"@)
    } else {
        0
    };
    if n > 0 {
        lemma_negation(s, p + n);
        let right = negation(s, p + n);
        if right.result is Ok {
            lemma_and_tail(
                s,
                right.pos,
                SpecExpr::LogicalOp {
                    op: crate::expr::LogicalOp::And,
                    left: Box::new(left),
                    right: Box::new(right.result->Ok_0),
                },
            );
        }
    }
}

/// Reading a negation advances.
pub proof fn lemma_negation(s: Seq<u8>, pos: int)
    requires
        0 <= pos <= s.len(),
    ensures
        reads_forward(s, pos, negation(s, pos)),
    decreases s.len() - pos, 7int,
{
    lemma_skip_ws(s, pos);
    let p = skip_ws(s, pos);
    if has_token(s, p, "not"@) && token_len("not"@) > 0 {
        lemma_negation(s, p + token_len("not"@));
    } else {
        lemma_comparison(s, p);
    }
}

/// Reading the right-hand side of a comparison stops within the text.
pub proof fn lemma_right_side(s: Seq<u8>, pos: int)
    requires
        0 <= pos <= s.len(),
    ensures
        stops_within(s, pos, right_side(s, pos)),
    decreases s.len() - pos, 12int,
{
    lemma_skip_ws(s, pos);
    let r = skip_ws(s, pos);
    if byte_at(s, r) == Some(0x7Bu8) {
        lemma_list_literal(s, r);
        let list = list_literal(s, r);
        if list.result is Ok {
            lemma_skip_ws(s, list.pos);
        }
    } else {
        lemma_operand(s, r);
    }
}

/// Reading what follows a left operand stops within the text.
pub proof fn lemma_comparison_rest(s: Seq<u8>, pos: int, left: SpecExpr)
    requires
        0 <= pos <= s.len(),
    ensures
        stops_within(s, pos, comparison_rest(s, pos, left)),
    decreases s.len() - pos, 13int,
{
    lemma_operator(s, pos);
    let op = operator(s, pos);
    if op.result is Ok {
        lemma_right_side(s, op.pos);
    }
}

/// Reading a comparison advances.
pub proof fn lemma_comparison(s: Seq<u8>, pos: int)
    requires
        0 <= pos <= s.len(),
    ensures
        reads_forward(s, pos, comparison(s, pos)),
    decreases s.len() - pos, 6int,
{
    lemma_primary(s, pos);
    let first = primary(s, pos);
    if first.result is Ok {
        lemma_comparison_rest(s, first.pos, first.result->Ok_0);
    }
}

/// Reading a comparison that starts with a name, from the position after
/// the name, stops within the text.
pub proof fn lemma_name_compared(s: Seq<u8>, pos: int, ident: Seq<u8>)
    requires
        0 <= pos <= s.len(),
    ensures
        stops_within(s, pos, name_compared(s, pos, ident)),
    decreases s.len() - pos, 15int,
{
    lemma_named(s, pos, ident);
    let first = named(s, pos, ident);
    if first.result is Ok {
        lemma_comparison_rest(s, first.pos, first.result->Ok_0);
    }
}

/// Reading a chain of `&&` that starts with a name, from the position
/// after the name, stops within the text.
pub proof fn lemma_name_joined(s: Seq<u8>, pos: int, ident: Seq<u8>)
    requires
        0 <= pos <= s.len(),
    ensures
        stops_within(s, pos, name_joined(s, pos, ident)),
    decreases s.len() - pos, 16int,
{
    lemma_name_compared(s, pos, ident);
    let compared = name_compared(s, pos, ident);
    if compared.result is Ok {
        lemma_and_tail(s, compared.pos, compared.result->Ok_0);
    }
}

/// Reading an expression that starts with a name, from the position after
/// the name, stops within the text, and never stops for want of an
/// advance.
pub proof fn lemma_name_led(s: Seq<u8>, pos: int, ident: Seq<u8>)
    requires
        0 <= pos <= s.len(),
    ensures
        stops_within(s, pos, name_led(s, pos, ident)),
    decreases s.len() - pos, 17int,
{
    lemma_name_joined(s, pos, ident);
    let joined = name_joined(s, pos, ident);
    if joined.result is Ok {
        lemma_or_tail(s, joined.pos, joined.result->Ok_0);
    }
}

/// Reading a primary advances.
pub proof fn lemma_primary(s: Seq<u8>, pos: int)
    requires
        0 <= pos <= s.len(),
    ensures
        reads_forward(s, pos, primary(s, pos)),
    decreases s.len() - pos, 5int,
{
    lemma_skip_ws(s, pos);
    let p = skip_ws(s, pos);
    if byte_at(s, p) == Some(0x28u8) {
        lemma_expression(s, p + 1);
        let inner = expression(s, p + 1);
        if inner.result is Ok {
            lemma_skip_ws(s, inner.pos);
        }
    } else if byte_at(s, p) == Some(0x7Bu8) {
        lemma_list_literal(s, p);
    } else {
        lemma_identifier(s, p);
        let name = identifier(s, p);
        if name.result is Ok {
            lemma_named(s, name.pos, name.result->Ok_0);
        }
    }
}

/// Reading what follows a name stops within the text.
pub proof fn lemma_named(s: Seq<u8>, pos: int, ident: Seq<u8>)
    requires
        0 <= pos <= s.len(),
    ensures
        stops_within(s, pos, named(s, pos, ident)),
    decreases s.len() - pos, 4int,
{
    lemma_skip_ws(s, pos);
    let q = skip_ws(s, pos);
    if byte_at(s, q) == Some(0x28u8) {
        lemma_skip_ws(s, q + 1);
        let a = skip_ws(s, q + 1);
        if byte_at(s, a) != Some(0x29u8) {
            lemma_arguments(s, a, Seq::empty());
        }
    }
}

/// Reading the arguments of a call stops within the text, and never stops
/// for want of an advance.
pub proof fn lemma_arguments(s: Seq<u8>, pos: int, args: Seq<SpecExpr>)
    requires
        0 <= pos <= s.len(),
    ensures
        stops_within(s, pos, arguments(s, pos, args)),
    decreases s.len() - pos, 11int,
{
    lemma_identifier(s, pos);
    let name = identifier(s, pos);
    let arg = match name.result {
        Ok(ident) => name_led(s, name.pos, ident),
        Err(_) => operand(s, pos),
    };
    if name.result is Err {
        lemma_operand(s, pos);
    } else {
        lemma_name_led(s, name.pos, name.result->Ok_0);
    }
    if arg.result is Ok {
        lemma_skip_ws(s, arg.pos);
        let q = skip_ws(s, arg.pos);
        if byte_at(s, q) == Some(0x2Cu8) {
            lemma_skip_ws(s, q + 1);
            lemma_arguments(s, skip_ws(s, q + 1), args.push(arg.result->Ok_0));
        }
    }
}

/// Reading an operand advances.
pub proof fn lemma_operand(s: Seq<u8>, pos: int)
    requires
        0 <= pos <= s.len(),
    ensures
        reads_forward(s, pos, operand(s, pos)),
    decreases s.len() - pos, 10int,
{
    lemma_skip_ws(s, pos);
    let p = skip_ws(s, pos);
    lemma_literal(s, p);
    lemma_identifier(s, p);
    if literal(s, p).result is Err {
        if identifier(s, p).result is Err {
            lemma_expression(s, p);
        } else {
            lemma_named(s, identifier(s, p).pos, identifier(s, p).result->Ok_0);
        }
    }
}

/// A text that parses is one expression, with whitespace before its
/// constructs and nothing but whitespace after it.
pub proof fn lemma_parse_reads_whole_text(s: Seq<u8>)
    requires
        parse_text(s) is Ok,
    ensures
        expression(s, 0).result == Ok::<SpecExpr, Seq<char>>(parse_text(s)->Ok_0),
        0 < expression(s, 0).pos <= s.len(),
        only_whitespace(s, expression(s, 0).pos, s.len() as int),
{
    lemma_expression(s, 0);
    let end = expression(s, 0).pos;
    lemma_skip_ws(s, end);
    lemma_skipped_is_whitespace(s, end);
}

} // verus!
