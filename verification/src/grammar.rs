//! The filter language, as functions on the UTF-8 bytes of the source text.
//!
//! Each function reads one construct at a position and gives the result
//! with the position at which reading stopped. A failure carries its
//! message, which ends with the byte offset at which it arose.
//!
//! An expression is a chain of `||` / `or` over chains of `&&` / `and` over
//! negations; a negation is any number of `not` before a comparison; a
//! comparison is a primary, alone or followed by a comparison operator and
//! a right-hand side. A primary is an expression in parentheses, a list
//! literal in braces, or a name, which is a call where an argument list in
//! parentheses follows it. A right-hand side is a list literal or an
//! operand; an operand is a literal, else a name or call, else an
//! expression. An argument of a call is an expression led by a name, or
//! else an operand. Whitespace may stand before every construct.
//!
//! Keyword operators are matched as prefixes, without a check of what
//! follows them; where a name can stand, the name is read first, and it is
//! read as far as it goes.
//!
//! The functions that read expressions call one another. Each goes on after
//! a part only where reading has stopped within the text and, where more
//! text must remain, has advanced (`advanced`, `reached`). Reading always
//! does: see the module `progress`.

use crate::error::{error_text, SpecError};
use crate::expr::{ComparisonOp, LogicalOp, SpecExpr};
use crate::text::{decimal, occurs_at, utf8};
use crate::types::SpecValue;
use vstd::prelude::*;

verus! {

/// The outcome of reading one construct: the value or the message of the
/// failure, and the position at which reading stopped.
pub struct Parsed<T> {
    pub result: Result<T, Seq<char>>,
    pub pos: int,
}

/// The byte at a position, if the position lies in the text.
pub open spec fn byte_at(s: Seq<u8>, i: int) -> Option<u8> {
    if 0 <= i < s.len() {
        Some(s[i])
    } else {
        None
    }
}

/// Whether the text continues at `i` with the given token.
pub open spec fn has_token(s: Seq<u8>, i: int, token: Seq<char>) -> bool {
    occurs_at(s, utf8(token), i)
}

/// The number of bytes of a token.
pub open spec fn token_len(token: Seq<char>) -> int {
    utf8(token).len() as int
}

/// A token of at least one character has at least one byte.
pub proof fn lemma_token_len(token: Seq<char>)
    requires
        token.len() > 0,
    ensures
        token_len(token) > 0,
{
    vstd::utf8::encode_utf8_first_scalar(token);
}

/// A message that ends with a byte offset.
pub open spec fn failure(what: Seq<char>, at: int) -> Seq<char> {
    what + decimal(at as nat)
}

/// Whether three bytes encode one of the whitespace characters U+1680,
/// U+2000 to U+200A, U+2028, U+2029, U+202F, U+205F and U+3000.
pub open spec fn is_wide_space(a: u8, b: u8, c: u8) -> bool {
    ||| (a == 0xE1 && b == 0x9A && c == 0x80)
    ||| (a == 0xE2 && b == 0x80 && (0x80 <= c <= 0x8A || c == 0xA8 || c == 0xA9 || c == 0xAF))
    ||| (a == 0xE2 && b == 0x81 && c == 0x9F)
    ||| (a == 0xE3 && b == 0x80 && c == 0x80)
}

/// The number of bytes of the whitespace character that starts at `i`, or
/// zero if none starts there. Whitespace is the Unicode property
/// `White_Space`: U+0009 to U+000D and U+0020 in one byte, U+0085 and U+00A0
/// in two, the others in three.
pub open spec fn whitespace_len(s: Seq<u8>, i: int) -> int {
    if i < 0 || i >= s.len() {
        0
    } else if (0x09 <= s[i] <= 0x0D) || s[i] == 0x20 {
        1
    } else if i + 1 < s.len() && s[i] == 0xC2 && (s[i + 1] == 0x85 || s[i + 1] == 0xA0) {
        2
    } else if i + 2 < s.len() && is_wide_space(s[i], s[i + 1], s[i + 2]) {
        3
    } else {
        0
    }
}

/// The first position at or after `i` at which no whitespace starts.
#[verifier::opaque]
pub open spec fn skip_ws(s: Seq<u8>, i: int) -> int
    decreases s.len() - i,
{
    if whitespace_len(s, i) > 0 {
        skip_ws(s, i + whitespace_len(s, i))
    } else {
        i
    }
}

/// Whether a byte can start an identifier: an ASCII letter or `_`.
pub open spec fn is_ident_start(b: u8) -> bool {
    (0x41 <= b <= 0x5A) || (0x61 <= b <= 0x7A) || b == 0x5F
}

/// Whether a byte can continue an identifier: an ASCII letter or digit,
/// `_` or `.`.
pub open spec fn is_ident_byte(b: u8) -> bool {
    is_ident_start(b) || (0x30 <= b <= 0x39) || b == 0x2E
}

/// The first position at or after `i` whose byte cannot continue an
/// identifier.
pub open spec fn ident_run(s: Seq<u8>, i: int) -> int
    decreases s.len() - i,
{
    if 0 <= i < s.len() && is_ident_byte(s[i]) {
        ident_run(s, i + 1)
    } else {
        i
    }
}

/// The end of the identifier that starts at `i`; `i` itself if none does.
/// The scan is greedy.
pub open spec fn ident_end(s: Seq<u8>, i: int) -> int {
    if 0 <= i < s.len() && is_ident_start(s[i]) {
        ident_run(s, i + 1)
    } else {
        i
    }
}

/// An identifier, after optional whitespace.
pub open spec fn identifier(s: Seq<u8>, pos: int) -> Parsed<Seq<u8>> {
    let p = skip_ws(s, pos);
    let end = ident_end(s, p);
    if end > p {
        Parsed { result: Ok(s.subrange(p, end)), pos: end }
    } else {
        Parsed { result: Err(failure("Expected identifier at position "@, p)), pos: p }
    }
}

/// The comparison operator that the text continues with at `i`, and the
/// number of its bytes. The tokens are tried in a fixed order, so that `<=`
/// wins over `<`.
#[verifier::opaque]
pub open spec fn operator_at(s: Seq<u8>, i: int) -> Option<(ComparisonOp, int)> {
    if has_token(s, i, "=="@) {
        Some((ComparisonOp::Eq, token_len("=="@)))
    } else if has_token(s, i, "eq"@) {
        Some((ComparisonOp::Eq, token_len("eq"@)))
    } else if has_token(s, i, "!="@) {
        Some((ComparisonOp::Neq, token_len("!="@)))
    } else if has_token(s, i, "ne"@) {
        Some((ComparisonOp::Neq, token_len("ne"@)))
    } else if has_token(s, i, "<="@) {
        Some((ComparisonOp::Lte, token_len("<="@)))
    } else if has_token(s, i, "le"@) {
        Some((ComparisonOp::Lte, token_len("le"@)))
    } else if has_token(s, i, ">="@) {
        Some((ComparisonOp::Gte, token_len(">="@)))
    } else if has_token(s, i, "ge"@) {
        Some((ComparisonOp::Gte, token_len("ge"@)))
    } else if has_token(s, i, "<"@) {
        Some((ComparisonOp::Lt, token_len("<"@)))
    } else if has_token(s, i, "lt"@) {
        Some((ComparisonOp::Lt, token_len("lt"@)))
    } else if has_token(s, i, ">"@) {
        Some((ComparisonOp::Gt, token_len(">"@)))
    } else if has_token(s, i, "gt"@) {
        Some((ComparisonOp::Gt, token_len("gt"@)))
    } else if has_token(s, i, "in"@) {
        Some((ComparisonOp::In, token_len("in"@)))
    } else if has_token(s, i, "not in"@) {
        Some((ComparisonOp::NotIn, token_len("not in"@)))
    } else if has_token(s, i, "matches"@) {
        Some((ComparisonOp::Matches, token_len("matches"@)))
    } else if has_token(s, i, "wildcard"@) {
        Some((ComparisonOp::Wildcard, token_len("wildcard"@)))
    } else if has_token(s, i, "strict wildcard"@) {
        Some((ComparisonOp::StrictWildcard, token_len("strict wildcard"@)))
    } else if has_token(s, i, "contains"@) {
        Some((ComparisonOp::Contains, token_len("contains"@)))
    } else {
        None
    }
}

/// A comparison operator, after optional whitespace.
pub open spec fn operator(s: Seq<u8>, pos: int) -> Parsed<ComparisonOp> {
    let p = skip_ws(s, pos);
    match operator_at(s, p) {
        Some((op, n)) => Parsed { result: Ok(op), pos: p + n },
        None => Parsed { result: Err(failure("Expected operator at position "@, p)), pos: p },
    }
}

/// The first position at or after `i` that holds a double quote, or the
/// end of the text.
pub open spec fn quote_from(s: Seq<u8>, i: int) -> int
    decreases s.len() - i,
{
    if 0 <= i < s.len() && s[i] != 0x22 {
        quote_from(s, i + 1)
    } else {
        i
    }
}

/// A string literal, after optional whitespace: the bytes between two
/// double quotes, taken as they stand.
pub open spec fn string_literal(s: Seq<u8>, pos: int) -> Parsed<SpecValue> {
    let p = skip_ws(s, pos);
    if byte_at(s, p) != Some(0x22u8) {
        Parsed { result: Err(failure("Expected \" at position "@, p)), pos: p }
    } else {
        let close = quote_from(s, p + 1);
        if close < s.len() {
            Parsed { result: Ok(SpecValue::Bytes(s.subrange(p + 1, close))), pos: close + 1 }
        } else {
            Parsed {
                result: Err(failure("Unterminated string literal at position "@, close)),
                pos: close,
            }
        }
    }
}

/// Whether a byte is an ASCII digit.
pub open spec fn is_digit(b: u8) -> bool {
    0x30 <= b <= 0x39
}

/// The first position at or after `i` that holds no digit.
pub open spec fn digits_end(s: Seq<u8>, i: int) -> int
    decreases s.len() - i,
{
    if 0 <= i < s.len() && is_digit(s[i]) {
        digits_end(s, i + 1)
    } else {
        i
    }
}

/// The number that the digits from `from` up to `to` write in decimal.
pub open spec fn digits_value(s: Seq<u8>, from: int, to: int) -> int
    decreases to - from,
{
    if to <= from {
        0
    } else {
        digits_value(s, from, to - 1) * 10 + (s[to - 1] - 0x30)
    }
}

/// The 64-bit integer written from `start` up to `end`, an optional `-`
/// and digits; `None` without a digit, or where the number does not fit.
pub open spec fn int_value(s: Seq<u8>, start: int, end: int) -> Option<i64> {
    let negative = byte_at(s, start) == Some(0x2Du8);
    let from = if negative {
        start + 1
    } else {
        start
    };
    let magnitude = digits_value(s, from, end);
    let value = if negative {
        -magnitude
    } else {
        magnitude
    };
    if end <= from || value < i64::MIN || value > i64::MAX {
        None
    } else {
        Some(value as i64)
    }
}

/// An integer literal, after optional whitespace: an optional `-` and
/// digits.
pub open spec fn int_literal(s: Seq<u8>, pos: int) -> Parsed<SpecValue> {
    let start = skip_ws(s, pos);
    let from = if byte_at(s, start) == Some(0x2Du8) {
        start + 1
    } else {
        start
    };
    let end = digits_end(s, from);
    if end > start {
        match int_value(s, start, end) {
            Some(n) => Parsed { result: Ok(SpecValue::Int(n)), pos: end },
            None => Parsed {
                result: Err(failure("Invalid integer literal at position "@, start)),
                pos: end,
            },
        }
    } else {
        Parsed { result: Err(failure("Expected integer literal at position "@, start)), pos: start }
    }
}

/// A literal, after optional whitespace: a string, an integer, `true` or
/// `false`. What starts as a string or as an integer is read as one.
pub open spec fn literal(s: Seq<u8>, pos: int) -> Parsed<SpecValue> {
    let p = skip_ws(s, pos);
    match byte_at(s, p) {
        Some(c) => if c == 0x22 {
            string_literal(s, p)
        } else if is_digit(c) || c == 0x2D {
            int_literal(s, p)
        } else if has_token(s, p, "true"@) {
            Parsed { result: Ok(SpecValue::Bool(true)), pos: p + token_len("true"@) }
        } else if has_token(s, p, "false"@) {
            Parsed { result: Ok(SpecValue::Bool(false)), pos: p + token_len("false"@) }
        } else {
            Parsed { result: Err(failure("Expected literal at position "@, p)), pos: p }
        },
        None => Parsed { result: Err(failure("Expected literal at position "@, p)), pos: p },
    }
}

/// The items of a list literal from `pos` on, after those in `items`:
/// literals separated by whitespace, up to the closing brace.
pub open spec fn list_items(s: Seq<u8>, pos: int, items: Seq<SpecValue>) -> Parsed<Seq<SpecValue>>
    decreases s.len() - pos,
{
    let p = skip_ws(s, pos);
    if byte_at(s, p) == Some(0x7Du8) {
        Parsed { result: Ok(items), pos: p + 1 }
    } else {
        let item = literal(s, p);
        match item.result {
            Ok(v) if pos < item.pos <= s.len() => list_items(s, item.pos, items.push(v)),
            Ok(v) => Parsed { result: Ok(items.push(v)), pos: item.pos },
            Err(e) => Parsed { result: Err(e), pos: item.pos },
        }
    }
}

/// A list literal at `pos`: an opening brace, literals separated by
/// whitespace, a closing brace.
pub open spec fn list_literal(s: Seq<u8>, pos: int) -> Parsed<Seq<SpecValue>> {
    if byte_at(s, pos) == Some(0x7Bu8) {
        list_items(s, pos + 1, Seq::empty())
    } else {
        Parsed { result: Err(failure("Expected '{' at position "@, pos)), pos }
    }
}

/// Whitespace is skipped forwards, and not beyond the end of the text.
pub proof fn lemma_skip_ws(s: Seq<u8>, i: int)
    requires
        0 <= i <= s.len(),
    ensures
        i <= skip_ws(s, i) <= s.len(),
        whitespace_len(s, skip_ws(s, i)) == 0,
        skip_ws(s, skip_ws(s, i)) == skip_ws(s, i),
    decreases s.len() - i,
{
    reveal(skip_ws);
    if whitespace_len(s, i) > 0 {
        lemma_skip_ws(s, i + whitespace_len(s, i));
    }
}

/// An identifier run ends within the text.
pub proof fn lemma_ident_run(s: Seq<u8>, i: int)
    requires
        0 <= i <= s.len(),
    ensures
        i <= ident_run(s, i) <= s.len(),
    decreases s.len() - i,
{
    if i < s.len() && is_ident_byte(s[i]) {
        lemma_ident_run(s, i + 1);
    }
}

/// Reading an identifier stops within the text, and a successful reading
/// has advanced.
pub proof fn lemma_identifier(s: Seq<u8>, pos: int)
    requires
        0 <= pos <= s.len(),
    ensures
        pos <= identifier(s, pos).pos <= s.len(),
        identifier(s, pos).result is Ok ==> identifier(s, pos).pos > pos,
{
    lemma_skip_ws(s, pos);
    let p = skip_ws(s, pos);
    if p < s.len() {
        lemma_ident_run(s, p + 1);
    }
}

/// Reading an operator stops within the text.
pub proof fn lemma_operator(s: Seq<u8>, pos: int)
    requires
        0 <= pos <= s.len(),
    ensures
        pos <= operator(s, pos).pos <= s.len(),
{
    reveal(operator_at);
    lemma_skip_ws(s, pos);
}

/// Whether reading from `from` has advanced to `to` within the text.
pub open spec fn advanced(s: Seq<u8>, from: int, to: int) -> bool {
    from < to <= s.len()
}

/// An expression: a chain of `||` / `or`.
pub open spec fn expression(s: Seq<u8>, pos: int) -> Parsed<SpecExpr>
    decreases s.len() - pos, 9int,
    when 0 <= pos <= s.len()
{
    let first = conjunction(s, pos);
    match first.result {
        Ok(left) if advanced(s, pos, first.pos) => or_tail(s, first.pos, left),
        _ => first,
    }
}

/// The rest of a chain of `||` / `or` after the operand `left`, which ended
/// at `pos`. The chain groups to the left.
pub open spec fn or_tail(s: Seq<u8>, pos: int, left: SpecExpr) -> Parsed<SpecExpr>
    decreases s.len() - pos, 0int,
    when 0 <= pos <= s.len()
{
    let p = skip_ws(s, pos);
    let n = if has_token(s, p, "||"@) {
        token_len("||"@)
    } else if has_token(s, p, "or"@) {
        token_len("or"@)
    } else {
        0
    };
    if n <= 0 {
        Parsed { result: Ok(left), pos: p }
    } else {
        proof {
            lemma_skip_ws(s, pos);
        }
        let right = conjunction(s, p + n);
        match right.result {
            Ok(r) if advanced(s, pos, right.pos) => or_tail(
                s,
                right.pos,
                SpecExpr::LogicalOp { op: LogicalOp::Or, left: Box::new(left), right: Box::new(r) },
            ),
            _ => right,
        }
    }
}

/// A chain of `&&` / `and`.
pub open spec fn conjunction(s: Seq<u8>, pos: int) -> Parsed<SpecExpr>
    decreases s.len() - pos, 8int,
    when 0 <= pos <= s.len()
{
    let first = negation(s, pos);
    match first.result {
        Ok(left) if advanced(s, pos, first.pos) => and_tail(s, first.pos, left),
        _ => first,
    }
}

/// The rest of a chain of `&&` / `and` after the operand `left`, which
/// ended at `pos`. The chain groups to the left.
pub open spec fn and_tail(s: Seq<u8>, pos: int, left: SpecExpr) -> Parsed<SpecExpr>
    decreases s.len() - pos, 0int,
    when 0 <= pos <= s.len()
{
    let p = skip_ws(s, pos);
    let n = if has_token(s, p, "&&"@) {
        token_len("&&"@)
    } else if has_token(s, p, "and"@) {
        token_len("and"@)
    } else {
        0
    };
    if n <= 0 {
        Parsed { result: Ok(left), pos: p }
    } else {
        proof {
            lemma_skip_ws(s, pos);
        }
        let right = negation(s, p + n);
        match right.result {
            Ok(r) if advanced(s, pos, right.pos) => and_tail(
                s,
                right.pos,
                SpecExpr::LogicalOp {
                    op: LogicalOp::And,
                    left: Box::new(left),
                    right: Box::new(r),
                },
            ),
            _ => right,
        }
    }
}

/// Any number of `not`, then a comparison.
pub open spec fn negation(s: Seq<u8>, pos: int) -> Parsed<SpecExpr>
    decreases s.len() - pos, 7int,
    when 0 <= pos <= s.len()
{
    proof {
        lemma_skip_ws(s, pos);
    }
    let p = skip_ws(s, pos);
    if has_token(s, p, "not"@) && token_len("not"@) > 0 {
        let inner = negation(s, p + token_len("not"@));
        match inner.result {
            Ok(e) => Parsed { result: Ok(SpecExpr::Not(Box::new(e))), pos: inner.pos },
            Err(e) => inner,
        }
    } else {
        comparison(s, p)
    }
}

/// The right-hand side of a comparison, after optional whitespace: a list
/// literal, which stands as an array value, or else an operand.
pub open spec fn right_side(s: Seq<u8>, pos: int) -> Parsed<SpecExpr>
    decreases s.len() - pos, 12int,
    when 0 <= pos <= s.len()
{
    proof {
        lemma_skip_ws(s, pos);
    }
    let r = skip_ws(s, pos);
    if byte_at(s, r) == Some(0x7Bu8) {
        let list = list_literal(s, r);
        match list.result {
            Ok(items) => Parsed {
                result: Ok(SpecExpr::Value(SpecValue::Array(items))),
                pos: skip_ws(s, list.pos),
            },
            Err(e) => Parsed { result: Err(e), pos: list.pos },
        }
    } else {
        operand(s, r)
    }
}

/// What follows the left operand `left` of a comparison, which ended at
/// `pos`: a comparison operator and a right-hand side, which make a
/// comparison, or nothing, which leaves the operand as it is.
pub open spec fn comparison_rest(s: Seq<u8>, pos: int, left: SpecExpr) -> Parsed<SpecExpr>
    decreases s.len() - pos, 13int,
    when 0 <= pos <= s.len()
{
    proof {
        lemma_operator(s, pos);
    }
    let op = operator(s, pos);
    match op.result {
        Err(_) => Parsed { result: Ok(left), pos: op.pos },
        Ok(operator) => {
            let right = right_side(s, op.pos);
            match right.result {
                Ok(e) => Parsed {
                    result: Ok(
                        SpecExpr::Comparison {
                            left: Box::new(left),
                            op: operator,
                            right: Box::new(e),
                        },
                    ),
                    pos: right.pos,
                },
                Err(e) => right,
            }
        },
    }
}

/// A primary, then optionally a comparison operator and a right-hand
/// side.
pub open spec fn comparison(s: Seq<u8>, pos: int) -> Parsed<SpecExpr>
    decreases s.len() - pos, 6int,
    when 0 <= pos <= s.len()
{
    let first = primary(s, pos);
    match first.result {
        Ok(left) if advanced(s, pos, first.pos) => comparison_rest(s, first.pos, left),
        _ => first,
    }
}

/// A primary, after optional whitespace: an expression in parentheses, a
/// list literal, a function call, or a bare name.
pub open spec fn primary(s: Seq<u8>, pos: int) -> Parsed<SpecExpr>
    decreases s.len() - pos, 5int,
    when 0 <= pos <= s.len()
{
    proof {
        lemma_skip_ws(s, pos);
    }
    let p = skip_ws(s, pos);
    if byte_at(s, p) == Some(0x28u8) {
        let inner = expression(s, p + 1);
        match inner.result {
            Ok(e) => {
                let q = skip_ws(s, inner.pos);
                if byte_at(s, q) == Some(0x29u8) {
                    Parsed { result: Ok(e), pos: q + 1 }
                } else {
                    Parsed { result: Err(failure("Expected ')' at position "@, q)), pos: q }
                }
            },
            Err(e) => inner,
        }
    } else if byte_at(s, p) == Some(0x7Bu8) {
        let list = list_literal(s, p);
        match list.result {
            Ok(items) => Parsed { result: Ok(SpecExpr::List(items)), pos: list.pos },
            Err(e) => Parsed { result: Err(e), pos: list.pos },
        }
    } else {
        let name = identifier(s, p);
        match name.result {
            Err(e) => Parsed { result: Err(e), pos: name.pos },
            Ok(ident) => {
                proof {
                    lemma_identifier(s, p);
                }
                named(s, name.pos, ident)
            },
        }
    }
}

/// What a name stands for, read from the position after it: a call of the
/// function of that name where, after optional whitespace, an argument
/// list in parentheses follows, and the bare name where none does.
pub open spec fn named(s: Seq<u8>, pos: int, ident: Seq<u8>) -> Parsed<SpecExpr>
    decreases s.len() - pos, 4int,
    when 0 <= pos <= s.len()
{
    proof {
        lemma_skip_ws(s, pos);
    }
    let q = skip_ws(s, pos);
    if byte_at(s, q) == Some(0x28u8) {
        proof {
            lemma_skip_ws(s, q + 1);
        }
        let a = skip_ws(s, q + 1);
        let args = if byte_at(s, a) == Some(0x29u8) {
            Parsed { result: Ok(Seq::<SpecExpr>::empty()), pos: a }
        } else {
            arguments(s, a, Seq::empty())
        };
        match args.result {
            Err(e) => Parsed { result: Err(e), pos: args.pos },
            Ok(list) => if byte_at(s, args.pos) == Some(0x29u8) {
                Parsed {
                    result: Ok(SpecExpr::FunctionCall { name: ident, args: list }),
                    pos: args.pos + 1,
                }
            } else {
                Parsed {
                    result: Err(
                        failure("Expected ')' after function call at position "@, args.pos),
                    ),
                    pos: args.pos,
                }
            },
        }
    } else {
        Parsed { result: Ok(SpecExpr::Value(SpecValue::Bytes(ident))), pos: q }
    }
}

/// Whether reading from `from` has stopped at `to` within the text.
pub open spec fn reached(s: Seq<u8>, from: int, to: int) -> bool {
    from <= to <= s.len()
}

/// A comparison that starts with the name `ident`, read from the position
/// after the name: the name or a call of it, then what may follow a left
/// operand.
pub open spec fn name_compared(s: Seq<u8>, pos: int, ident: Seq<u8>) -> Parsed<SpecExpr>
    decreases s.len() - pos, 15int,
    when 0 <= pos <= s.len()
{
    let first = named(s, pos, ident);
    match first.result {
        Ok(e) if reached(s, pos, first.pos) => comparison_rest(s, first.pos, e),
        _ => first,
    }
}

/// A chain of `&&` that starts with the name `ident`, read from the
/// position after the name: a comparison that starts with the name, then
/// the rest of the chain.
pub open spec fn name_joined(s: Seq<u8>, pos: int, ident: Seq<u8>) -> Parsed<SpecExpr>
    decreases s.len() - pos, 16int,
    when 0 <= pos <= s.len()
{
    let compared = name_compared(s, pos, ident);
    match compared.result {
        Ok(e) if reached(s, pos, compared.pos) => and_tail(s, compared.pos, e),
        _ => compared,
    }
}

/// An expression that starts with the name `ident`, read from the position
/// after the name: a chain of `&&` that starts with the name, then the rest
/// of a chain of `||`. The name is read before any keyword, so an
/// expression of this form does not start with `not`.
pub open spec fn name_led(s: Seq<u8>, pos: int, ident: Seq<u8>) -> Parsed<SpecExpr>
    decreases s.len() - pos, 17int,
    when 0 <= pos <= s.len()
{
    let joined = name_joined(s, pos, ident);
    match joined.result {
        Ok(e) if reached(s, pos, joined.pos) => or_tail(s, joined.pos, e),
        _ => joined,
    }
}

/// The arguments of a call from `pos` on, after those in `args`, separated
/// by commas. An argument that starts with a name is an expression led by
/// that name; any other argument is an operand. Reading stops, after
/// whitespace, at the first position that holds no comma.
pub open spec fn arguments(s: Seq<u8>, pos: int, args: Seq<SpecExpr>) -> Parsed<Seq<SpecExpr>>
    decreases s.len() - pos, 11int,
    when 0 <= pos <= s.len()
{
    let name = identifier(s, pos);
    let arg = match name.result {
        Ok(ident) => {
            proof {
                lemma_identifier(s, pos);
            }
            name_led(s, name.pos, ident)
        },
        Err(_) => operand(s, pos),
    };
    match arg.result {
        Ok(e) if advanced(s, pos, arg.pos) => {
            proof {
                lemma_skip_ws(s, arg.pos);
            }
            let q = skip_ws(s, arg.pos);
            if byte_at(s, q) == Some(0x2Cu8) {
                proof {
                    lemma_skip_ws(s, q + 1);
                }
                arguments(s, skip_ws(s, q + 1), args.push(e))
            } else {
                Parsed { result: Ok(args.push(e)), pos: q }
            }
        },
        Ok(e) => Parsed { result: Ok(args.push(e)), pos: arg.pos },
        Err(e) => Parsed { result: Err(e), pos: arg.pos },
    }
}

/// An operand, after optional whitespace: a literal, else a name or a
/// call, else an expression.
pub open spec fn operand(s: Seq<u8>, pos: int) -> Parsed<SpecExpr>
    decreases s.len() - pos, 10int,
    when 0 <= pos <= s.len()
{
    proof {
        lemma_skip_ws(s, pos);
    }
    let p = skip_ws(s, pos);
    let lit = literal(s, p);
    let name = identifier(s, p);
    if lit.result is Ok {
        Parsed { result: Ok(SpecExpr::Value(lit.result->Ok_0)), pos: lit.pos }
    } else if name.result is Ok {
        proof {
            lemma_identifier(s, p);
        }
        named(s, name.pos, name.result->Ok_0)
    } else {
        let inner = expression(s, p);
        match inner.result {
            Ok(e) => inner,
            Err(_) => Parsed {
                result: Err(failure("Expected expression or value at position "@, inner.pos)),
                pos: inner.pos,
            },
        }
    }
}

/// The tree that a filter text stands for, or the message that tells why
/// it is not a filter. The whole text must be read: after the expression
/// only whitespace may follow.
pub open spec fn parse_text(s: Seq<u8>) -> Result<SpecExpr, Seq<char>> {
    let parsed = expression(s, 0);
    match parsed.result {
        Ok(e) => {
            let end = skip_ws(s, parsed.pos);
            if end < s.len() {
                Err(failure("Unexpected input at position "@, end))
            } else {
                Ok(e)
            }
        },
        Err(e) => Err(
            "Failed to parse expression at position "@ + decimal(parsed.pos as nat) + ": "@
                + error_text(SpecError::ParseError(e)),
        ),
    }
}

} // verus!
