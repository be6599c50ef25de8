//! The parser: a recursive descent over the bytes of the filter text that
//! builds what the grammar describes.

use crate::error::{SpecError, WirerustError};
use crate::expr::{exprs_of, lemma_call_args, ComparisonOp, FilterExpr, LogicalOp, SpecExpr};
use crate::grammar::{
    and_tail, arguments, byte_at, comparison, comparison_rest, conjunction, digits_end,
    digits_value, expression, failure, has_token, ident_run, identifier, int_literal, is_digit,
    is_ident_byte, is_ident_start, lemma_skip_ws, lemma_token_len, list_items, list_literal,
    literal, name_compared, name_joined, name_led, named, negation, operand, operator, operator_at,
    or_tail, parse_text, primary, quote_from, right_side, skip_ws, string_literal, token_len,
    whitespace_len, Parsed,
};
use crate::schema::FilterSchema;
use crate::text::{ascii_string, bytes_match_at, is_ascii, numbered, positioned, utf8};
use crate::types::{lemma_array_value, values_of, LiteralValue, SpecValue};
use std::sync::Arc;
use vstd::prelude::*;
use vstd::slice::{slice_subrange, slice_to_vec};
use vstd::string::*;

verus! {

/// A cursor over a filter text.
pub struct FilterParser<'a> {
    input: &'a str,
    pos: usize,
}

/// A parse error with the given message.
pub open spec fn parse_failure(message: Seq<char>) -> SpecError {
    SpecError::ParseError(message)
}

/// Whether the result of reading a value is the outcome that the grammar
/// gives.
pub open spec fn value_agrees(r: Result<LiteralValue, WirerustError>, outcome: Parsed<SpecValue>)
    -> bool {
    match r {
        Ok(v) => outcome.result == Ok::<SpecValue, Seq<char>>(v@),
        Err(e) => outcome.result is Err && e@ == parse_failure(outcome.result->Err_0),
    }
}

/// Whether the result of reading a list of values is the outcome that the
/// grammar gives.
pub open spec fn values_agree(
    r: Result<Vec<LiteralValue>, WirerustError>,
    outcome: Parsed<Seq<SpecValue>>,
) -> bool {
    match r {
        Ok(v) => outcome.result == Ok::<Seq<SpecValue>, Seq<char>>(values_of(v@)),
        Err(e) => outcome.result is Err && e@ == parse_failure(outcome.result->Err_0),
    }
}

/// Whether the result of reading a name is the outcome that the grammar
/// gives.
pub open spec fn bytes_agree(r: Result<Vec<u8>, WirerustError>, outcome: Parsed<Seq<u8>>) -> bool {
    match r {
        Ok(v) => outcome.result == Ok::<Seq<u8>, Seq<char>>(v@),
        Err(e) => outcome.result is Err && e@ == parse_failure(outcome.result->Err_0),
    }
}

/// Whether the result of reading an operator is the outcome that the
/// grammar gives.
pub open spec fn operator_agrees(
    r: Result<ComparisonOp, WirerustError>,
    outcome: Parsed<ComparisonOp>,
) -> bool {
    match r {
        Ok(v) => outcome.result == Ok::<ComparisonOp, Seq<char>>(v),
        Err(e) => outcome.result is Err && e@ == parse_failure(outcome.result->Err_0),
    }
}

/// Whether the result of reading an expression is the outcome that the
/// grammar gives.
pub open spec fn expr_agrees(r: Result<FilterExpr, WirerustError>, outcome: Parsed<SpecExpr>)
    -> bool {
    match r {
        Ok(v) => outcome.result == Ok::<SpecExpr, Seq<char>>(v@),
        Err(e) => outcome.result is Err && e@ == parse_failure(outcome.result->Err_0),
    }
}

/// Whether the result of reading a list of expressions is the outcome that
/// the grammar gives.
pub open spec fn exprs_agree(
    r: Result<Vec<FilterExpr>, WirerustError>,
    outcome: Parsed<Seq<SpecExpr>>,
) -> bool {
    match r {
        Ok(v) => outcome.result == Ok::<Seq<SpecExpr>, Seq<char>>(exprs_of(v@)),
        Err(e) => outcome.result is Err && e@ == parse_failure(outcome.result->Err_0),
    }
}

/// What parsing a text gives: the tree, or a parse error with the message
/// of the failure.
pub open spec fn parse_outcome(s: Seq<u8>) -> Result<SpecExpr, SpecError> {
    match parse_text(s) {
        Ok(e) => Ok(e),
        Err(message) => Err(parse_failure(message)),
    }
}

/// The result of parsing, as a mathematical value.
pub open spec fn expr_result_of(r: Result<FilterExpr, WirerustError>) -> Result<
    SpecExpr,
    SpecError,
> {
    match r {
        Ok(e) => Ok(e@),
        Err(e) => Err(e@),
    }
}

/// A parse error whose message ends with a byte offset.
fn fail_at(what: &str, at: usize) -> (e: WirerustError)
    ensures
        e@ == parse_failure(failure(what@, at as int)),
{
    WirerustError::ParseError(positioned(what, at))
}

impl<'a> FilterParser<'a> {
    /// The UTF-8 bytes of the text.
    pub closed spec fn text(&self) -> Seq<u8> {
        utf8(self.input@)
    }

    /// The position of the cursor, a byte offset.
    pub closed spec fn cursor(&self) -> int {
        self.pos as int
    }

    /// The invariant of the type: the cursor lies within the text.
    pub open spec fn wf(&self) -> bool {
        0 <= self.cursor() <= self.text().len() <= usize::MAX
    }

    /// Whether this is the cursor `before`, moved to the position `to`.
    pub open spec fn moved(&self, before: &Self, to: int) -> bool {
        &&& self.text() == before.text()
        &&& self.cursor() == to
        &&& self.wf()
    }

    /// A cursor at the start of a text. The schema plays no part in
    /// parsing.
    pub fn new(input: &'a str, _schema: &'a FilterSchema) -> (r: Self)
        ensures
            r.text() == utf8(input@),
            r.cursor() == 0,
            r.wf(),
    {
        let size: usize = input.as_bytes().len();
        assert(utf8(input@).len() == size);
        FilterParser { input, pos: 0 }
    }

    /// The bytes of the text.
    fn bytes(&self) -> (r: &'a [u8])
        ensures
            r@ == self.text(),
    {
        let input: &'a str = self.input;
        input.as_bytes()
    }

    /// The byte at the cursor.
    fn peek(&self) -> (r: Option<u8>)
        requires
            self.wf(),
        ensures
            r == byte_at(self.text(), self.cursor()),
    {
        let bytes = self.bytes();
        if self.pos < bytes.len() {
            Some(bytes[self.pos])
        } else {
            None
        }
    }

    /// Whether the byte at the cursor is `byte`.
    fn peek_is(&self, byte: u8) -> (r: bool)
        requires
            self.wf(),
        ensures
            r == (byte_at(self.text(), self.cursor()) == Some(byte)),
    {
        match self.peek() {
            Some(b) => b == byte,
            None => false,
        }
    }

    /// Moves the cursor over the one-byte character at it.
    fn consume_char(&mut self)
        requires
            old(self).wf(),
            old(self).cursor() < old(self).text().len(),
        ensures
            final(self).moved(old(self), old(self).cursor() + 1),
    {
        self.pos = self.pos + 1;
    }

    /// The number of bytes of the whitespace character at the cursor.
    fn whitespace_here(&self) -> (n: usize)
        requires
            self.wf(),
        ensures
            n == whitespace_len(self.text(), self.cursor()),
            self.cursor() + n <= self.text().len(),
    {
        let bytes = self.bytes();
        let i = self.pos;
        if i >= bytes.len() {
            return 0;
        }
        let a = bytes[i];
        if (0x09 <= a && a <= 0x0D) || a == 0x20 {
            return 1;
        }
        if bytes.len() - i >= 2 {
            let b = bytes[i + 1];
            if a == 0xC2 && (b == 0x85 || b == 0xA0) {
                return 2;
            }
            if bytes.len() - i >= 3 {
                let c = bytes[i + 2];
                let wide = (a == 0xE1 && b == 0x9A && c == 0x80)
                    || (a == 0xE2 && b == 0x80
                        && ((0x80 <= c && c <= 0x8A) || c == 0xA8 || c == 0xA9 || c == 0xAF))
                    || (a == 0xE2 && b == 0x81 && c == 0x9F)
                    || (a == 0xE3 && b == 0x80 && c == 0x80);
                if wide {
                    return 3;
                }
            }
        }
        0
    }

    /// Moves the cursor over whitespace.
    fn skip_whitespace(&mut self)
        requires
            old(self).wf(),
        ensures
            final(self).moved(old(self), skip_ws(old(self).text(), old(self).cursor())),
            final(self).cursor() >= old(self).cursor(),
    {
        proof {
            reveal(skip_ws);
        }
        let mut n = self.whitespace_here();
        while n > 0
            invariant
                self.wf(),
                self.text() == old(self).text(),
                self.cursor() >= old(self).cursor(),
                n == whitespace_len(self.text(), self.cursor()),
                self.cursor() + n <= self.text().len(),
                skip_ws(
                    self.text(),
                    self.cursor()) == skip_ws(old(self).text(),
                    old(self).cursor(),
                ),
            decreases self.text().len() - self.cursor(),
        {
            proof {
                reveal(skip_ws);
            }
            self.pos = self.pos + n;
            n = self.whitespace_here();
        }
    }

    /// Moves the cursor over `token` if the text continues with it.
    fn consume(&mut self, token: &str) -> (r: bool)
        requires
            old(self).wf(),
        ensures
            r == has_token(old(self).text(), old(self).cursor(), token@),
            final(self).moved(
                old(self),
                if r {
                    old(self).cursor() + token_len(token@)
                } else {
                    old(self).cursor()
                },
            ),
    {
        let bytes = self.bytes();
        let wanted = token.as_bytes();
        if wanted.len() <= bytes.len() - self.pos && bytes_match_at(bytes, wanted, self.pos) {
            self.pos = self.pos + wanted.len();
            true
        } else {
            false
        }
    }

    /// A copy of the bytes from `from` up to `to`.
    fn slice(&self, from: usize, to: usize) -> (r: Vec<u8>)
        requires
            from <= to <= self.text().len(),
        ensures
            r@ == self.text().subrange(from as int, to as int),
    {
        slice_to_vec(slice_subrange(self.bytes(), from, to))
    }

    /// Reads an identifier.
    fn parse_identifier(&mut self) -> (r: Result<Vec<u8>, WirerustError>)
        requires
            old(self).wf(),
        ensures
            final(self).moved(old(self), identifier(old(self).text(), old(self).cursor()).pos),
            bytes_agree(r, identifier(old(self).text(), old(self).cursor())),
            r is Ok ==> final(self).cursor() > old(self).cursor(),
            final(self).cursor() >= old(self).cursor(),
            r matches Ok(name) ==> is_ascii(name@),
    {
        self.skip_whitespace();
        let bytes = self.bytes();
        let start = self.pos;
        let mut end = start;
        if start < bytes.len() && is_ident_start_byte(bytes[start]) {
            end = start + 1;
            while end < bytes.len() && is_ident_part(bytes[end])
                invariant
                    bytes@ == self.text(),
                    start < end <= bytes@.len(),
                    ident_run(bytes@, end as int) == ident_run(bytes@, start + 1),
                    forall|i: int| start <= i < end ==> bytes@[i] < 0x80,
                decreases bytes@.len() - end,
            {
                end = end + 1;
            }
        }
        if end > start {
            let name = self.slice(start, end);
            self.pos = end;
            Ok(name)
        } else {
            Err(fail_at("Expected identifier at position ", self.pos))
        }
    }

    /// Reads a comparison operator.
    fn parse_operator(&mut self) -> (r: Result<ComparisonOp, WirerustError>)
        requires
            old(self).wf(),
        ensures
            final(self).moved(old(self), operator(old(self).text(), old(self).cursor()).pos),
            operator_agrees(r, operator(old(self).text(), old(self).cursor())),
            final(self).cursor() >= old(self).cursor(),
    {
        self.skip_whitespace();
        proof {
            reveal(operator_at);
        }
        if self.consume("==") {
            Ok(ComparisonOp::Eq)
        } else if self.consume("eq") {
            Ok(ComparisonOp::Eq)
        } else if self.consume("!=") {
            Ok(ComparisonOp::Neq)
        } else if self.consume("ne") {
            Ok(ComparisonOp::Neq)
        } else if self.consume("<=") {
            Ok(ComparisonOp::Lte)
        } else if self.consume("le") {
            Ok(ComparisonOp::Lte)
        } else if self.consume(">=") {
            Ok(ComparisonOp::Gte)
        } else if self.consume("ge") {
            Ok(ComparisonOp::Gte)
        } else if self.consume("<") {
            Ok(ComparisonOp::Lt)
        } else if self.consume("lt") {
            Ok(ComparisonOp::Lt)
        } else if self.consume(">") {
            Ok(ComparisonOp::Gt)
        } else if self.consume("gt") {
            Ok(ComparisonOp::Gt)
        } else if self.consume("in") {
            Ok(ComparisonOp::In)
        } else if self.consume("not in") {
            Ok(ComparisonOp::NotIn)
        } else if self.consume("matches") {
            Ok(ComparisonOp::Matches)
        } else if self.consume("wildcard") {
            Ok(ComparisonOp::Wildcard)
        } else if self.consume("strict wildcard") {
            Ok(ComparisonOp::StrictWildcard)
        } else if self.consume("contains") {
            Ok(ComparisonOp::Contains)
        } else {
            Err(fail_at("Expected operator at position ", self.pos))
        }
    }

    /// Reads a string literal.
    fn parse_string_literal(&mut self) -> (r: Result<LiteralValue, WirerustError>)
        requires
            old(self).wf(),
        ensures
            final(self).moved(old(self), string_literal(old(self).text(), old(self).cursor()).pos),
            value_agrees(r, string_literal(old(self).text(), old(self).cursor())),
            r is Ok ==> final(self).cursor() > old(self).cursor(),
            final(self).cursor() >= old(self).cursor(),
    {
        self.skip_whitespace();
        if !self.peek_is(0x22) {
            return Err(fail_at("Expected \" at position ", self.pos));
        }
        self.consume_char();
        let bytes = self.bytes();
        let start = self.pos;
        let mut end = start;
        while end < bytes.len() && bytes[end] != 0x22
            invariant
                bytes@ == self.text(),
                start <= end <= bytes@.len(),
                quote_from(bytes@, end as int) == quote_from(bytes@, start as int),
            decreases bytes@.len() - end,
        {
            end = end + 1;
        }
        self.pos = end;
        if end >= bytes.len() {
            return Err(fail_at("Unterminated string literal at position ", self.pos));
        }
        let content = self.slice(start, end);
        self.consume_char();
        Ok(LiteralValue::Bytes(Arc::new(content)))
    }

    /// Reads an integer literal.
    fn parse_int_literal(&mut self) -> (r: Result<LiteralValue, WirerustError>)
        requires
            old(self).wf(),
        ensures
            final(self).moved(old(self), int_literal(old(self).text(), old(self).cursor()).pos),
            value_agrees(r, int_literal(old(self).text(), old(self).cursor())),
            r is Ok ==> final(self).cursor() > old(self).cursor(),
            final(self).cursor() >= old(self).cursor(),
    {
        self.skip_whitespace();
        let bytes = self.bytes();
        let start = self.pos;
        let negative = self.peek_is(0x2D);
        if negative {
            self.consume_char();
        }
        let from = self.pos;
        let mut end = from;
        // The magnitude is gathered below zero, where the smallest integer
        // has room; `fits` falls once it has left the 64-bit range.
        let mut below: i128 = 0;
        let mut fits = true;
        while end < bytes.len() && is_digit_byte(bytes[end])
            invariant
                bytes@ == self.text(),
                from <= end <= bytes@.len(),
                digits_end(bytes@, end as int) == digits_end(bytes@, from as int),
                fits ==> below == -digits_value(bytes@, from as int, end as int),
                fits ==> -0x8000_0000_0000_0000 <= below <= 0,
                !fits ==> digits_value(bytes@, from as int, end as int) > 0x8000_0000_0000_0000,
                digits_value(bytes@, from as int, end as int) >= 0,
            decreases bytes@.len() - end,
        {
            let digit: i128 = (bytes[end] - 0x30) as i128;
            if fits {
                let next: i128 = below * 10 - digit;
                if next < -0x8000_0000_0000_0000 {
                    fits = false;
                } else {
                    below = next;
                }
            }
            end = end + 1;
        }
        self.pos = end;
        if end <= start {
            return Err(fail_at("Expected integer literal at position ", self.pos));
        }
        if end <= from || !fits || (!negative && below == -0x8000_0000_0000_0000) {
            return Err(fail_at("Invalid integer literal at position ", start));
        }
        let n: i64 = if negative {
            below as i64
        } else {
            (-below) as i64
        };
        Ok(LiteralValue::Int(n))
    }

    /// Reads a literal.
    fn parse_literal(&mut self) -> (r: Result<LiteralValue, WirerustError>)
        requires
            old(self).wf(),
        ensures
            final(self).moved(old(self), literal(old(self).text(), old(self).cursor()).pos),
            value_agrees(r, literal(old(self).text(), old(self).cursor())),
            r is Ok ==> final(self).cursor() > old(self).cursor(),
            final(self).cursor() >= old(self).cursor(),
    {
        self.skip_whitespace();
        proof {
            lemma_skip_ws(old(self).text(), old(self).cursor());
        }
        match self.peek() {
            Some(c) => {
                if c == 0x22 {
                    self.parse_string_literal()
                } else if is_digit_byte(c) || c == 0x2D {
                    self.parse_int_literal()
                } else if self.consume("true") {
                    proof {
                        reveal_strlit("true");
                        lemma_token_len("true"@);
                    }
                    Ok(LiteralValue::Bool(true))
                } else if self.consume("false") {
                    proof {
                        reveal_strlit("false");
                        lemma_token_len("false"@);
                    }
                    Ok(LiteralValue::Bool(false))
                } else {
                    Err(fail_at("Expected literal at position ", self.pos))
                }
            },
            None => Err(fail_at("Expected literal at position ", self.pos)),
        }
    }

    /// Reads a list literal.
    fn parse_list_literal(&mut self) -> (r: Result<Vec<LiteralValue>, WirerustError>)
        requires
            old(self).wf(),
        ensures
            final(self).moved(old(self), list_literal(old(self).text(), old(self).cursor()).pos),
            values_agree(r, list_literal(old(self).text(), old(self).cursor())),
            r is Ok ==> final(self).cursor() > old(self).cursor(),
            final(self).cursor() >= old(self).cursor(),
    {
        if !self.peek_is(0x7B) {
            return Err(fail_at("Expected '{' at position ", self.pos));
        }
        self.consume_char();
        let ghost s = self.text();
        let ghost whole = list_literal(s, old(self).cursor());
        let mut items: Vec<LiteralValue> = Vec::new();
        assert(values_of(items@) =~= Seq::<SpecValue>::empty());
        loop
            invariant
                self.wf(),
                self.text() == s,
                s == old(self).text(),
                self.cursor() > old(self).cursor(),
                whole == list_literal(s, old(self).cursor()),
                list_items(s, self.cursor(), values_of(items@)) == whole,
            decreases s.len() - self.cursor(),
        {
            let ghost before = self.cursor();
            let ghost seen = values_of(items@);
            self.skip_whitespace();
            proof {
                lemma_skip_ws(s, before);
            }
            if self.peek_is(0x7D) {
                self.consume_char();
                return Ok(items);
            }
            match self.parse_literal() {
                Ok(item) => {
                    proof {
                        lemma_skip_ws(s, skip_ws(s, before));
                    }
                    items.push(item);
                    assert(values_of(items@) =~= seen.push(item@));
                },
                Err(e) => {
                    return Err(e);
                },
            }
        }
    }

    /// Reads an expression.
    fn parse_expr(&mut self) -> (r: Result<FilterExpr, WirerustError>)
        requires
            old(self).wf(),
        ensures
            final(self).moved(old(self), expression(old(self).text(), old(self).cursor()).pos),
            expr_agrees(r, expression(old(self).text(), old(self).cursor())),
            r is Ok ==> final(self).cursor() > old(self).cursor(),
            final(self).cursor() >= old(self).cursor(),
        decreases old(self).text().len() - old(self).cursor(), 9int, 1int,
    {
        self.parse_or()
    }

    /// Reads a chain of `||`.
    fn parse_or(&mut self) -> (r: Result<FilterExpr, WirerustError>)
        requires
            old(self).wf(),
        ensures
            final(self).moved(old(self), expression(old(self).text(), old(self).cursor()).pos),
            expr_agrees(r, expression(old(self).text(), old(self).cursor())),
            r is Ok ==> final(self).cursor() > old(self).cursor(),
            final(self).cursor() >= old(self).cursor(),
        decreases old(self).text().len() - old(self).cursor(), 9int, 0int,
    {
        match self.parse_and() {
            Ok(left) => self.parse_or_tail(left),
            Err(e) => Err(e),
        }
    }

    /// Reads the rest of a chain of `||` after its first operand.
    fn parse_or_tail(&mut self, first: FilterExpr) -> (r: Result<FilterExpr, WirerustError>)
        requires
            old(self).wf(),
        ensures
            final(self).moved(old(self), or_tail(old(self).text(), old(self).cursor(), first@).pos),
            expr_agrees(r, or_tail(old(self).text(), old(self).cursor(), first@)),
            final(self).cursor() >= old(self).cursor(),
        decreases old(self).text().len() - old(self).cursor(), 0int, 0int,
    {
        let ghost s = self.text();
        let ghost start = self.cursor();
        let mut left = first;
        let mut more = true;
        while more
            invariant
                self.wf(),
                self.text() == s,
                s == old(self).text(),
                start == old(self).cursor(),
                self.cursor() >= start,
                more ==> or_tail(s, self.cursor(), left@) == or_tail(s, start, first@),
                !more ==> (Parsed { result: Ok::<SpecExpr, Seq<char>>(left@), pos: self.cursor() })
                    == or_tail(s, start, first@),
            decreases
                    s.len() - self.cursor() + (if more {
                        1int
                    } else {
                        0int
                    }),
        {
            self.skip_whitespace();
            let matched = if self.consume("||") {
                proof {
                    reveal_strlit("||");
                    lemma_token_len("||"@);
                }
                true
            } else if self.consume("or") {
                proof {
                    reveal_strlit("or");
                    lemma_token_len("or"@);
                }
                true
            } else {
                false
            };
            if matched {
                match self.parse_and() {
                    Ok(right) => {
                        left =
                        FilterExpr::LogicalOp {
                            op: LogicalOp::Or,
                            left: Box::new(left),
                            right: Box::new(right),
                        };
                    },
                    Err(e) => {
                        return Err(e);
                    },
                }
            } else {
                more = false;
            }
        }
        Ok(left)
    }

    /// Reads a chain of `&&`.
    fn parse_and(&mut self) -> (r: Result<FilterExpr, WirerustError>)
        requires
            old(self).wf(),
        ensures
            final(self).moved(old(self), conjunction(old(self).text(), old(self).cursor()).pos),
            expr_agrees(r, conjunction(old(self).text(), old(self).cursor())),
            r is Ok ==> final(self).cursor() > old(self).cursor(),
            final(self).cursor() >= old(self).cursor(),
        decreases old(self).text().len() - old(self).cursor(), 8int, 0int,
    {
        match self.parse_not() {
            Ok(left) => self.parse_and_tail(left),
            Err(e) => Err(e),
        }
    }

    /// Reads the rest of a chain of `&&` after its first operand.
    fn parse_and_tail(&mut self, first: FilterExpr) -> (r: Result<FilterExpr, WirerustError>)
        requires
            old(self).wf(),
        ensures
            final(self).moved(
                old(self),
                and_tail(old(self).text(), old(self).cursor(), first@).pos,
            ),
            expr_agrees(r, and_tail(old(self).text(), old(self).cursor(), first@)),
            final(self).cursor() >= old(self).cursor(),
        decreases old(self).text().len() - old(self).cursor(), 0int, 0int,
    {
        let ghost s = self.text();
        let ghost start = self.cursor();
        let mut left = first;
        let mut more = true;
        while more
            invariant
                self.wf(),
                self.text() == s,
                s == old(self).text(),
                start == old(self).cursor(),
                self.cursor() >= start,
                more ==> and_tail(s, self.cursor(), left@) == and_tail(s, start, first@),
                !more ==> (Parsed { result: Ok::<SpecExpr, Seq<char>>(left@), pos: self.cursor() })
                    == and_tail(s, start, first@),
            decreases
                    s.len() - self.cursor() + (if more {
                        1int
                    } else {
                        0int
                    }),
        {
            self.skip_whitespace();
            let matched = if self.consume("&&") {
                proof {
                    reveal_strlit("&&");
                    lemma_token_len("&&"@);
                }
                true
            } else if self.consume("and") {
                proof {
                    reveal_strlit("and");
                    lemma_token_len("and"@);
                }
                true
            } else {
                false
            };
            if matched {
                match self.parse_not() {
                    Ok(right) => {
                        left =
                        FilterExpr::LogicalOp {
                            op: LogicalOp::And,
                            left: Box::new(left),
                            right: Box::new(right),
                        };
                    },
                    Err(e) => {
                        return Err(e);
                    },
                }
            } else {
                more = false;
            }
        }
        Ok(left)
    }

    /// Reads any number of `not` and a comparison.
    fn parse_not(&mut self) -> (r: Result<FilterExpr, WirerustError>)
        requires
            old(self).wf(),
        ensures
            final(self).moved(old(self), negation(old(self).text(), old(self).cursor()).pos),
            expr_agrees(r, negation(old(self).text(), old(self).cursor())),
            r is Ok ==> final(self).cursor() > old(self).cursor(),
            final(self).cursor() >= old(self).cursor(),
        decreases old(self).text().len() - old(self).cursor(), 7int, 0int,
    {
        self.skip_whitespace();
        if self.consume("not") {
            proof {
                reveal_strlit("not");
                lemma_token_len("not"@);
            }
            match self.parse_not() {
                Ok(inner) => Ok(FilterExpr::Not(Box::new(inner))),
                Err(e) => Err(e),
            }
        } else {
            self.parse_comparison()
        }
    }

    /// Reads an operand: a literal, else a name or a call, else an
    /// expression.
    fn parse_expr_or_value(&mut self) -> (r: Result<FilterExpr, WirerustError>)
        requires
            old(self).wf(),
        ensures
            final(self).moved(old(self), operand(old(self).text(), old(self).cursor()).pos),
            expr_agrees(r, operand(old(self).text(), old(self).cursor())),
            r is Ok ==> final(self).cursor() > old(self).cursor(),
            final(self).cursor() >= old(self).cursor(),
        decreases old(self).text().len() - old(self).cursor(), 10int, 0int,
    {
        self.skip_whitespace();
        proof {
            lemma_skip_ws(old(self).text(), old(self).cursor());
        }
        let start_pos = self.pos;
        match self.parse_literal() {
            Ok(value) => {
                return Ok(FilterExpr::Value(value));
            },
            Err(_) => {},
        }
        self.pos = start_pos;
        match self.parse_identifier() {
            Ok(name) => {
                return self.parse_call_or_name(name);
            },
            Err(_) => {},
        }
        self.pos = start_pos;
        match self.parse_expr() {
            Ok(e) => Ok(e),
            Err(_) => Err(fail_at("Expected expression or value at position ", self.pos)),
        }
    }

    /// Reads the arguments of a call, up to the closing parenthesis.
    fn parse_arguments(&mut self) -> (r: Result<Vec<FilterExpr>, WirerustError>)
        requires
            old(self).wf(),
        ensures
            final(self).moved(
                old(self),
                arguments(old(self).text(), old(self).cursor(), Seq::empty()).pos,
            ),
            exprs_agree(r, arguments(old(self).text(), old(self).cursor(), Seq::empty())),
            final(self).cursor() >= old(self).cursor(),
        decreases old(self).text().len() - old(self).cursor(), 11int, 0int,
    {
        let ghost s = self.text();
        let ghost whole = arguments(s, self.cursor(), Seq::empty());
        let mut args: Vec<FilterExpr> = Vec::new();
        assert(exprs_of(args@) =~= Seq::<SpecExpr>::empty());
        loop
            invariant
                self.wf(),
                self.text() == s,
                s == old(self).text(),
                self.cursor() >= old(self).cursor(),
                whole == arguments(s, old(self).cursor(), Seq::empty()),
                arguments(s, self.cursor(), exprs_of(args@)) == whole,
            decreases s.len() - self.cursor(),
        {
            let ghost seen = exprs_of(args@);
            let start_pos = self.pos;
            let arg = match self.parse_identifier() {
                Ok(name) => match self.parse_name_led(name) {
                    Ok(e) => e,
                    Err(e) => {
                        return Err(e);
                    },
                },
                Err(_) => {
                    self.pos = start_pos;
                    match self.parse_expr_or_value() {
                        Ok(e) => e,
                        Err(e) => {
                            return Err(e);
                        },
                    }
                },
            };
            args.push(arg);
            assert(exprs_of(args@) =~= seen.push(arg@));
            self.skip_whitespace();
            if self.peek_is(0x2C) {
                self.consume_char();
                self.skip_whitespace();
            } else {
                return Ok(args);
            }
        }
    }

    /// Reads a primary.
    fn parse_primary(&mut self) -> (r: Result<FilterExpr, WirerustError>)
        requires
            old(self).wf(),
        ensures
            final(self).moved(old(self), primary(old(self).text(), old(self).cursor()).pos),
            expr_agrees(r, primary(old(self).text(), old(self).cursor())),
            r is Ok ==> final(self).cursor() > old(self).cursor(),
            final(self).cursor() >= old(self).cursor(),
        decreases old(self).text().len() - old(self).cursor(), 5int, 0int,
    {
        let ghost s = self.text();
        self.skip_whitespace();
        proof {
            lemma_skip_ws(s, old(self).cursor());
        }
        if self.peek_is(0x28) {
            self.consume_char();
            let inner = match self.parse_expr() {
                Ok(e) => e,
                Err(e) => {
                    return Err(e);
                },
            };
            self.skip_whitespace();
            if self.peek_is(0x29) {
                self.consume_char();
                Ok(inner)
            } else {
                Err(fail_at("Expected ')' at position ", self.pos))
            }
        } else if self.peek_is(0x7B) {
            match self.parse_list_literal() {
                Ok(items) => Ok(FilterExpr::List(items)),
                Err(e) => Err(e),
            }
        } else {
            match self.parse_identifier() {
                Ok(name) => self.parse_call_or_name(name),
                Err(e) => Err(e),
            }
        }
    }

    /// Reads what follows a name: the arguments of a call, or nothing.
    fn parse_call_or_name(&mut self, name: Vec<u8>) -> (r: Result<FilterExpr, WirerustError>)
        requires
            old(self).wf(),
            is_ascii(name@),
        ensures
            final(self).moved(old(self), named(old(self).text(), old(self).cursor(), name@).pos),
            expr_agrees(r, named(old(self).text(), old(self).cursor(), name@)),
            final(self).cursor() >= old(self).cursor(),
        decreases old(self).text().len() - old(self).cursor(), 4int, 0int,
    {
        let ghost s = self.text();
        self.skip_whitespace();
        proof {
            lemma_skip_ws(s, old(self).cursor());
        }
        if self.peek_is(0x28) {
            self.consume_char();
            self.skip_whitespace();
            let args = if self.peek_is(0x29) {
                let none: Vec<FilterExpr> = Vec::new();
                assert(exprs_of(none@) =~= Seq::<SpecExpr>::empty());
                none
            } else {
                match self.parse_arguments() {
                    Ok(args) => args,
                    Err(e) => {
                        return Err(e);
                    },
                }
            };
            if self.peek_is(0x29) {
                self.consume_char();
                let text = ascii_string(name.as_slice());
                proof {
                    lemma_call_args(text, args);
                }
                Ok(FilterExpr::FunctionCall { name: text, args })
            } else {
                Err(fail_at("Expected ')' after function call at position ", self.pos))
            }
        } else {
            Ok(FilterExpr::Value(LiteralValue::Bytes(Arc::new(name))))
        }
    }

    /// Reads the right-hand side of a comparison.
    fn parse_right_side(&mut self) -> (r: Result<FilterExpr, WirerustError>)
        requires
            old(self).wf(),
        ensures
            final(self).moved(old(self), right_side(old(self).text(), old(self).cursor()).pos),
            expr_agrees(r, right_side(old(self).text(), old(self).cursor())),
            final(self).cursor() >= old(self).cursor(),
        decreases old(self).text().len() - old(self).cursor(), 12int, 0int,
    {
        let ghost s = self.text();
        self.skip_whitespace();
        proof {
            lemma_skip_ws(s, old(self).cursor());
        }
        if self.peek_is(0x7B) {
            let items = match self.parse_list_literal() {
                Ok(items) => items,
                Err(e) => {
                    return Err(e);
                },
            };
            self.skip_whitespace();
            let shared = Arc::new(items);
            proof {
                lemma_array_value(shared);
            }
            Ok(FilterExpr::Value(LiteralValue::Array(shared)))
        } else {
            self.parse_expr_or_value()
        }
    }

    /// Reads a comparison.
    fn parse_comparison(&mut self) -> (r: Result<FilterExpr, WirerustError>)
        requires
            old(self).wf(),
        ensures
            final(self).moved(old(self), comparison(old(self).text(), old(self).cursor()).pos),
            expr_agrees(r, comparison(old(self).text(), old(self).cursor())),
            r is Ok ==> final(self).cursor() > old(self).cursor(),
            final(self).cursor() >= old(self).cursor(),
        decreases old(self).text().len() - old(self).cursor(), 6int, 0int,
    {
        match self.parse_primary() {
            Ok(left) => self.parse_comparison_rest(left),
            Err(e) => Err(e),
        }
    }

    /// Reads what follows the left operand of a comparison.
    fn parse_comparison_rest(&mut self, left: FilterExpr) -> (r: Result<FilterExpr, WirerustError>)
        requires
            old(self).wf(),
        ensures
            final(self).moved(
                old(self),
                comparison_rest(old(self).text(), old(self).cursor(), left@).pos,
            ),
            expr_agrees(r, comparison_rest(old(self).text(), old(self).cursor(), left@)),
            final(self).cursor() >= old(self).cursor(),
        decreases old(self).text().len() - old(self).cursor(), 13int, 0int,
    {
        match self.parse_operator() {
            Ok(op) => {
                match self.parse_right_side() {
                    Ok(right) => Ok(
                        FilterExpr::Comparison { left: Box::new(left), op, right: Box::new(right) },
                    ),
                    Err(e) => Err(e),
                }
            },
            Err(_) => Ok(left),
        }
    }

    /// Reads the rest of a comparison that starts with a name.
    fn parse_name_compared(&mut self, name: Vec<u8>) -> (r: Result<FilterExpr, WirerustError>)
        requires
            old(self).wf(),
            is_ascii(name@),
        ensures
            final(self).moved(
                old(self),
                name_compared(old(self).text(), old(self).cursor(), name@).pos,
            ),
            expr_agrees(r, name_compared(old(self).text(), old(self).cursor(), name@)),
            final(self).cursor() >= old(self).cursor(),
        decreases old(self).text().len() - old(self).cursor(), 15int, 0int,
    {
        match self.parse_call_or_name(name) {
            Ok(first) => self.parse_comparison_rest(first),
            Err(e) => Err(e),
        }
    }

    /// Reads the rest of a chain of `&&` that starts with a name.
    fn parse_name_joined(&mut self, name: Vec<u8>) -> (r: Result<FilterExpr, WirerustError>)
        requires
            old(self).wf(),
            is_ascii(name@),
        ensures
            final(self).moved(
                old(self),
                name_joined(old(self).text(), old(self).cursor(), name@).pos,
            ),
            expr_agrees(r, name_joined(old(self).text(), old(self).cursor(), name@)),
            final(self).cursor() >= old(self).cursor(),
        decreases old(self).text().len() - old(self).cursor(), 16int, 0int,
    {
        match self.parse_name_compared(name) {
            Ok(compared) => self.parse_and_tail(compared),
            Err(e) => Err(e),
        }
    }

    /// Reads the rest of an expression that starts with a name.
    fn parse_name_led(&mut self, name: Vec<u8>) -> (r: Result<FilterExpr, WirerustError>)
        requires
            old(self).wf(),
            is_ascii(name@),
        ensures
            final(self).moved(old(self), name_led(old(self).text(), old(self).cursor(), name@).pos),
            expr_agrees(r, name_led(old(self).text(), old(self).cursor(), name@)),
            final(self).cursor() >= old(self).cursor(),
        decreases old(self).text().len() - old(self).cursor(), 17int, 0int,
    {
        match self.parse_name_joined(name) {
            Ok(joined) => self.parse_or_tail(joined),
            Err(e) => Err(e),
        }
    }

    /// Parses a filter text. The whole text must be an expression; the
    /// schema plays no part.
    pub fn parse(input: &str, schema: &FilterSchema) -> (r: Result<FilterExpr, WirerustError>)
        ensures
            expr_result_of(r) == parse_outcome(utf8(input@)),
    {
        let mut parser = FilterParser::new(input, schema);
        let expr = match parser.parse_expr() {
            Ok(e) => e,
            Err(e) => {
                let detail = e.message();
                let message = numbered(
                    "Failed to parse expression at position ",
                    parser.pos,
                    ": ",
                ).concat(detail.as_str());
                return Err(WirerustError::ParseError(message));
            },
        };
        parser.skip_whitespace();
        if parser.pos < parser.bytes().len() {
            return Err(fail_at("Unexpected input at position ", parser.pos));
        }
        Ok(expr)
    }
}

/// Whether a byte can start an identifier.
fn is_ident_start_byte(b: u8) -> (r: bool)
    ensures
        r == is_ident_start(b),
{
    (0x41 <= b && b <= 0x5A) || (0x61 <= b && b <= 0x7A) || b == 0x5F
}

/// Whether a byte can continue an identifier.
fn is_ident_part(b: u8) -> (r: bool)
    ensures
        r == is_ident_byte(b),
{
    is_ident_start_byte(b) || (0x30 <= b && b <= 0x39) || b == 0x2E
}

/// Whether a byte is an ASCII digit.
fn is_digit_byte(b: u8) -> (r: bool)
    ensures
        r == is_digit(b),
{
    0x30 <= b && b <= 0x39
}

} // verus!
