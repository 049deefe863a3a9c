//! The grammar of rule expressions, as functions from a text and a
//! position to the tree that starts there.
//!
//! ```text
//! condition   := logical_or
//! logical_or  := logical_and ( "OR"  logical_and )*
//! logical_and := comparison  ( "AND" comparison  )*
//! comparison  := term ( cmp_op term )?
//! cmp_op      := "==" | "!=" | ">=" | ">" | "<=" | "<" | "CONTAINS" | "IN"
//! term        := string | number | list | map | "(" condition ")"
//!              | "true" | "false" | call | attribute | identifier
//! attribute   := IDENT "." IDENT
//! call        := ( IDENT "." )? IDENT "(" ( term ( "," term )* )? ")"
//! list        := "[" ( term ( "," term )* )? "]"
//! map         := "{" ( string ":" term ( "," string ":" term )* )? "}"
//! number      := "0x" hexdigits | digits | digits "." digits ( "e" sign? digits )?
//! ```
//!
//! Whitespace may stand between tokens. The words `AND`, `OR`, `CONTAINS`,
//! `IN`, `true` and `false` are reserved. Each function returns the tree
//! with the position after it, or the position and kind of the first
//! violation. A `logical_or` of several operands gives an `Or` node and a
//! `logical_and` of several operands an `And` node; with one operand each
//! gives the tree of that operand.

use crate::ast::{Ast, Comparator};
use crate::convert::decimal_bits;
use crate::text::{has_at, skip_ws};
use vstd::prelude::*;

verus! {

/// The kinds of syntax error.
#[derive(Clone, Copy, Debug, PartialEq, Eq, Structural)]
pub enum Fault {
    /// A term was expected.
    ExpectedTerm,
    /// A string has no closing quote.
    UnclosedString,
    /// A parenthesis is not closed.
    ExpectedParen,
    /// A list lacks `,` or `]`.
    ExpectedListEnd,
    /// A map entry does not start with a string key.
    ExpectedKey,
    /// A map key is not followed by `:`.
    ExpectedColon,
    /// A map lacks `,` or `}`.
    ExpectedMapEnd,
    /// The arguments of a call lack `,` or `)`.
    ExpectedArgumentEnd,
    /// A number is malformed.
    BadNumber,
    /// An integer does not fit in 64 bits.
    NumberTooLarge,
    /// Text follows the expression.
    TrailingInput,
}

/// What a grammar function gives: the item and the position after it, or
/// the position and kind of the error.
pub type Step<T> = Result<(T, int), (int, Fault)>;

/// The number of characters from `pos` to the end of the text.
pub open spec fn remaining(s: Seq<char>, pos: int) -> nat {
    if pos >= s.len() {
        0
    } else {
        (s.len() - pos) as nat
    }
}

/// A position that is not before `pos`.
pub open spec fn later(pos: int, n: int) -> int {
    if n < pos {
        pos
    } else {
        n
    }
}

/// A decimal digit.
pub open spec fn is_digit(c: char) -> bool {
    '0' <= c <= '9'
}

/// A hexadecimal digit, in either case.
pub open spec fn is_hex_digit(c: char) -> bool {
    ('0' <= c <= '9') || ('a' <= c <= 'f') || ('A' <= c <= 'F')
}

/// A character that can begin an identifier.
pub open spec fn is_ident_start(c: char) -> bool {
    ('a' <= c <= 'z') || ('A' <= c <= 'Z') || c == '_'
}

/// A character that can stand inside an identifier.
pub open spec fn is_ident_char(c: char) -> bool {
    is_ident_start(c) || is_digit(c)
}

/// The end of the identifier characters that start at `from`.
pub open spec fn ident_end(s: Seq<char>, from: int) -> int
    decreases s.len() - from,
{
    if 0 <= from < s.len() && is_ident_char(s[from]) {
        ident_end(s, from + 1)
    } else {
        from
    }
}

/// The end of the decimal digits that start at `from`.
pub open spec fn digits_end(s: Seq<char>, from: int) -> int
    decreases s.len() - from,
{
    if 0 <= from < s.len() && is_digit(s[from]) {
        digits_end(s, from + 1)
    } else {
        from
    }
}

/// The end of the hexadecimal digits that start at `from`.
pub open spec fn hex_end(s: Seq<char>, from: int) -> int
    decreases s.len() - from,
{
    if 0 <= from < s.len() && is_hex_digit(s[from]) {
        hex_end(s, from + 1)
    } else {
        from
    }
}

/// The position of the quote that closes a string whose content starts at
/// `from`, or the length of the text if there is none. A backslash takes
/// the character after it along, so an escaped quote does not close.
pub open spec fn string_end(s: Seq<char>, from: int) -> int
    decreases s.len() - from,
{
    if from < 0 || from >= s.len() {
        s.len() as int
    } else if s[from] == '"' {
        from
    } else if s[from] == '\\' && from + 1 < s.len() {
        string_end(s, from + 2)
    } else {
        string_end(s, from + 1)
    }
}

/// An identifier ends between its start and the end of the text.
pub proof fn lemma_ident_end(s: Seq<char>, from: int)
    requires
        0 <= from <= s.len(),
    ensures
        from <= ident_end(s, from) <= s.len(),
    decreases s.len() - from,
{
    if from < s.len() && is_ident_char(s[from]) {
        lemma_ident_end(s, from + 1);
    }
}


/// The value of one decimal or hexadecimal digit.
pub open spec fn digit_value(c: char) -> nat {
    if '0' <= c <= '9' {
        (c as int - '0' as int) as nat
    } else if 'a' <= c <= 'f' {
        (c as int - 'a' as int + 10) as nat
    } else if 'A' <= c <= 'F' {
        (c as int - 'A' as int + 10) as nat
    } else {
        0
    }
}

/// The number that the digits denote in the given base.
pub open spec fn digits_value(digits: Seq<char>, base: nat) -> nat
    decreases digits.len(),
{
    if digits.len() == 0 {
        0
    } else {
        digits_value(digits.drop_last(), base) * base + digit_value(digits.last())
    }
}

/// The integer that the digits denote, if it fits in 64 bits.
pub open spec fn integer_of(digits: Seq<char>, base: nat) -> Option<u64> {
    if digits_value(digits, base) <= u64::MAX {
        Some(digits_value(digits, base) as u64)
    } else {
        None
    }
}

/// Whether `word` stands at `pos` as a whole word.
pub open spec fn keyword_at(s: Seq<char>, pos: int, word: Seq<char>) -> bool {
    has_at(s, pos, word) && !(pos + word.len() < s.len() && is_ident_char(s[pos + word.len()]))
}

/// Whether the word is reserved by the language.
pub open spec fn is_reserved(w: Seq<char>) -> bool {
    w == "AND"@ || w == "OR"@ || w == "CONTAINS"@ || w == "IN"@
}

/// The comparison operator at `pos`, with its length.
pub open spec fn operator_at(s: Seq<char>, pos: int) -> Option<(Comparator, int)> {
    if has_at(s, pos, "=="@) {
        Some((Comparator::Eq, 2))
    } else if has_at(s, pos, "!="@) {
        Some((Comparator::Ne, 2))
    } else if has_at(s, pos, ">="@) {
        Some((Comparator::Ge, 2))
    } else if has_at(s, pos, ">"@) {
        Some((Comparator::Gt, 1))
    } else if has_at(s, pos, "<="@) {
        Some((Comparator::Le, 2))
    } else if has_at(s, pos, "<"@) {
        Some((Comparator::Lt, 1))
    } else if keyword_at(s, pos, "CONTAINS"@) {
        Some((Comparator::Contains, 8))
    } else if keyword_at(s, pos, "IN"@) {
        Some((Comparator::In, 2))
    } else {
        None
    }
}

/// The end of the exponent that starts at `f`, where an `e` may stand: the
/// position after its digits, or `f` itself if no exponent stands there.
pub open spec fn exponent_end(s: Seq<char>, f: int) -> int {
    if 0 <= f < s.len() && (s[f] == 'e' || s[f] == 'E') {
        let x = if f + 1 < s.len() && (s[f + 1] == '+' || s[f + 1] == '-') {
            f + 2
        } else {
            f + 1
        };
        if x < s.len() && is_digit(s[x]) {
            digits_end(s, x)
        } else {
            f
        }
    } else {
        f
    }
}

/// Where the digits of the exponent start, given that one ends after `f`.
pub open spec fn exponent_digits_start(s: Seq<char>, f: int) -> int {
    if f + 1 < s.len() && (s[f + 1] == '+' || s[f + 1] == '-') {
        f + 2
    } else {
        f + 1
    }
}

/// The number literal that starts at `p`, where a digit stands.
pub open spec fn number_at(s: Seq<char>, p: int) -> Step<Ast> {
    if s[p] == '0' && p + 1 < s.len() && (s[p + 1] == 'x' || s[p + 1] == 'X') {
        let h = hex_end(s, p + 2);
        if h <= p + 2 {
            Err((p, Fault::BadNumber))
        } else {
            match integer_of(s.subrange(p + 2, h), 16) {
                Some(v) => Ok((Ast::Number(v), h)),
                None => Err((p, Fault::NumberTooLarge)),
            }
        }
    } else {
        let d = digits_end(s, p);
        if d + 1 < s.len() && s[d] == '.' && is_digit(s[d + 1]) {
            let f = digits_end(s, d + 1);
            let x = exponent_end(s, f);
            let negative = x > f && f + 1 < s.len() && s[f + 1] == '-';
            let exp_digits = if x > f {
                s.subrange(exponent_digits_start(s, f), x)
            } else {
                Seq::empty()
            };
            Ok(
                (
                    Ast::Float(
                        decimal_bits(s.subrange(p, d), s.subrange(d + 1, f), negative, exp_digits),
                    ),
                    x,
                ),
            )
        } else {
            match integer_of(s.subrange(p, d), 10) {
                Some(v) => Ok((Ast::Number(v), d)),
                None => Err((p, Fault::NumberTooLarge)),
            }
        }
    }
}

/// The fault of a sequence that lacks its separator or its closing
/// character.
pub open spec fn close_fault(close: char) -> Fault {
    if close == ']' {
        Fault::ExpectedListEnd
    } else {
        Fault::ExpectedArgumentEnd
    }
}

/// `logical_or` at `pos`.
pub open spec fn grammar_or(s: Seq<char>, pos: int) -> Step<Ast>
    decreases remaining(s, pos), 30int,
{
    match grammar_and(s, pos) {
        Err(e) => Err(e),
        Ok((first, n)) => grammar_or_rest(s, later(pos, n), seq![first]),
    }
}

/// The operands of a `logical_or` after those in `acc`, which end at `pos`.
pub open spec fn grammar_or_rest(s: Seq<char>, pos: int, acc: Seq<Ast>) -> Step<Ast>
    decreases remaining(s, pos), 29int,
{
    let p = skip_ws(s, pos);
    if pos <= p && keyword_at(s, p, "OR"@) {
        proof {
            reveal_strlit("OR");
        }
        match grammar_and(s, p + 2) {
            Err(e) => Err(e),
            Ok((node, n)) => grammar_or_rest(s, later(p + 2, n), acc.push(node)),
        }
    } else if acc.len() == 1 {
        Ok((acc[0], pos))
    } else {
        Ok((Ast::Or(acc), pos))
    }
}

/// `logical_and` at `pos`.
pub open spec fn grammar_and(s: Seq<char>, pos: int) -> Step<Ast>
    decreases remaining(s, pos), 28int,
{
    match grammar_comparison(s, pos) {
        Err(e) => Err(e),
        Ok((first, n)) => grammar_and_rest(s, later(pos, n), seq![first]),
    }
}

/// The operands of a `logical_and` after those in `acc`, which end at `pos`.
pub open spec fn grammar_and_rest(s: Seq<char>, pos: int, acc: Seq<Ast>) -> Step<Ast>
    decreases remaining(s, pos), 27int,
{
    let p = skip_ws(s, pos);
    if pos <= p && keyword_at(s, p, "AND"@) {
        proof {
            reveal_strlit("AND");
        }
        match grammar_comparison(s, p + 3) {
            Err(e) => Err(e),
            Ok((node, n)) => grammar_and_rest(s, later(p + 3, n), acc.push(node)),
        }
    } else if acc.len() == 1 {
        Ok((acc[0], pos))
    } else {
        Ok((Ast::And(acc), pos))
    }
}

/// `comparison` at `pos`.
pub open spec fn grammar_comparison(s: Seq<char>, pos: int) -> Step<Ast>
    decreases remaining(s, pos), 26int,
{
    match grammar_term(s, pos) {
        Err(e) => Err(e),
        Ok((left, n)) => {
            let p = skip_ws(s, later(pos, n));
            match operator_at(s, p) {
                None => Ok((left, n)),
                Some((op, len)) => {
                    if pos <= p && len > 0 {
                        match grammar_term(s, p + len) {
                            Err(e) => Err(e),
                            Ok((right, m)) => Ok(
                                (
                                    Ast::Comparison {
                                        left: Box::new(left),
                                        op,
                                        right: Box::new(right),
                                    },
                                    m,
                                ),
                            ),
                        }
                    } else {
                        Ok((left, n))
                    }
                },
            }
        },
    }
}

/// `term` at `pos`, after leading whitespace.
pub open spec fn grammar_term(s: Seq<char>, pos: int) -> Step<Ast>
    decreases remaining(s, pos), 25int,
{
    let p = skip_ws(s, pos);
    if p < pos || p >= s.len() {
        Err((p, Fault::ExpectedTerm))
    } else if s[p] == '"' {
        let e = string_end(s, p + 1);
        if e >= s.len() {
            Err((p, Fault::UnclosedString))
        } else {
            Ok((Ast::String(s.subrange(p + 1, e)), e + 1))
        }
    } else if s[p] == '(' {
        match grammar_or(s, p + 1) {
            Err(e) => Err(e),
            Ok((node, n)) => {
                let q = skip_ws(s, later(p + 1, n));
                if q < s.len() && s[q] == ')' {
                    Ok((node, q + 1))
                } else {
                    Err((q, Fault::ExpectedParen))
                }
            },
        }
    } else if s[p] == '[' {
        match grammar_sequence(s, p + 1, ']') {
            Err(e) => Err(e),
            Ok((items, n)) => Ok((Ast::ListLiteral(items), n)),
        }
    } else if s[p] == '{' {
        match grammar_entries(s, p + 1) {
            Err(e) => Err(e),
            Ok((entries, n)) => Ok((Ast::MapLiteral(entries), n)),
        }
    } else if is_digit(s[p]) {
        number_at(s, p)
    } else if is_ident_start(s[p]) {
        grammar_word(s, p)
    } else {
        Err((p, Fault::ExpectedTerm))
    }
}

/// The term that starts with the word at `p`: a truth value, a call, an
/// attribute or an identifier.
pub open spec fn grammar_word(s: Seq<char>, p: int) -> Step<Ast>
    decreases remaining(s, p), 24int,
{
    let e = ident_end(s, p);
    let w = s.subrange(p, e);
    if w == "true"@ {
        Ok((Ast::Bool(true), e))
    } else if w == "false"@ {
        Ok((Ast::Bool(false), e))
    } else if is_reserved(w) {
        Err((p, Fault::ExpectedTerm))
    } else if e + 1 < s.len() && s[e] == '.' && is_ident_start(s[e + 1]) {
        let e2 = ident_end(s, e + 1);
        let f = s.subrange(e + 1, e2);
        if p < e2 < s.len() && s[e2] == '(' {
            match grammar_sequence(s, e2 + 1, ')') {
                Err(x) => Err(x),
                Ok((args, n)) => Ok((Ast::FunctionCall { namespace: Some(w), name: f, args }, n)),
            }
        } else {
            Ok((Ast::Attribute { object: w, field: f }, e2))
        }
    } else if p < e < s.len() && s[e] == '(' {
        match grammar_sequence(s, e + 1, ')') {
            Err(x) => Err(x),
            Ok((args, n)) => Ok((Ast::FunctionCall { namespace: None, name: w, args }, n)),
        }
    } else {
        Ok((Ast::Identifier(w), e))
    }
}

/// The terms of a list or of a call, from `pos` to the closing character.
pub open spec fn grammar_sequence(s: Seq<char>, pos: int, close: char) -> Step<Seq<Ast>>
    decreases remaining(s, pos), 40int,
{
    let p = skip_ws(s, pos);
    if 0 <= p < s.len() && s[p] == close {
        Ok((Seq::empty(), p + 1))
    } else {
        grammar_sequence_more(s, pos, close, Seq::empty())
    }
}

/// The terms of a sequence after those in `acc`, the next one at `pos`.
pub open spec fn grammar_sequence_more(
    s: Seq<char>,
    pos: int,
    close: char,
    acc: Seq<Ast>,
) -> Step<Seq<Ast>>
    decreases remaining(s, pos), 39int,
{
    match grammar_term(s, pos) {
        Err(e) => Err(e),
        Ok((node, n)) => {
            let p = skip_ws(s, later(pos, n));
            if pos <= p < s.len() && s[p] == ',' {
                grammar_sequence_more(s, p + 1, close, acc.push(node))
            } else if 0 <= p < s.len() && s[p] == close {
                Ok((acc.push(node), p + 1))
            } else {
                Err((p, close_fault(close)))
            }
        },
    }
}

/// The entries of a map, from `pos` to the closing brace.
pub open spec fn grammar_entries(s: Seq<char>, pos: int) -> Step<Seq<(Seq<char>, Ast)>>
    decreases remaining(s, pos), 42int,
{
    let p = skip_ws(s, pos);
    if 0 <= p < s.len() && s[p] == '}' {
        Ok((Seq::empty(), p + 1))
    } else {
        grammar_entries_more(s, pos, Seq::empty())
    }
}

/// The entries of a map after those in `acc`, the next one at `pos`.
pub open spec fn grammar_entries_more(
    s: Seq<char>,
    pos: int,
    acc: Seq<(Seq<char>, Ast)>,
) -> Step<Seq<(Seq<char>, Ast)>>
    decreases remaining(s, pos), 41int,
{
    let p = skip_ws(s, pos);
    if !(pos <= p < s.len() && s[p] == '"') {
        Err((p, Fault::ExpectedKey))
    } else {
        let e = string_end(s, p + 1);
        if e >= s.len() || e <= p {
            Err((p, Fault::UnclosedString))
        } else {
            let key = s.subrange(p + 1, e);
            let c = skip_ws(s, e + 1);
            if !(e < c < s.len() && s[c] == ':') {
                Err((c, Fault::ExpectedColon))
            } else {
                match grammar_term(s, c + 1) {
                    Err(x) => Err(x),
                    Ok((node, n)) => {
                        let q = skip_ws(s, later(c + 1, n));
                        if c < q < s.len() && s[q] == ',' {
                            grammar_entries_more(s, q + 1, acc.push((key, node)))
                        } else if 0 <= q < s.len() && s[q] == '}' {
                            Ok((acc.push((key, node)), q + 1))
                        } else {
                            Err((q, Fault::ExpectedMapEnd))
                        }
                    },
                }
            }
        }
    }
}

/// The tree of a whole rule text: a `logical_or` with nothing after it but
/// whitespace.
pub open spec fn grammar_expression(s: Seq<char>) -> Result<Ast, (int, Fault)> {
    match grammar_or(s, 0) {
        Err(e) => Err(e),
        Ok((node, n)) => {
            let p = skip_ws(s, later(0, n));
            if p >= s.len() {
                Ok(node)
            } else {
                Err((p, Fault::TrailingInput))
            }
        },
    }
}

/// The number of line feeds before position `pos`.
pub open spec fn newlines_before(s: Seq<char>, pos: int) -> nat
    decreases pos,
{
    if pos <= 0 || pos > s.len() {
        0
    } else if s[pos - 1] == '\n' {
        1 + newlines_before(s, pos - 1)
    } else {
        newlines_before(s, pos - 1)
    }
}

/// The position at which the line of `pos` starts.
pub open spec fn line_start(s: Seq<char>, pos: int) -> int
    decreases pos,
{
    if pos <= 0 || pos > s.len() {
        0
    } else if s[pos - 1] == '\n' {
        pos
    } else {
        line_start(s, pos - 1)
    }
}

/// The line of a position, counted from 1.
pub open spec fn line_of(s: Seq<char>, pos: int) -> nat {
    newlines_before(s, pos) + 1
}

/// The column of a position in its line, counted from 1 in characters.
pub open spec fn column_of(s: Seq<char>, pos: int) -> int {
    pos - line_start(s, pos) + 1
}

/// The text that describes a fault.
pub open spec fn fault_text(f: Fault) -> Seq<char> {
    match f {
        Fault::ExpectedTerm => "expected a term"@,
        Fault::UnclosedString => "string is not closed"@,
        Fault::ExpectedParen => "expected `)`"@,
        Fault::ExpectedListEnd => "expected `,` or `]`"@,
        Fault::ExpectedKey => "expected a string key"@,
        Fault::ExpectedColon => "expected `:`"@,
        Fault::ExpectedMapEnd => "expected `,` or `}`"@,
        Fault::ExpectedArgumentEnd => "expected `,` or `)`"@,
        Fault::BadNumber => "malformed number"@,
        Fault::NumberTooLarge => "integer does not fit in 64 bits"@,
        Fault::TrailingInput => "unexpected input after the expression"@,
    }
}

} // verus!
