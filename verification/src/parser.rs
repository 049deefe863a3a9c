//! The parser of rule expressions: recursive descent over the characters
//! of the text, proved to give what the grammar gives.

use crate::ast::{entry_views, node_views, Ast, AstNode, Comparator, Expression};
use crate::error::{ErrorKind, HelError, HelErrorView};
use crate::grammar::{
    column_of, digit_value, digits_end, digits_value, exponent_end, fault_text,
    grammar_and, grammar_and_rest, grammar_comparison, grammar_entries, grammar_entries_more,
    grammar_expression, grammar_or, grammar_or_rest, grammar_sequence, grammar_sequence_more,
    grammar_term, grammar_word, hex_end, ident_end, integer_of, is_digit, is_hex_digit, is_ident_char,
    is_ident_start, keyword_at, line_of, line_start, newlines_before, number_at, operator_at,
    string_end, Fault, Step,
};
use crate::convert::parse_decimal;
use crate::text::{
    chars_are, chars_of, has_at, matches_at, skip_whitespace, slice_of, string_of_range,
};
use vstd::prelude::*;

verus! {

/// What a parsing function returns: the item and the position after it,
/// or the position and kind of the error.
pub type Parse<T> = Result<(T, usize), (usize, Fault)>;

/// Whether a parsed node is what the grammar gives.
pub open spec fn node_step(r: Parse<AstNode>, g: Step<Ast>) -> bool {
    match (r, g) {
        (Ok((node, n)), Ok((ast, m))) => node@ == ast && n == m,
        (Err((p, f)), Err((q, k))) => p == q && f == k,
        _ => false,
    }
}

/// Whether a parsed sequence of nodes is what the grammar gives.
pub open spec fn nodes_step(r: Parse<Vec<AstNode>>, g: Step<Seq<Ast>>) -> bool {
    match (r, g) {
        (Ok((nodes, n)), Ok((asts, m))) => node_views(nodes) == asts && n == m,
        (Err((p, f)), Err((q, k))) => p == q && f == k,
        _ => false,
    }
}

/// Whether the parsed entries of a map are what the grammar gives.
pub open spec fn entries_step(
    r: Parse<Vec<(String, AstNode)>>,
    g: Step<Seq<(Seq<char>, Ast)>>,
) -> bool {
    match (r, g) {
        (Ok((entries, n)), Ok((asts, m))) => entry_views(entries) == asts && n == m,
        (Err((p, f)), Err((q, k))) => p == q && f == k,
        _ => false,
    }
}

/// Whether the positions of a result lie in a text of length `len`, the
/// next position not before `pos`.
pub open spec fn in_bounds<T>(r: Parse<T>, pos: usize, len: usize) -> bool {
    match r {
        Ok((_, n)) => pos <= n <= len,
        Err((p, _)) => p <= len,
    }
}

/// Executable form of [`is_digit`].
fn char_is_digit(c: char) -> (r: bool)
    ensures
        r == is_digit(c),
{
    '0' <= c && c <= '9'
}

/// Executable form of [`is_hex_digit`].
fn char_is_hex_digit(c: char) -> (r: bool)
    ensures
        r == is_hex_digit(c),
{
    ('0' <= c && c <= '9') || ('a' <= c && c <= 'f') || ('A' <= c && c <= 'F')
}

/// Executable form of [`is_ident_start`].
fn char_is_ident_start(c: char) -> (r: bool)
    ensures
        r == is_ident_start(c),
{
    ('a' <= c && c <= 'z') || ('A' <= c && c <= 'Z') || c == '_'
}

/// Executable form of [`is_ident_char`].
fn char_is_ident(c: char) -> (r: bool)
    ensures
        r == is_ident_char(c),
{
    char_is_ident_start(c) || char_is_digit(c)
}

/// Executable form of [`ident_end`].
fn scan_ident(chars: &Vec<char>, from: usize) -> (r: usize)
    requires
        from <= chars.len(),
    ensures
        r == ident_end(chars@, from as int),
        from <= r <= chars.len(),
{
    let mut i: usize = from;
    while i < chars.len() && char_is_ident(chars[i])
        invariant
            from <= i <= chars.len(),
            ident_end(chars@, from as int) == ident_end(chars@, i as int),
        decreases chars.len() - i,
    {
        i += 1;
    }
    i
}

/// Executable form of [`digits_end`].
fn scan_digits(chars: &Vec<char>, from: usize) -> (r: usize)
    requires
        from <= chars.len(),
    ensures
        r == digits_end(chars@, from as int),
        from <= r <= chars.len(),
{
    let mut i: usize = from;
    while i < chars.len() && char_is_digit(chars[i])
        invariant
            from <= i <= chars.len(),
            digits_end(chars@, from as int) == digits_end(chars@, i as int),
        decreases chars.len() - i,
    {
        i += 1;
    }
    i
}

/// Executable form of [`hex_end`].
fn scan_hex(chars: &Vec<char>, from: usize) -> (r: usize)
    requires
        from <= chars.len(),
    ensures
        r == hex_end(chars@, from as int),
        from <= r <= chars.len(),
{
    let mut i: usize = from;
    while i < chars.len() && char_is_hex_digit(chars[i])
        invariant
            from <= i <= chars.len(),
            hex_end(chars@, from as int) == hex_end(chars@, i as int),
        decreases chars.len() - i,
    {
        i += 1;
    }
    i
}

/// Executable form of [`string_end`].
fn scan_string(chars: &Vec<char>, from: usize) -> (r: usize)
    requires
        from <= chars.len(),
    ensures
        r == string_end(chars@, from as int),
        from <= r <= chars.len(),
{
    let mut i: usize = from;
    while i < chars.len() && chars[i] != '"'
        invariant
            from <= i <= chars.len(),
            string_end(chars@, from as int) == string_end(chars@, i as int),
        decreases chars.len() - i,
    {
        if chars[i] == '\\' && i + 1 < chars.len() {
            i += 2;
        } else {
            i += 1;
        }
    }
    i
}

/// Executable form of [`digit_value`].
fn digit_of(c: char) -> (r: u64)
    ensures
        r == digit_value(c),
        r < 16,
        is_digit(c) ==> r < 10,
{
    if '0' <= c && c <= '9' {
        (c as u32 - '0' as u32) as u64
    } else if 'a' <= c && c <= 'f' {
        (c as u32 - 'a' as u32 + 10) as u64
    } else if 'A' <= c && c <= 'F' {
        (c as u32 - 'A' as u32 + 10) as u64
    } else {
        0
    }
}

/// A longer run of digits never denotes a smaller number.
pub proof fn lemma_digits_value_grows(s: Seq<char>, from: int, i: int, j: int, base: nat)
    requires
        0 <= from <= i <= j <= s.len(),
        base >= 1,
    ensures
        digits_value(s.subrange(from, i), base) <= digits_value(s.subrange(from, j), base),
    decreases j - i,
{
    if i < j {
        lemma_digits_value_grows(s, from, i, j - 1, base);
        let longer = s.subrange(from, j);
        assert(longer.drop_last() =~= s.subrange(from, j - 1));
        let v = digits_value(s.subrange(from, j - 1), base);
        assert(v * base >= v) by (nonlinear_arith)
            requires
                base >= 1,
                v >= 0,
        ;
    }
}

/// The integer that the digits `chars[from..to]` denote in the base, if it
/// fits in 64 bits.
fn parse_integer(chars: &Vec<char>, from: usize, to: usize, base: u64) -> (r: Option<u64>)
    requires
        from <= to <= chars.len(),
        base == 10 || base == 16,
        base == 10 ==> forall|i: int| from <= i < to ==> is_digit(chars@[i]),
    ensures
        r == integer_of(chars@.subrange(from as int, to as int), base as nat),
{
    let mut v: u64 = 0;
    let mut i: usize = from;
    assert(chars@.subrange(from as int, from as int) =~= Seq::<char>::empty());
    while i < to
        invariant
            from <= i <= to <= chars.len(),
            base == 10 || base == 16,
            base == 10 ==> forall|k: int| from <= k < to ==> is_digit(chars@[k]),
            v == digits_value(chars@.subrange(from as int, i as int), base as nat),
        decreases to - i,
    {
        let d = digit_of(chars[i]);
        let ghost longer = chars@.subrange(from as int, i as int + 1);
        assert(longer.drop_last() =~= chars@.subrange(from as int, i as int));
        assert(longer.last() == chars@[i as int]);
        assert(digits_value(longer, base as nat) == v * base + d);
        if v > (u64::MAX - d) / base {
            proof {
                assert(v * base + d > u64::MAX) by (nonlinear_arith)
                    requires
                        v > (u64::MAX - d) / (base as int),
                        base == 10 || base == 16,
                        0 <= d < 16,
                ;
                lemma_digits_value_grows(chars@, from as int, i as int + 1, to as int, base as nat);
            }
            return None;
        }
        assert(v * base + d <= u64::MAX) by (nonlinear_arith)
            requires
                v <= (u64::MAX - d) / (base as int),
                base == 10 || base == 16,
                0 <= d < 16,
        ;
        v = v * base + d;
        i += 1;
    }
    Some(v)
}

/// Whether `word` stands at `p` as a whole word.
fn word_at(chars: &Vec<char>, p: usize, word: &str) -> (r: bool)
    ensures
        r == keyword_at(chars@, p as int, word@),
{
    let w = chars_of(word);
    if !matches_at(chars, p, &w) {
        return false;
    }
    assert(has_at(chars@, p as int, w@));
    let len = chars.len();
    assert(p + w.len() <= len);
    let next = p + w.len();
    !(next < chars.len() && char_is_ident(chars[next]))
}

/// Whether the symbol stands at a position of the text.
fn symbol_at(chars: &Vec<char>, p: usize, symbol: &str) -> (r: bool)
    ensures
        r == has_at(chars@, p as int, symbol@),
{
    let w = chars_of(symbol);
    matches_at(chars, p, &w)
}

/// Executable form of [`operator_at`].
fn scan_operator(chars: &Vec<char>, p: usize) -> (r: Option<(Comparator, usize)>)
    requires
        p <= chars.len(),
    ensures
        match r {
            Some((op, len)) => operator_at(chars@, p as int) == Some((op, len as int)) && 0 < len
                && p + len <= chars.len(),
            None => operator_at(chars@, p as int) is None,
        },
{
    proof {
        reveal_strlit("==");
        reveal_strlit("!=");
        reveal_strlit(">=");
        reveal_strlit(">");
        reveal_strlit("<=");
        reveal_strlit("<");
        reveal_strlit("CONTAINS");
        reveal_strlit("IN");
    }
    if symbol_at(chars, p, "==") {
        Some((Comparator::Eq, 2))
    } else if symbol_at(chars, p, "!=") {
        Some((Comparator::Ne, 2))
    } else if symbol_at(chars, p, ">=") {
        Some((Comparator::Ge, 2))
    } else if symbol_at(chars, p, ">") {
        Some((Comparator::Gt, 1))
    } else if symbol_at(chars, p, "<=") {
        Some((Comparator::Le, 2))
    } else if symbol_at(chars, p, "<") {
        Some((Comparator::Lt, 1))
    } else if word_at(chars, p, "CONTAINS") {
        Some((Comparator::Contains, 8))
    } else if word_at(chars, p, "IN") {
        Some((Comparator::In, 2))
    } else {
        None
    }
}

/// Executable form of [`number_at`].
fn parse_number_at(chars: &Vec<char>, p: usize) -> (r: Parse<AstNode>)
    requires
        p < chars.len(),
        is_digit(chars@[p as int]),
    ensures
        node_step(r, number_at(chars@, p as int)),
        in_bounds(r, p, chars.len()),
{
    let len = chars.len();
    if chars[p] == '0' && p + 1 < len && (chars[p + 1] == 'x' || chars[p + 1] == 'X') {
        let h = scan_hex(chars, p + 2);
        if h <= p + 2 {
            return Err((p, Fault::BadNumber));
        }
        return match parse_integer(chars, p + 2, h, 16) {
            Some(v) => Ok((AstNode::Number(v), h)),
            None => Err((p, Fault::NumberTooLarge)),
        };
    }
    let d = scan_digits(chars, p);
    proof {
        lemma_digits_all(chars@, p as int);
    }
    if d < len && d + 1 < len && chars[d] == '.' && char_is_digit(chars[d + 1]) {
        let f = scan_digits(chars, d + 1);
        let mut x: usize = f;
        let mut negative = false;
        let mut exp_from: usize = f;
        if f < len && (chars[f] == 'e' || chars[f] == 'E') {
            let start: usize = if f + 1 < len && (chars[f + 1] == '+' || chars[f + 1] == '-') {
                f + 2
            } else {
                f + 1
            };
            if start < len && char_is_digit(chars[start]) {
                x = scan_digits(chars, start);
                proof {
                    lemma_digits_all(chars@, start as int + 1);
                }
                assert(x > start);
                negative = chars[f + 1] == '-';
                exp_from = start;
            }
        }
        assert(x == exponent_end(chars@, f as int));
        let int_digits = slice_of(chars, p, d);
        let frac_digits = slice_of(chars, d + 1, f);
        let exp_digits = if x > f {
            slice_of(chars, exp_from, x)
        } else {
            Vec::new()
        };
        proof {
            lemma_digits_all(chars@, d as int + 1);
            if x > f {
                lemma_digits_all(chars@, exp_from as int);
            }
        }
        let bits = parse_decimal(&int_digits, &frac_digits, negative, &exp_digits);
        return Ok((AstNode::Float(bits), x));
    }
    match parse_integer(chars, p, d, 10) {
        Some(v) => Ok((AstNode::Number(v), d)),
        None => Err((p, Fault::NumberTooLarge)),
    }
}

/// Every character before the end of a run of digits is a digit.
pub proof fn lemma_digits_all(s: Seq<char>, from: int)
    requires
        0 <= from <= s.len(),
    ensures
        from <= digits_end(s, from) <= s.len(),
        forall|i: int| from <= i < digits_end(s, from) ==> is_digit(s[i]),
        digits_end(s, from) < s.len() ==> !is_digit(s[digits_end(s, from)]),
    decreases s.len() - from,
{
    if from < s.len() && is_digit(s[from]) {
        lemma_digits_all(s, from + 1);
    }
}

/// Executable form of [`grammar_or`].
pub fn parse_or(chars: &Vec<char>, pos: usize) -> (r: Parse<AstNode>)
    requires
        pos <= chars.len(),
    ensures
        node_step(r, grammar_or(chars@, pos as int)),
        in_bounds(r, pos, chars.len()),
    decreases chars.len() - pos, 30int,
{
    let (first, n) = match parse_and(chars, pos) {
        Err(e) => {
            return Err(e);
        },
        Ok(x) => x,
    };
    let mut acc: Vec<AstNode> = Vec::new();
    acc.push(first);
    assert(node_views(acc) =~= seq![first@]);
    let mut cur: usize = n;
    proof {
        reveal_strlit("OR");
    }
    loop
        invariant
            pos <= cur <= chars.len(),
            grammar_or(chars@, pos as int) == grammar_or_rest(chars@, cur as int, node_views(acc)),
        decreases chars.len() - cur,
    {
        let p = skip_whitespace(chars, cur);
        proof {
            reveal_strlit("OR");
        }
        if !word_at(chars, p, "OR") {
            if acc.len() == 1 {
                let ghost view = node_views(acc)[0];
                match acc.pop() {
                    Some(only) => {
                        assert(only@ == view);
                        return Ok((only, cur));
                    },
                    None => {
                        assert(false);
                    },
                }
            }
            return Ok((AstNode::Or(acc), cur));
        }
        match parse_and(chars, p + 2) {
            Err(e) => {
                return Err(e);
            },
            Ok((node, m)) => {
                let ghost before = node_views(acc);
                acc.push(node);
                assert(node_views(acc) =~= before.push(node@));
                cur = m;
            },
        }
    }
}

/// Executable form of [`grammar_and`].
pub fn parse_and(chars: &Vec<char>, pos: usize) -> (r: Parse<AstNode>)
    requires
        pos <= chars.len(),
    ensures
        node_step(r, grammar_and(chars@, pos as int)),
        in_bounds(r, pos, chars.len()),
    decreases chars.len() - pos, 28int,
{
    let (first, n) = match parse_comparison(chars, pos) {
        Err(e) => {
            return Err(e);
        },
        Ok(x) => x,
    };
    let mut acc: Vec<AstNode> = Vec::new();
    acc.push(first);
    assert(node_views(acc) =~= seq![first@]);
    let mut cur: usize = n;
    proof {
        reveal_strlit("AND");
    }
    loop
        invariant
            pos <= cur <= chars.len(),
            grammar_and(chars@, pos as int) == grammar_and_rest(
                chars@,
                cur as int,
                node_views(acc),
            ),
        decreases chars.len() - cur,
    {
        let p = skip_whitespace(chars, cur);
        proof {
            reveal_strlit("AND");
        }
        if !word_at(chars, p, "AND") {
            if acc.len() == 1 {
                let ghost view = node_views(acc)[0];
                match acc.pop() {
                    Some(only) => {
                        assert(only@ == view);
                        return Ok((only, cur));
                    },
                    None => {
                        assert(false);
                    },
                }
            }
            return Ok((AstNode::And(acc), cur));
        }
        match parse_comparison(chars, p + 3) {
            Err(e) => {
                return Err(e);
            },
            Ok((node, m)) => {
                let ghost before = node_views(acc);
                acc.push(node);
                assert(node_views(acc) =~= before.push(node@));
                cur = m;
            },
        }
    }
}

/// Executable form of [`grammar_comparison`].
pub fn parse_comparison(chars: &Vec<char>, pos: usize) -> (r: Parse<AstNode>)
    requires
        pos <= chars.len(),
    ensures
        node_step(r, grammar_comparison(chars@, pos as int)),
        in_bounds(r, pos, chars.len()),
    decreases chars.len() - pos, 26int,
{
    let (left, n) = match parse_term(chars, pos) {
        Err(e) => {
            return Err(e);
        },
        Ok(x) => x,
    };
    let p = skip_whitespace(chars, n);
    match scan_operator(chars, p) {
        None => Ok((left, n)),
        Some((op, len)) => {
            match parse_term(chars, p + len) {
                Err(e) => Err(e),
                Ok((right, m)) => Ok(
                    (AstNode::Comparison { left: Box::new(left), op, right: Box::new(right) }, m),
                ),
            }
        },
    }
}

/// Executable form of [`grammar_term`].
pub fn parse_term(chars: &Vec<char>, pos: usize) -> (r: Parse<AstNode>)
    requires
        pos <= chars.len(),
    ensures
        node_step(r, grammar_term(chars@, pos as int)),
        in_bounds(r, pos, chars.len()),
    decreases chars.len() - pos, 25int,
{
    let len = chars.len();
    let p = skip_whitespace(chars, pos);
    if p >= len {
        return Err((p, Fault::ExpectedTerm));
    }
    let c = chars[p];
    if c == '"' {
        let e = scan_string(chars, p + 1);
        if e >= len {
            return Err((p, Fault::UnclosedString));
        }
        return Ok((AstNode::String(string_of_range(chars, p + 1, e)), e + 1));
    }
    if c == '(' {
        return match parse_or(chars, p + 1) {
            Err(e) => Err(e),
            Ok((node, n)) => {
                let q = skip_whitespace(chars, n);
                if q < len && chars[q] == ')' {
                    Ok((node, q + 1))
                } else {
                    Err((q, Fault::ExpectedParen))
                }
            },
        };
    }
    if c == '[' {
        return match parse_sequence(chars, p + 1, ']') {
            Err(e) => Err(e),
            Ok((items, n)) => Ok((AstNode::ListLiteral(items), n)),
        };
    }
    if c == '{' {
        return match parse_entries(chars, p + 1) {
            Err(e) => Err(e),
            Ok((entries, n)) => Ok((AstNode::MapLiteral(entries), n)),
        };
    }
    if char_is_digit(c) {
        return parse_number_at(chars, p);
    }
    if !char_is_ident_start(c) {
        return Err((p, Fault::ExpectedTerm));
    }
    parse_word(chars, p)
}

/// Executable form of [`grammar_word`].
fn parse_word(chars: &Vec<char>, p: usize) -> (r: Parse<AstNode>)
    requires
        p < chars.len(),
        is_ident_start(chars@[p as int]),
    ensures
        node_step(r, grammar_word(chars@, p as int)),
        in_bounds(r, p, chars.len()),
    decreases chars.len() - p, 24int,
{
    let len = chars.len();
    let e = scan_ident(chars, p);
    proof {
        crate::grammar::lemma_ident_end(chars@, p as int + 1);
    }
    assert(e > p);
    let w = slice_of(chars, p, e);
    if chars_are(&w, "true") {
        return Ok((AstNode::Bool(true), e));
    }
    if chars_are(&w, "false") {
        return Ok((AstNode::Bool(false), e));
    }
    if chars_are(&w, "AND") || chars_are(&w, "OR") || chars_are(&w, "CONTAINS") || chars_are(
        &w,
        "IN",
    ) {
        return Err((p, Fault::ExpectedTerm));
    }
    let word = string_of_range(chars, p, e);
    if e < len && e + 1 < len && chars[e] == '.' && char_is_ident_start(chars[e + 1]) {
        let e2 = scan_ident(chars, e + 1);
        let field = string_of_range(chars, e + 1, e2);
        if e2 < len && chars[e2] == '(' {
            return match parse_sequence(chars, e2 + 1, ')') {
                Err(x) => Err(x),
                Ok((args, n)) => Ok(
                    (AstNode::FunctionCall { namespace: Some(word), name: field, args }, n),
                ),
            };
        }
        return Ok((AstNode::Attribute { object: word, field }, e2));
    }
    if e < len && chars[e] == '(' {
        return match parse_sequence(chars, e + 1, ')') {
            Err(x) => Err(x),
            Ok((args, n)) => Ok((AstNode::FunctionCall { namespace: None, name: word, args }, n)),
        };
    }
    Ok((AstNode::Identifier(word), e))
}

/// Executable form of [`grammar_sequence`].
pub fn parse_sequence(chars: &Vec<char>, pos: usize, close: char) -> (r: Parse<Vec<AstNode>>)
    requires
        pos <= chars.len(),
    ensures
        nodes_step(r, grammar_sequence(chars@, pos as int, close)),
        in_bounds(r, pos, chars.len()),
    decreases chars.len() - pos, 40int,
{
    let len = chars.len();
    let first = skip_whitespace(chars, pos);
    let mut acc: Vec<AstNode> = Vec::new();
    assert(node_views(acc) =~= Seq::<Ast>::empty());
    if first < len && chars[first] == close {
        return Ok((acc, first + 1));
    }
    let mut cur: usize = pos;
    loop
        invariant
            len == chars.len(),
            pos <= cur <= len,
            grammar_sequence(chars@, pos as int, close) == grammar_sequence_more(
                chars@,
                cur as int,
                close,
                node_views(acc),
            ),
        decreases len - cur,
    {
        match parse_term(chars, cur) {
            Err(e) => {
                return Err(e);
            },
            Ok((node, n)) => {
                let ghost before = node_views(acc);
                acc.push(node);
                assert(node_views(acc) =~= before.push(node@));
                let p = skip_whitespace(chars, n);
                if p < len && chars[p] == ',' {
                    cur = p + 1;
                } else if p < len && chars[p] == close {
                    return Ok((acc, p + 1));
                } else {
                    return Err(
                        (
                            p,
                            if close == ']' {
                                Fault::ExpectedListEnd
                            } else {
                                Fault::ExpectedArgumentEnd
                            },
                        ),
                    );
                }
            },
        }
    }
}

/// Executable form of [`grammar_entries`].
pub fn parse_entries(chars: &Vec<char>, pos: usize) -> (r: Parse<Vec<(String, AstNode)>>)
    requires
        pos <= chars.len(),
    ensures
        entries_step(r, grammar_entries(chars@, pos as int)),
        in_bounds(r, pos, chars.len()),
    decreases chars.len() - pos, 42int,
{
    let len = chars.len();
    let first = skip_whitespace(chars, pos);
    let mut acc: Vec<(String, AstNode)> = Vec::new();
    assert(entry_views(acc) =~= Seq::<(Seq<char>, Ast)>::empty());
    if first < len && chars[first] == '}' {
        return Ok((acc, first + 1));
    }
    let mut cur: usize = pos;
    loop
        invariant
            len == chars.len(),
            pos <= cur <= len,
            grammar_entries(chars@, pos as int) == grammar_entries_more(
                chars@,
                cur as int,
                entry_views(acc),
            ),
        decreases len - cur,
    {
        let p = skip_whitespace(chars, cur);
        if !(p < len && chars[p] == '"') {
            return Err((p, Fault::ExpectedKey));
        }
        let e = scan_string(chars, p + 1);
        if e >= len {
            return Err((p, Fault::UnclosedString));
        }
        let key = string_of_range(chars, p + 1, e);
        let c = skip_whitespace(chars, e + 1);
        if !(c < len && chars[c] == ':') {
            return Err((c, Fault::ExpectedColon));
        }
        match parse_term(chars, c + 1) {
            Err(x) => {
                return Err(x);
            },
            Ok((node, n)) => {
                let ghost before = entry_views(acc);
                let ghost entry = (key@, node@);
                acc.push((key, node));
                assert(entry_views(acc) =~= before.push(entry));
                let q = skip_whitespace(chars, n);
                if q < len && chars[q] == ',' {
                    cur = q + 1;
                } else if q < len && chars[q] == '}' {
                    return Ok((acc, q + 1));
                } else {
                    return Err((q, Fault::ExpectedMapEnd));
                }
            },
        }
    }
}

/// What a function that reads an item without building it returns: the
/// position after the item, or the position and kind of the error.
pub type Accept = Result<usize, (usize, Fault)>;

/// Whether an item was read to where the grammar ends it, or failed with
/// the error of the grammar.
pub open spec fn accepted<T>(r: Accept, g: Step<T>) -> bool {
    match (r, g) {
        (Ok(n), Ok((_, m))) => n == m,
        (Err((p, f)), Err((q, k))) => p == q && f == k,
        _ => false,
    }
}

/// Whether the positions of a result lie in a text of length `len`, the
/// next position not before `pos`.
pub open spec fn accept_bounds(r: Accept, pos: usize, len: usize) -> bool {
    match r {
        Ok(n) => pos <= n <= len,
        Err((p, _)) => p <= len,
    }
}

/// Reads a number as [`number_at`] does, without building its node.
fn accept_number_at(chars: &Vec<char>, p: usize) -> (r: Accept)
    requires
        p < chars.len(),
        is_digit(chars@[p as int]),
    ensures
        accepted(r, number_at(chars@, p as int)),
        accept_bounds(r, p, chars.len()),
{
    let len = chars.len();
    if chars[p] == '0' && p + 1 < len && (chars[p + 1] == 'x' || chars[p + 1] == 'X') {
        let h = scan_hex(chars, p + 2);
        if h <= p + 2 {
            return Err((p, Fault::BadNumber));
        }
        return match parse_integer(chars, p + 2, h, 16) {
            Some(_) => Ok(h),
            None => Err((p, Fault::NumberTooLarge)),
        };
    }
    let d = scan_digits(chars, p);
    proof {
        lemma_digits_all(chars@, p as int);
    }
    if d < len && d + 1 < len && chars[d] == '.' && char_is_digit(chars[d + 1]) {
        let f = scan_digits(chars, d + 1);
        let mut x: usize = f;
        if f < len && (chars[f] == 'e' || chars[f] == 'E') {
            let start: usize = if f + 1 < len && (chars[f + 1] == '+' || chars[f + 1] == '-') {
                f + 2
            } else {
                f + 1
            };
            if start < len && char_is_digit(chars[start]) {
                x = scan_digits(chars, start);
                proof {
                    lemma_digits_all(chars@, start as int + 1);
                }
                assert(x > start);
            }
        }
        assert(x == exponent_end(chars@, f as int));
        return Ok(x);
    }
    match parse_integer(chars, p, d, 10) {
        Some(_) => Ok(d),
        None => Err((p, Fault::NumberTooLarge)),
    }
}

/// Reads what [`grammar_or`] reads, without building its tree.
pub fn accept_or(chars: &Vec<char>, pos: usize) -> (r: Accept)
    requires
        pos <= chars.len(),
    ensures
        accepted(r, grammar_or(chars@, pos as int)),
        accept_bounds(r, pos, chars.len()),
    decreases chars.len() - pos, 30int,
{
    let n = match accept_and(chars, pos) {
        Err(e) => {
            return Err(e);
        },
        Ok(n) => n,
    };
    let ghost mut acc: Seq<Ast> = seq![grammar_and(chars@, pos as int)->Ok_0.0];
    let mut cur: usize = n;
    proof {
        reveal_strlit("OR");
    }
    loop
        invariant
            pos <= cur <= chars.len(),
            grammar_or(chars@, pos as int) == grammar_or_rest(chars@, cur as int, acc),
        decreases chars.len() - cur,
    {
        let p = skip_whitespace(chars, cur);
        proof {
            reveal_strlit("OR");
        }
        if !word_at(chars, p, "OR") {
            return Ok(cur);
        }
        match accept_and(chars, p + 2) {
            Err(e) => {
                return Err(e);
            },
            Ok(m) => {
                proof {
                    acc = acc.push(grammar_and(chars@, p as int + 2)->Ok_0.0);
                }
                cur = m;
            },
        }
    }
}

/// Reads what [`grammar_and`] reads, without building its tree.
pub fn accept_and(chars: &Vec<char>, pos: usize) -> (r: Accept)
    requires
        pos <= chars.len(),
    ensures
        accepted(r, grammar_and(chars@, pos as int)),
        accept_bounds(r, pos, chars.len()),
    decreases chars.len() - pos, 28int,
{
    let n = match accept_comparison(chars, pos) {
        Err(e) => {
            return Err(e);
        },
        Ok(n) => n,
    };
    let ghost mut acc: Seq<Ast> = seq![grammar_comparison(chars@, pos as int)->Ok_0.0];
    let mut cur: usize = n;
    proof {
        reveal_strlit("AND");
    }
    loop
        invariant
            pos <= cur <= chars.len(),
            grammar_and(chars@, pos as int) == grammar_and_rest(chars@, cur as int, acc),
        decreases chars.len() - cur,
    {
        let p = skip_whitespace(chars, cur);
        proof {
            reveal_strlit("AND");
        }
        if !word_at(chars, p, "AND") {
            return Ok(cur);
        }
        match accept_comparison(chars, p + 3) {
            Err(e) => {
                return Err(e);
            },
            Ok(m) => {
                proof {
                    acc = acc.push(grammar_comparison(chars@, p as int + 3)->Ok_0.0);
                }
                cur = m;
            },
        }
    }
}

/// Reads what [`grammar_comparison`] reads, without building its tree.
pub fn accept_comparison(chars: &Vec<char>, pos: usize) -> (r: Accept)
    requires
        pos <= chars.len(),
    ensures
        accepted(r, grammar_comparison(chars@, pos as int)),
        accept_bounds(r, pos, chars.len()),
    decreases chars.len() - pos, 26int,
{
    let n = match accept_term(chars, pos) {
        Err(e) => {
            return Err(e);
        },
        Ok(n) => n,
    };
    let p = skip_whitespace(chars, n);
    match scan_operator(chars, p) {
        None => Ok(n),
        Some((_, len)) => accept_term(chars, p + len),
    }
}

/// Reads what [`grammar_term`] reads, without building its tree.
pub fn accept_term(chars: &Vec<char>, pos: usize) -> (r: Accept)
    requires
        pos <= chars.len(),
    ensures
        accepted(r, grammar_term(chars@, pos as int)),
        accept_bounds(r, pos, chars.len()),
    decreases chars.len() - pos, 25int,
{
    let len = chars.len();
    let p = skip_whitespace(chars, pos);
    if p >= len {
        return Err((p, Fault::ExpectedTerm));
    }
    let c = chars[p];
    if c == '"' {
        let e = scan_string(chars, p + 1);
        if e >= len {
            return Err((p, Fault::UnclosedString));
        }
        return Ok(e + 1);
    }
    if c == '(' {
        return match accept_or(chars, p + 1) {
            Err(e) => Err(e),
            Ok(n) => {
                let q = skip_whitespace(chars, n);
                if q < len && chars[q] == ')' {
                    Ok(q + 1)
                } else {
                    Err((q, Fault::ExpectedParen))
                }
            },
        };
    }
    if c == '[' {
        return accept_sequence(chars, p + 1, ']');
    }
    if c == '{' {
        return accept_entries(chars, p + 1);
    }
    if char_is_digit(c) {
        return accept_number_at(chars, p);
    }
    if !char_is_ident_start(c) {
        return Err((p, Fault::ExpectedTerm));
    }
    accept_word(chars, p)
}

/// Reads what [`grammar_word`] reads, without building its node.
fn accept_word(chars: &Vec<char>, p: usize) -> (r: Accept)
    requires
        p < chars.len(),
        is_ident_start(chars@[p as int]),
    ensures
        accepted(r, grammar_word(chars@, p as int)),
        accept_bounds(r, p, chars.len()),
    decreases chars.len() - p, 24int,
{
    let len = chars.len();
    let e = scan_ident(chars, p);
    proof {
        crate::grammar::lemma_ident_end(chars@, p as int + 1);
    }
    assert(e > p);
    let w = slice_of(chars, p, e);
    if chars_are(&w, "true") {
        return Ok(e);
    }
    if chars_are(&w, "false") {
        return Ok(e);
    }
    if chars_are(&w, "AND") || chars_are(&w, "OR") || chars_are(&w, "CONTAINS") || chars_are(
        &w,
        "IN",
    ) {
        return Err((p, Fault::ExpectedTerm));
    }
    if e < len && e + 1 < len && chars[e] == '.' && char_is_ident_start(chars[e + 1]) {
        let e2 = scan_ident(chars, e + 1);
        if e2 < len && chars[e2] == '(' {
            return accept_sequence(chars, e2 + 1, ')');
        }
        return Ok(e2);
    }
    if e < len && chars[e] == '(' {
        return accept_sequence(chars, e + 1, ')');
    }
    Ok(e)
}

/// Reads what [`grammar_sequence`] reads, without building its trees.
pub fn accept_sequence(chars: &Vec<char>, pos: usize, close: char) -> (r: Accept)
    requires
        pos <= chars.len(),
    ensures
        accepted(r, grammar_sequence(chars@, pos as int, close)),
        accept_bounds(r, pos, chars.len()),
    decreases chars.len() - pos, 40int,
{
    let len = chars.len();
    let first = skip_whitespace(chars, pos);
    let ghost mut acc: Seq<Ast> = Seq::empty();
    if first < len && chars[first] == close {
        return Ok(first + 1);
    }
    let mut cur: usize = pos;
    loop
        invariant
            len == chars.len(),
            pos <= cur <= len,
            grammar_sequence(chars@, pos as int, close) == grammar_sequence_more(
                chars@,
                cur as int,
                close,
                acc,
            ),
        decreases len - cur,
    {
        match accept_term(chars, cur) {
            Err(e) => {
                return Err(e);
            },
            Ok(n) => {
                proof {
                    acc = acc.push(grammar_term(chars@, cur as int)->Ok_0.0);
                }
                let p = skip_whitespace(chars, n);
                if p < len && chars[p] == ',' {
                    cur = p + 1;
                } else if p < len && chars[p] == close {
                    return Ok(p + 1);
                } else {
                    return Err(
                        (
                            p,
                            if close == ']' {
                                Fault::ExpectedListEnd
                            } else {
                                Fault::ExpectedArgumentEnd
                            },
                        ),
                    );
                }
            },
        }
    }
}

/// Reads what [`grammar_entries`] reads, without building its trees.
pub fn accept_entries(chars: &Vec<char>, pos: usize) -> (r: Accept)
    requires
        pos <= chars.len(),
    ensures
        accepted(r, grammar_entries(chars@, pos as int)),
        accept_bounds(r, pos, chars.len()),
    decreases chars.len() - pos, 42int,
{
    let len = chars.len();
    let first = skip_whitespace(chars, pos);
    let ghost mut acc: Seq<(Seq<char>, Ast)> = Seq::empty();
    if first < len && chars[first] == '}' {
        return Ok(first + 1);
    }
    let mut cur: usize = pos;
    loop
        invariant
            len == chars.len(),
            pos <= cur <= len,
            grammar_entries(chars@, pos as int) == grammar_entries_more(chars@, cur as int, acc),
        decreases len - cur,
    {
        let p = skip_whitespace(chars, cur);
        if !(p < len && chars[p] == '"') {
            return Err((p, Fault::ExpectedKey));
        }
        let e = scan_string(chars, p + 1);
        if e >= len {
            return Err((p, Fault::UnclosedString));
        }
        let c = skip_whitespace(chars, e + 1);
        if !(c < len && chars[c] == ':') {
            return Err((c, Fault::ExpectedColon));
        }
        match accept_term(chars, c + 1) {
            Err(x) => {
                return Err(x);
            },
            Ok(n) => {
                proof {
                    acc = acc.push(
                        (
                            chars@.subrange(p as int + 1, e as int),
                            grammar_term(chars@, c as int + 1)->Ok_0.0,
                        ),
                    );
                }
                let q = skip_whitespace(chars, n);
                if q < len && chars[q] == ',' {
                    cur = q + 1;
                } else if q < len && chars[q] == '}' {
                    return Ok(q + 1);
                } else {
                    return Err((q, Fault::ExpectedMapEnd));
                }
            },
        }
    }
}

/// The message of a fault.
pub fn fault_message(f: Fault) -> (r: &'static str)
    ensures
        r@ == fault_text(f),
{
    match f {
        Fault::ExpectedTerm => "expected a term",
        Fault::UnclosedString => "string is not closed",
        Fault::ExpectedParen => "expected `)`",
        Fault::ExpectedListEnd => "expected `,` or `]`",
        Fault::ExpectedKey => "expected a string key",
        Fault::ExpectedColon => "expected `:`",
        Fault::ExpectedMapEnd => "expected `,` or `}`",
        Fault::ExpectedArgumentEnd => "expected `,` or `)`",
        Fault::BadNumber => "malformed number",
        Fault::NumberTooLarge => "integer does not fit in 64 bits",
        Fault::TrailingInput => "unexpected input after the expression",
    }
}

/// A count as a machine integer, the largest one if it does not fit.
pub open spec fn clamped(n: int) -> usize {
    if n > usize::MAX {
        usize::MAX
    } else if n < 0 {
        0
    } else {
        n as usize
    }
}

/// The line and the column of a position, both counted from 1.
pub fn line_and_column(chars: &Vec<char>, pos: usize) -> (r: (usize, usize))
    requires
        pos <= chars.len(),
    ensures
        r.0 == clamped(line_of(chars@, pos as int) as int),
        r.1 == clamped(column_of(chars@, pos as int)),
{
    let mut newlines: usize = 0;
    let mut start: usize = 0;
    let mut i: usize = 0;
    while i < pos
        invariant
            i <= pos <= chars.len(),
            newlines == newlines_before(chars@, i as int),
            newlines <= i,
            start == line_start(chars@, i as int),
            start <= i,
        decreases pos - i,
    {
        if chars[i] == '\n' {
            newlines += 1;
            start = i + 1;
        }
        i += 1;
    }
    let line = if newlines == usize::MAX {
        usize::MAX
    } else {
        newlines + 1
    };
    let column = if pos - start == usize::MAX {
        usize::MAX
    } else {
        pos - start + 1
    };
    (line, column)
}

/// The error that reports a fault at a position of the text.
pub open spec fn syntax_error(s: Seq<char>, pos: int, fault: Fault) -> HelErrorView {
    HelErrorView {
        message: fault_text(fault),
        line: Some(clamped(line_of(s, pos) as int)),
        column: Some(clamped(column_of(s, pos))),
        kind: ErrorKind::ParseError,
    }
}

/// What parsing a rule text gives: its tree, or the error at the first
/// violation of the grammar.
pub open spec fn parsed(s: Seq<char>) -> Result<Ast, HelErrorView> {
    match grammar_expression(s) {
        Ok(ast) => Ok(ast),
        Err((pos, fault)) => Err(syntax_error(s, pos, fault)),
    }
}

/// Whether a result of the parser is what [`parsed`] gives.
pub open spec fn parse_result_is(r: Result<AstNode, HelError>, g: Result<Ast, HelErrorView>) -> bool {
    match (r, g) {
        (Ok(node), Ok(ast)) => node@ == ast,
        (Err(e), Err(v)) => e@ == v,
        _ => false,
    }
}

/// Parses the characters of a rule text.
pub fn parse_chars(chars: &Vec<char>) -> (r: Result<AstNode, HelError>)
    ensures
        parse_result_is(r, parsed(chars@)),
{
    let found = match parse_or(chars, 0) {
        Err(e) => Err(e),
        Ok((node, n)) => {
            let p = skip_whitespace(chars, n);
            if p >= chars.len() {
                Ok(node)
            } else {
                Err((p, Fault::TrailingInput))
            }
        },
    };
    match found {
        Ok(node) => Ok(node),
        Err((pos, fault)) => {
            let (line, column) = line_and_column(chars, pos);
            Err(HelError::parse_error_at(fault_message(fault).to_owned(), line, column))
        },
    }
}

/// Parses a rule text into its tree, or reports the first syntax error
/// with its line and column.
pub fn parse_expression(expr: &str) -> (r: Result<Expression, HelError>)
    ensures
        parse_result_is(r, parsed(expr@)),
{
    let chars = chars_of(expr);
    parse_chars(&chars)
}

/// Checks the syntax of a rule text without building its tree: succeeds
/// exactly when [`parse_expression`] does, and fails with the same error.
pub fn validate_expression(expr: &str) -> (r: Result<(), HelError>)
    ensures
        match (r, parsed(expr@)) {
            (Ok(_), Ok(_)) => true,
            (Err(e), Err(v)) => e@ == v,
            _ => false,
        },
{
    let chars = chars_of(expr);
    let found = match accept_or(&chars, 0) {
        Err(e) => Err(e),
        Ok(n) => {
            let p = skip_whitespace(&chars, n);
            if p >= chars.len() {
                Ok(())
            } else {
                Err((p, Fault::TrailingInput))
            }
        },
    };
    match found {
        Ok(()) => Ok(()),
        Err((pos, fault)) => {
            let (line, column) = line_and_column(&chars, pos);
            Err(HelError::parse_error_at(fault_message(fault).to_owned(), line, column))
        },
    }
}

/// Parses a rule text that is known to be an expression.
pub fn parse_rule(input: &str) -> (r: AstNode)
    requires
        grammar_expression(input@) is Ok,
    ensures
        Ok::<Ast, (int, Fault)>(r@) == grammar_expression(input@),
{
    match parse_expression(input) {
        Ok(node) => node,
        Err(_) => {
            assert(false);
            AstNode::Bool(false)
        },
    }
}

} // verus!
