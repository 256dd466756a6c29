//! DQL parser: turns the token stream of the lexer into a query.
//!
//! The grammar is stated by the spec functions below, over token views and
//! positions: each returns what it parsed with the position after it, or
//! the error message. A position past the end reads as `Eof`. Expressions
//! bind, from loosest to tightest: `OR`, `AND`, comparisons, `+ -`,
//! `* /`, `NOT`, primaries; binary operators group to the left.
//!
//! Positions only move forward, which the parser functions prove; the
//! grammar's loops check it where they recurse, so that each rule is a
//! total definition.

use vstd::prelude::*;
use vstd::string::StringExecFns;
use crate::dql_ast::{
    Query, QueryView, SelectQuery, SelectView, FromClause, TraverseClause, TraversePattern, PatternView,
    Direction, WhereClause, Expression, ExprView, PropertyRef, Literal, LiteralView, SelectClause,
    SelectField, OrderByClause, OrderByField, InsertQuery, UpdateQuery, DeleteQuery, CreateQuery,
    opt_text, patterns_view, select_fields_view, order_fields_view, named_literals_view,
    named_exprs_view,
};
use crate::dql_lexer::{Lexer, Token, TokenView, token_views, lex_all};
use crate::text::{
    chars_of, concat2, concat3, debug_str, debug_str_text, i64_text, signed_decimal, string_from_chars,
};

verus! {

/// What a grammar rule gives: the value parsed and the position after it,
/// or an error message.
pub type Parsed<X> = Result<(X, int), Seq<char>>;

// ---------------------------------------------------------------------
// Tokens
// ---------------------------------------------------------------------

/// The place of the first `.` at or after `i`; the length where there is
/// none.
pub open spec fn dot_index(t: Seq<char>, i: int) -> int
    decreases t.len() - i,
{
    if i < 0 || i >= t.len() {
        t.len() as int
    } else if t[i] == '.' {
        i
    } else {
        dot_index(t, i + 1)
    }
}

/// The digits without their leading zeros.
pub open spec fn no_leading_zeros(s: Seq<char>) -> Seq<char>
    decreases s.len(),
{
    if s.len() > 0 && s[0] == '0' {
        no_leading_zeros(s.drop_first())
    } else {
        s
    }
}

/// The digits without their trailing zeros.
pub open spec fn no_trailing_zeros(s: Seq<char>) -> Seq<char>
    decreases s.len(),
{
    if s.len() > 0 && s.last() == '0' {
        no_trailing_zeros(s.drop_last())
    } else {
        s
    }
}

/// The digits, or a single zero where there are none.
pub open spec fn or_zero(s: Seq<char>) -> Seq<char> {
    if s.len() == 0 {
        seq!['0']
    } else {
        s
    }
}

/// The text of a float literal (digits around a dot) as `f64`'s `Debug`
/// writes the number: whole part without leading zeros, fraction without
/// trailing zeros, each at least one digit. It is that text exactly for
/// literals of at most 15 significant digits whose value is zero or lies
/// between 1e-4 and 1e16.
pub open spec fn float_debug(t: Seq<char>) -> Seq<char> {
    let p = dot_index(t, 0);
    let frac = if p < t.len() {
        t.skip(p + 1)
    } else {
        Seq::empty()
    };
    or_zero(no_leading_zeros(t.take(p))) + seq!['.'] + or_zero(no_trailing_zeros(frac))
}

/// The text of a token as `Debug` writes it.
pub open spec fn token_debug(t: TokenView) -> Seq<char> {
    match t {
        TokenView::From => "From"@,
        TokenView::Where => "Where"@,
        TokenView::Select => "Select"@,
        TokenView::Traverse => "Traverse"@,
        TokenView::Create => "Create"@,
        TokenView::Update => "Update"@,
        TokenView::Delete => "Delete"@,
        TokenView::SetKeyword => "Set"@,
        TokenView::Insert => "Insert"@,
        TokenView::Into => "Into"@,
        TokenView::Values => "Values"@,
        TokenView::And => "And"@,
        TokenView::Or => "Or"@,
        TokenView::Not => "Not"@,
        TokenView::As => "As"@,
        TokenView::Limit => "Limit"@,
        TokenView::Offset => "Offset"@,
        TokenView::OrderBy => "OrderBy"@,
        TokenView::Asc => "Asc"@,
        TokenView::Desc => "Desc"@,
        TokenView::True => "True"@,
        TokenView::False => "False"@,
        TokenView::Null => "Null"@,
        TokenView::Equal => "Equal"@,
        TokenView::NotEqual => "NotEqual"@,
        TokenView::LessThan => "LessThan"@,
        TokenView::LessThanEq => "LessThanEq"@,
        TokenView::GreaterThan => "GreaterThan"@,
        TokenView::GreaterThanEq => "GreaterThanEq"@,
        TokenView::Plus => "Plus"@,
        TokenView::Minus => "Minus"@,
        TokenView::Star => "Star"@,
        TokenView::Slash => "Slash"@,
        TokenView::Dot => "Dot"@,
        TokenView::Comma => "Comma"@,
        TokenView::Semicolon => "Semicolon"@,
        TokenView::Colon => "Colon"@,
        TokenView::Arrow => "Arrow"@,
        TokenView::LeftArrow => "LeftArrow"@,
        TokenView::BiArrow => "BiArrow"@,
        TokenView::LeftParen => "LeftParen"@,
        TokenView::RightParen => "RightParen"@,
        TokenView::LeftBracket => "LeftBracket"@,
        TokenView::RightBracket => "RightBracket"@,
        TokenView::LeftBrace => "LeftBrace"@,
        TokenView::RightBrace => "RightBrace"@,
        TokenView::Eof => "Eof"@,
        TokenView::Identifier(s) => "Identifier("@ + debug_str(s) + ")"@,
        TokenView::String(s) => "String("@ + debug_str(s) + ")"@,
        TokenView::Integer(n) => "Integer("@ + signed_decimal(n as int) + ")"@,
        TokenView::Float(s) => "Float("@ + float_debug(s) + ")"@,
    }
}

/// The text of a float literal as `f64`'s `Debug` writes it (see
/// `float_debug`).
fn float_debug_text(t: &str) -> (r: String)
    ensures
        r@ == float_debug(t@),
{
    let cs = chars_of(t);
    let ghost s = cs@;
    let mut p: usize = 0;
    while p < cs.len() && cs[p] != '.'
        invariant
            s == cs@,
            p <= cs.len(),
            dot_index(s, 0) == dot_index(s, p as int),
        decreases cs.len() - p,
    {
        p = p + 1;
    }
    // The whole part from its first nonzero digit.
    let ghost whole = s.take(p as int);
    let mut a: usize = 0;
    assert(whole.skip(0) =~= whole);
    while a < p && cs[a] == '0'
        invariant
            s == cs@,
            p <= cs.len(),
            whole == s.take(p as int),
            a <= p,
            no_leading_zeros(whole) == no_leading_zeros(whole.skip(a as int)),
        decreases p - a,
    {
        assert(whole.skip(a as int).drop_first() =~= whole.skip(a + 1));
        a = a + 1;
    }
    // The fraction up to its last nonzero digit.
    let start: usize = if p < cs.len() { p + 1 } else { cs.len() };
    let ghost frac = s.subrange(start as int, s.len() as int);
    let mut b: usize = cs.len();
    assert(frac.take(frac.len() as int) =~= frac);
    while b > start && cs[b - 1] == '0'
        invariant
            s == cs@,
            start <= b <= cs.len(),
            frac == s.subrange(start as int, s.len() as int),
            no_trailing_zeros(frac) == no_trailing_zeros(frac.take(b - start)),
        decreases b,
    {
        assert(frac.take(b - start).drop_last() =~= frac.take(b - 1 - start));
        b = b - 1;
    }
    let mut v: Vec<char> = Vec::new();
    if a == p {
        v.push('0');
    }
    let mut k: usize = a;
    let ghost v0 = v@;
    while k < p
        invariant
            s == cs@,
            a <= k <= p <= cs.len(),
            v@ == v0 + s.subrange(a as int, k as int),
        decreases p - k,
    {
        v.push(cs[k]);
        k = k + 1;
        assert(v@ =~= v0 + s.subrange(a as int, k as int));
    }
    v.push('.');
    if b == start {
        v.push('0');
    }
    let ghost v1 = v@;
    let mut k: usize = start;
    while k < b
        invariant
            s == cs@,
            start <= k <= b <= cs.len(),
            v@ == v1 + s.subrange(start as int, k as int),
        decreases b - k,
    {
        v.push(cs[k]);
        k = k + 1;
        assert(v@ =~= v1 + s.subrange(start as int, k as int));
    }
    proof {
        let wl = whole.skip(a as int);
        assert(wl =~= s.subrange(a as int, p as int));
        if a < p {
            assert(wl[0] != '0');
        }
        assert(no_leading_zeros(wl) == wl);
        let ft = frac.take(b - start);
        assert(ft =~= s.subrange(start as int, b as int));
        if b > start {
            assert(ft.last() != '0');
        }
        assert(no_trailing_zeros(ft) == ft);
        assert(frac =~= (if p < s.len() { s.skip(p + 1) } else { Seq::<char>::empty() }));
        assert(v@ =~= float_debug(s));
    }
    string_from_chars(&v)
}

/// The text of a token as `Debug` writes it.
fn token_text(t: &Token) -> (s: String)
    ensures
        s@ == token_debug(t@),
{
    match t {
        Token::From => String::from_str("From"),
        Token::Where => String::from_str("Where"),
        Token::Select => String::from_str("Select"),
        Token::Traverse => String::from_str("Traverse"),
        Token::Create => String::from_str("Create"),
        Token::Update => String::from_str("Update"),
        Token::Delete => String::from_str("Delete"),
        Token::SetKeyword => String::from_str("Set"),
        Token::Insert => String::from_str("Insert"),
        Token::Into => String::from_str("Into"),
        Token::Values => String::from_str("Values"),
        Token::And => String::from_str("And"),
        Token::Or => String::from_str("Or"),
        Token::Not => String::from_str("Not"),
        Token::As => String::from_str("As"),
        Token::Limit => String::from_str("Limit"),
        Token::Offset => String::from_str("Offset"),
        Token::OrderBy => String::from_str("OrderBy"),
        Token::Asc => String::from_str("Asc"),
        Token::Desc => String::from_str("Desc"),
        Token::True => String::from_str("True"),
        Token::False => String::from_str("False"),
        Token::Null => String::from_str("Null"),
        Token::Equal => String::from_str("Equal"),
        Token::NotEqual => String::from_str("NotEqual"),
        Token::LessThan => String::from_str("LessThan"),
        Token::LessThanEq => String::from_str("LessThanEq"),
        Token::GreaterThan => String::from_str("GreaterThan"),
        Token::GreaterThanEq => String::from_str("GreaterThanEq"),
        Token::Plus => String::from_str("Plus"),
        Token::Minus => String::from_str("Minus"),
        Token::Star => String::from_str("Star"),
        Token::Slash => String::from_str("Slash"),
        Token::Dot => String::from_str("Dot"),
        Token::Comma => String::from_str("Comma"),
        Token::Semicolon => String::from_str("Semicolon"),
        Token::Colon => String::from_str("Colon"),
        Token::Arrow => String::from_str("Arrow"),
        Token::LeftArrow => String::from_str("LeftArrow"),
        Token::BiArrow => String::from_str("BiArrow"),
        Token::LeftParen => String::from_str("LeftParen"),
        Token::RightParen => String::from_str("RightParen"),
        Token::LeftBracket => String::from_str("LeftBracket"),
        Token::RightBracket => String::from_str("RightBracket"),
        Token::LeftBrace => String::from_str("LeftBrace"),
        Token::RightBrace => String::from_str("RightBrace"),
        Token::Eof => String::from_str("Eof"),
        Token::Identifier(x) => concat3("Identifier(", debug_str_text(x.as_str()).as_str(), ")"),
        Token::String(x) => concat3("String(", debug_str_text(x.as_str()).as_str(), ")"),
        Token::Integer(n) => concat3("Integer(", i64_text(*n).as_str(), ")"),
        Token::Float(x) => concat3("Float(", float_debug_text(x.as_str()).as_str(), ")"),
    }
}

/// The token at position `p`; `Eof` past the end.
pub open spec fn cur(t: Seq<TokenView>, p: int) -> TokenView {
    if 0 <= p < t.len() {
        t[p]
    } else {
        TokenView::Eof
    }
}

/// The token after position `p`, if there is one.
pub open spec fn peek_at(t: Seq<TokenView>, p: int) -> Option<TokenView> {
    if 0 <= p + 1 < t.len() {
        Some(t[p + 1])
    } else {
        None
    }
}

/// The position after consuming the token at `p` (none past the end).
pub open spec fn adv(t: Seq<TokenView>, p: int) -> int {
    if p < t.len() {
        p + 1
    } else {
        p
    }
}

/// The variant of a token, as a number.
#[verifier::opaque]
pub open spec fn kind_of(t: TokenView) -> int {
    match t {
        TokenView::From => 0,
        TokenView::Where => 1,
        TokenView::Select => 2,
        TokenView::Traverse => 3,
        TokenView::Create => 4,
        TokenView::Update => 5,
        TokenView::Delete => 6,
        TokenView::SetKeyword => 7,
        TokenView::Insert => 8,
        TokenView::Into => 9,
        TokenView::Values => 10,
        TokenView::And => 11,
        TokenView::Or => 12,
        TokenView::Not => 13,
        TokenView::As => 14,
        TokenView::Limit => 15,
        TokenView::Offset => 16,
        TokenView::OrderBy => 17,
        TokenView::Asc => 18,
        TokenView::Desc => 19,
        TokenView::Identifier(_) => 20,
        TokenView::String(_) => 21,
        TokenView::Integer(_) => 22,
        TokenView::Float(_) => 23,
        TokenView::True => 24,
        TokenView::False => 25,
        TokenView::Null => 26,
        TokenView::Equal => 27,
        TokenView::NotEqual => 28,
        TokenView::LessThan => 29,
        TokenView::LessThanEq => 30,
        TokenView::GreaterThan => 31,
        TokenView::GreaterThanEq => 32,
        TokenView::Plus => 33,
        TokenView::Minus => 34,
        TokenView::Star => 35,
        TokenView::Slash => 36,
        TokenView::Dot => 37,
        TokenView::Comma => 38,
        TokenView::Semicolon => 39,
        TokenView::Colon => 40,
        TokenView::Arrow => 41,
        TokenView::LeftArrow => 42,
        TokenView::BiArrow => 43,
        TokenView::LeftParen => 44,
        TokenView::RightParen => 45,
        TokenView::LeftBracket => 46,
        TokenView::RightBracket => 47,
        TokenView::LeftBrace => 48,
        TokenView::RightBrace => 49,
        TokenView::Eof => 50,
    }
}

/// "Expected `e`, got `c`".
pub open spec fn expected_msg(e: TokenView, c: TokenView) -> Seq<char> {
    "Expected "@ + token_debug(e) + ", got "@ + token_debug(c)
}

/// The message of a rule that made no progress (never given: see the
/// module's documentation).
pub open spec fn stalled_msg() -> Seq<char> {
    "parser made no progress"@
}

/// A token without payload (not an identifier, string or number), so that
/// its variant is the token itself.
pub open spec fn plain(t: TokenView) -> bool {
    !(t is Identifier || t is String || t is Integer || t is Float)
}

/// Consume the token `e` (one without payload).
pub open spec fn p_expect(t: Seq<TokenView>, p: int, e: TokenView) -> Result<int, Seq<char>> {
    if cur(t, p) == e {
        Ok(adv(t, p))
    } else {
        Err(expected_msg(e, cur(t, p)))
    }
}

/// An identifier.
pub open spec fn p_identifier(t: Seq<TokenView>, p: int) -> Parsed<Seq<char>> {
    match cur(t, p) {
        TokenView::Identifier(n) => Ok((n, adv(t, p))),
        c => Err("Expected identifier, got "@ + token_debug(c)),
    }
}

/// An integer.
pub open spec fn p_integer(t: Seq<TokenView>, p: int) -> Parsed<i64> {
    match cur(t, p) {
        TokenView::Integer(n) => Ok((n, adv(t, p))),
        c => Err("Expected integer, got "@ + token_debug(c)),
    }
}

/// The literal a token stands for, if it is one.
pub open spec fn literal_of(c: TokenView) -> Option<LiteralView> {
    match c {
        TokenView::Integer(n) => Some(LiteralView::Integer(n)),
        TokenView::Float(f) => Some(LiteralView::Float(f)),
        TokenView::String(s) => Some(LiteralView::String(s)),
        TokenView::True => Some(LiteralView::Bool(true)),
        TokenView::False => Some(LiteralView::Bool(false)),
        TokenView::Null => Some(LiteralView::Null),
        _ => None,
    }
}

/// A literal.
pub open spec fn p_literal(t: Seq<TokenView>, p: int) -> Parsed<LiteralView> {
    match literal_of(cur(t, p)) {
        Some(l) => Ok((l, adv(t, p))),
        None => Err("Expected literal, got "@ + token_debug(cur(t, p))),
    }
}

// ---------------------------------------------------------------------
// Expressions
// ---------------------------------------------------------------------

/// A property (`name` or `entity.property`), a literal, or a
/// parenthesised expression.
pub open spec fn p_primary(t: Seq<TokenView>, p: int) -> Parsed<ExprView>
    decreases (t.len() - p) as nat, 0nat,
{
    match cur(t, p) {
        TokenView::Identifier(name) => {
            let q = adv(t, p);
            if cur(t, q) is Dot {
                match p_identifier(t, adv(t, q)) {
                    Ok((property, q2)) => Ok((ExprView::Property(Some(name), property), q2)),
                    Err(m) => Err(m),
                }
            } else {
                Ok((ExprView::Property(None, name), q))
            }
        },
        TokenView::LeftParen => {
            match p_or(t, p + 1) {
                Ok((e, q)) => match p_expect(t, q, TokenView::RightParen) {
                    Ok(q2) => Ok((e, q2)),
                    Err(m) => Err(m),
                },
                Err(m) => Err(m),
            }
        },
        c => match literal_of(c) {
            Some(l) => Ok((ExprView::Literal(l), adv(t, p))),
            None => Err("Unexpected token in expression: "@ + token_debug(c)),
        },
    }
}

/// `NOT`s before a primary.
pub open spec fn p_unary(t: Seq<TokenView>, p: int) -> Parsed<ExprView>
    decreases (t.len() - p) as nat, 1nat,
{
    if cur(t, p) is Not {
        match p_unary(t, p + 1) {
            Ok((e, q)) => Ok((ExprView::Not(Box::new(e)), q)),
            Err(m) => Err(m),
        }
    } else {
        p_primary(t, p)
    }
}

/// After `left`, ending at `q`: more `* unary` or `/ unary`.
pub open spec fn mul_rest(t: Seq<TokenView>, left: ExprView, q: int) -> Parsed<ExprView>
    decreases (t.len() - q) as nat, 2nat,
{
    match cur(t, q) {
        TokenView::Star => match p_unary(t, q + 1) {
            Ok((r, q2)) => if q < q2 <= t.len() {
                mul_rest(t, ExprView::Multiply(Box::new(left), Box::new(r)), q2)
            } else {
                Err(stalled_msg())
            },
            Err(m) => Err(m),
        },
        TokenView::Slash => match p_unary(t, q + 1) {
            Ok((r, q2)) => if q < q2 <= t.len() {
                mul_rest(t, ExprView::Divide(Box::new(left), Box::new(r)), q2)
            } else {
                Err(stalled_msg())
            },
            Err(m) => Err(m),
        },
        _ => Ok((left, q)),
    }
}

/// Unary expressions joined by `*` and `/`.
pub open spec fn p_mul(t: Seq<TokenView>, p: int) -> Parsed<ExprView>
    decreases (t.len() - p) as nat, 3nat,
{
    match p_unary(t, p) {
        Ok((l, q)) => if p < q <= t.len() {
            mul_rest(t, l, q)
        } else {
            Err(stalled_msg())
        },
        Err(m) => Err(m),
    }
}

/// After `left`, ending at `q`: more `+ mul` or `- mul`.
pub open spec fn add_rest(t: Seq<TokenView>, left: ExprView, q: int) -> Parsed<ExprView>
    decreases (t.len() - q) as nat, 4nat,
{
    match cur(t, q) {
        TokenView::Plus => match p_mul(t, q + 1) {
            Ok((r, q2)) => if q < q2 <= t.len() {
                add_rest(t, ExprView::Add(Box::new(left), Box::new(r)), q2)
            } else {
                Err(stalled_msg())
            },
            Err(m) => Err(m),
        },
        TokenView::Minus => match p_mul(t, q + 1) {
            Ok((r, q2)) => if q < q2 <= t.len() {
                add_rest(t, ExprView::Subtract(Box::new(left), Box::new(r)), q2)
            } else {
                Err(stalled_msg())
            },
            Err(m) => Err(m),
        },
        _ => Ok((left, q)),
    }
}

/// Multiplicative expressions joined by `+` and `-`.
pub open spec fn p_add(t: Seq<TokenView>, p: int) -> Parsed<ExprView>
    decreases (t.len() - p) as nat, 5nat,
{
    match p_mul(t, p) {
        Ok((l, q)) => if p < q <= t.len() {
            add_rest(t, l, q)
        } else {
            Err(stalled_msg())
        },
        Err(m) => Err(m),
    }
}

/// The comparison a token stands for, applied to two operands.
pub open spec fn comparison(c: TokenView, l: ExprView, r: ExprView) -> ExprView {
    match c {
        TokenView::Equal => ExprView::Equal(Box::new(l), Box::new(r)),
        TokenView::NotEqual => ExprView::NotEqual(Box::new(l), Box::new(r)),
        TokenView::LessThan => ExprView::LessThan(Box::new(l), Box::new(r)),
        TokenView::LessThanEq => ExprView::LessThanEq(Box::new(l), Box::new(r)),
        TokenView::GreaterThan => ExprView::GreaterThan(Box::new(l), Box::new(r)),
        _ => ExprView::GreaterThanEq(Box::new(l), Box::new(r)),
    }
}

/// The token is one of `= != < <= > >=`.
pub open spec fn is_comparison(c: TokenView) -> bool {
    c is Equal || c is NotEqual || c is LessThan || c is LessThanEq || c is GreaterThan || c is GreaterThanEq
}

/// After `left`, ending at `q`: more comparisons with additive operands.
pub open spec fn comparison_rest(t: Seq<TokenView>, left: ExprView, q: int) -> Parsed<ExprView>
    decreases (t.len() - q) as nat, 6nat,
{
    if is_comparison(cur(t, q)) {
        match p_add(t, q + 1) {
            Ok((r, q2)) => if q < q2 <= t.len() {
                comparison_rest(t, comparison(cur(t, q), left, r), q2)
            } else {
                Err(stalled_msg())
            },
            Err(m) => Err(m),
        }
    } else {
        Ok((left, q))
    }
}

/// Additive expressions joined by comparisons.
pub open spec fn p_comparison(t: Seq<TokenView>, p: int) -> Parsed<ExprView>
    decreases (t.len() - p) as nat, 7nat,
{
    match p_add(t, p) {
        Ok((l, q)) => if p < q <= t.len() {
            comparison_rest(t, l, q)
        } else {
            Err(stalled_msg())
        },
        Err(m) => Err(m),
    }
}

/// After `left`, ending at `q`: more `AND comparison`.
pub open spec fn and_rest(t: Seq<TokenView>, left: ExprView, q: int) -> Parsed<ExprView>
    decreases (t.len() - q) as nat, 8nat,
{
    if cur(t, q) is And {
        match p_comparison(t, q + 1) {
            Ok((r, q2)) => if q < q2 <= t.len() {
                and_rest(t, ExprView::And(Box::new(left), Box::new(r)), q2)
            } else {
                Err(stalled_msg())
            },
            Err(m) => Err(m),
        }
    } else {
        Ok((left, q))
    }
}

/// Comparisons joined by `AND`.
pub open spec fn p_and(t: Seq<TokenView>, p: int) -> Parsed<ExprView>
    decreases (t.len() - p) as nat, 9nat,
{
    match p_comparison(t, p) {
        Ok((l, q)) => if p < q <= t.len() {
            and_rest(t, l, q)
        } else {
            Err(stalled_msg())
        },
        Err(m) => Err(m),
    }
}

/// After `left`, ending at `q`: more `OR conjunction`.
pub open spec fn or_rest(t: Seq<TokenView>, left: ExprView, q: int) -> Parsed<ExprView>
    decreases (t.len() - q) as nat, 10nat,
{
    if cur(t, q) is Or {
        match p_and(t, q + 1) {
            Ok((r, q2)) => if q < q2 <= t.len() {
                or_rest(t, ExprView::Or(Box::new(left), Box::new(r)), q2)
            } else {
                Err(stalled_msg())
            },
            Err(m) => Err(m),
        }
    } else {
        Ok((left, q))
    }
}

/// An expression: conjunctions joined by `OR`.
#[verifier::opaque]
pub open spec fn p_or(t: Seq<TokenView>, p: int) -> Parsed<ExprView>
    decreases (t.len() - p) as nat, 11nat,
{
    match p_and(t, p) {
        Ok((l, q)) => if p < q <= t.len() {
            or_rest(t, l, q)
        } else {
            Err(stalled_msg())
        },
        Err(m) => Err(m),
    }
}

// ---------------------------------------------------------------------
// Clauses and queries
// ---------------------------------------------------------------------

/// Continue with `f` after a successful rule.
pub open spec fn then<X, Y>(r: Parsed<X>, f: spec_fn(X, int) -> Parsed<Y>) -> Parsed<Y> {
    match r {
        Ok((x, q)) => f(x, q),
        Err(m) => Err(m),
    }
}

/// Continue with `f` after a consumed token.
pub open spec fn after<Y>(r: Result<int, Seq<char>>, f: spec_fn(int) -> Parsed<Y>) -> Parsed<Y> {
    match r {
        Ok(q) => f(q),
        Err(m) => Err(m),
    }
}

/// An optional clause: `rule` where the token at `p` is `k`, else nothing.
pub open spec fn optional<X>(t: Seq<TokenView>, p: int, k: TokenView, rule: Parsed<X>) -> Parsed<Option<X>> {
    if cur(t, p) == k {
        then(rule, |x: X, q: int| Ok((Some(x), q)))
    } else {
        Ok((None, p))
    }
}

/// FROM clause: the collection and its alias (after `AS`, or a bare
/// identifier).
pub open spec fn p_from(t: Seq<TokenView>, p: int) -> Parsed<(Seq<char>, Option<Seq<char>>)> {
    after(
        p_expect(t, p, TokenView::From),
        |q: int|
            then(
                p_identifier(t, q),
                |collection: Seq<char>, q2: int|
                    if cur(t, q2) is As {
                        then(p_identifier(t, adv(t, q2)), |a: Seq<char>, q3: int| Ok(((collection, Some(a)), q3)))
                    } else if cur(t, q2) is Identifier {
                        then(p_identifier(t, q2), |a: Seq<char>, q3: int| Ok(((collection, Some(a)), q3)))
                    } else {
                        Ok(((collection, None), q2))
                    },
            ),
    )
}

/// The direction of a pattern: `-` before `[` or `->`, `<-`, or `<->`.
pub open spec fn p_direction(t: Seq<TokenView>, p: int) -> Parsed<Direction> {
    let c = cur(t, p);
    if c is Minus && (peek_at(t, p) == Some(TokenView::LeftBracket) || peek_at(t, p) == Some(TokenView::Arrow)) {
        Ok((Direction::Outgoing, adv(t, p)))
    } else if c is LeftArrow {
        Ok((Direction::Incoming, adv(t, p)))
    } else if c is BiArrow {
        Ok((Direction::Both, adv(t, p)))
    } else {
        Err("Expected edge direction, got "@ + token_debug(c))
    }
}

/// An optional integer, as a count of hops, or `default`.
pub open spec fn hops_or(t: Seq<TokenView>, p: int, default: usize) -> (usize, int) {
    match cur(t, p) {
        TokenView::Integer(n) => (n as usize, adv(t, p)),
        _ => (default, p),
    }
}

/// The hop range after an edge type: `*min..max` (each bound optional:
/// `min` is 1 by default, `max` is `min` without `.`, unbounded after `.`
/// or `..` without a number), or exactly one hop.
pub open spec fn p_hops(t: Seq<TokenView>, p: int) -> (usize, usize, int) {
    if cur(t, p) is Star {
        let (min, q) = hops_or(t, adv(t, p), 1);
        if cur(t, q) is Dot {
            let q1 = adv(t, q);
            let q2 = if cur(t, q1) is Dot { adv(t, q1) } else { q1 };
            let (max, q3) = hops_or(t, q2, usize::MAX);
            (min, max, q3)
        } else {
            (min, min, q)
        }
    } else {
        (1, 1, p)
    }
}

/// The bracket of a pattern: `[` `:`? type? hops `]`; without a bracket,
/// any edge type and exactly one hop.
pub open spec fn p_edge(t: Seq<TokenView>, p: int) -> Parsed<(Option<Seq<char>>, usize, usize)> {
    if cur(t, p) is LeftBracket {
        let q1 = adv(t, p);
        let q2 = if cur(t, q1) is Colon { adv(t, q1) } else { q1 };
        let (edge_type, q3) = match cur(t, q2) {
            TokenView::Identifier(n) => (Some(n), adv(t, q2)),
            _ => (None, q2),
        };
        let (min, max, q4) = p_hops(t, q3);
        after(p_expect(t, q4, TokenView::RightBracket), |q5: int| Ok(((edge_type, min, max), q5)))
    } else {
        Ok(((None, 1, 1), p))
    }
}

/// A traverse pattern: direction, bracket, the `->` of an outgoing edge,
/// and the target alias if an identifier follows.
pub open spec fn p_pattern(t: Seq<TokenView>, p: int) -> Parsed<PatternView> {
    then(
        p_direction(t, p),
        |direction: Direction, q: int|
            then(
                p_edge(t, q),
                |e: (Option<Seq<char>>, usize, usize), q2: int|
                    {
                        let q3 = if direction == Direction::Outgoing && cur(t, q2) is Arrow {
                            adv(t, q2)
                        } else {
                            q2
                        };
                        let (target_alias, q4) = match cur(t, q3) {
                            TokenView::Identifier(n) => (Some(n), adv(t, q3)),
                            _ => (None, q3),
                        };
                        Ok(
                            (
                                PatternView {
                                    direction,
                                    edge_type: e.0,
                                    target_alias,
                                    min_hops: e.1,
                                    max_hops: e.2,
                                },
                                q4,
                            ),
                        )
                    },
            ),
    )
}

/// Comma-separated patterns, up to `WHERE`, `SELECT` or the end.
pub open spec fn p_patterns(t: Seq<TokenView>, p: int) -> Parsed<Seq<PatternView>>
    decreases (t.len() - p) as nat,
{
    let c = cur(t, p);
    if c is Where || c is Select || c is Eof {
        Ok((Seq::empty(), p))
    } else {
        match p_pattern(t, p) {
            Ok((pat, q)) => if cur(t, q) is Comma {
                if p < adv(t, q) <= t.len() {
                    match p_patterns(t, adv(t, q)) {
                        Ok((rest, q2)) => Ok((seq![pat] + rest, q2)),
                        Err(m) => Err(m),
                    }
                } else {
                    Err(stalled_msg())
                }
            } else {
                Ok((seq![pat], q))
            },
            Err(m) => Err(m),
        }
    }
}

/// TRAVERSE clause: at least one pattern.
pub open spec fn p_traverse(t: Seq<TokenView>, p: int) -> Parsed<Seq<PatternView>> {
    after(
        p_expect(t, p, TokenView::Traverse),
        |q: int|
            then(
                p_patterns(t, q),
                |ps: Seq<PatternView>, q2: int|
                    if ps.len() == 0 {
                        Err("TRAVERSE requires at least one pattern"@)
                    } else {
                        Ok((ps, q2))
                    },
            ),
    )
}

/// WHERE clause.
pub open spec fn p_where(t: Seq<TokenView>, p: int) -> Parsed<ExprView> {
    after(p_expect(t, p, TokenView::Where), |q: int| p_or(t, q))
}

/// An optional `AS alias`.
pub open spec fn p_alias(t: Seq<TokenView>, p: int) -> Parsed<Option<Seq<char>>> {
    if cur(t, p) is As {
        then(p_identifier(t, adv(t, p)), |a: Seq<char>, q: int| Ok((Some(a), q)))
    } else {
        Ok((None, p))
    }
}

/// Comma-separated SELECT fields, each an expression with an optional
/// alias.
pub open spec fn p_fields(t: Seq<TokenView>, p: int) -> Parsed<Seq<(ExprView, Option<Seq<char>>)>>
    decreases (t.len() - p) as nat,
{
    match p_or(t, p) {
        Ok((e, q)) => match p_alias(t, q) {
            Ok((alias, q2)) => if cur(t, q2) is Comma {
                if p < adv(t, q2) <= t.len() {
                    match p_fields(t, adv(t, q2)) {
                        Ok((rest, q3)) => Ok((seq![(e, alias)] + rest, q3)),
                        Err(m) => Err(m),
                    }
                } else {
                    Err(stalled_msg())
                }
            } else {
                Ok((seq![(e, alias)], q2))
            },
            Err(m) => Err(m),
        },
        Err(m) => Err(m),
    }
}

/// An optional `ASC` (true) or `DESC` (false); ascending by default.
pub open spec fn p_direction_word(t: Seq<TokenView>, p: int) -> (bool, int) {
    match cur(t, p) {
        TokenView::Asc => (true, adv(t, p)),
        TokenView::Desc => (false, adv(t, p)),
        _ => (true, p),
    }
}

/// Comma-separated ORDER BY fields.
pub open spec fn p_order_fields(t: Seq<TokenView>, p: int) -> Parsed<Seq<(ExprView, bool)>>
    decreases (t.len() - p) as nat,
{
    match p_or(t, p) {
        Ok((e, q)) => {
            let (ascending, q2) = p_direction_word(t, q);
            if cur(t, q2) is Comma {
                if p < adv(t, q2) <= t.len() {
                    match p_order_fields(t, adv(t, q2)) {
                        Ok((rest, q3)) => Ok((seq![(e, ascending)] + rest, q3)),
                        Err(m) => Err(m),
                    }
                } else {
                    Err(stalled_msg())
                }
            } else {
                Ok((seq![(e, ascending)], q2))
            }
        },
        Err(m) => Err(m),
    }
}

/// ORDER BY clause.
pub open spec fn p_order_by(t: Seq<TokenView>, p: int) -> Parsed<Seq<(ExprView, bool)>> {
    after(p_expect(t, p, TokenView::OrderBy), |q: int| p_order_fields(t, q))
}

/// An optional count after the keyword `k` (`LIMIT`, `OFFSET`).
pub open spec fn p_count(t: Seq<TokenView>, p: int, k: TokenView) -> Parsed<Option<usize>> {
    if cur(t, p) == k {
        then(p_integer(t, adv(t, p)), |n: i64, q: int| Ok((Some(n as usize), q)))
    } else {
        Ok((None, p))
    }
}

/// A SELECT query: FROM, optional TRAVERSE and WHERE, SELECT fields, then
/// optional ORDER BY, LIMIT and OFFSET.
pub open spec fn p_select(t: Seq<TokenView>, p: int) -> Parsed<SelectView> {
    then(
        p_from(t, p),
        |from: (Seq<char>, Option<Seq<char>>), q1: int|
            then(
                optional(t, q1, TokenView::Traverse, p_traverse(t, q1)),
                |traverse: Option<Seq<PatternView>>, q2: int|
                    then(
                        optional(t, q2, TokenView::Where, p_where(t, q2)),
                        |where_clause: Option<ExprView>, q3: int|
                            after(
                                p_expect(t, q3, TokenView::Select),
                                |q4: int|
                                    then(
                                        p_fields(t, q4),
                                        |select: Seq<(ExprView, Option<Seq<char>>)>, q5: int|
                                            then(
                                                optional(t, q5, TokenView::OrderBy, p_order_by(t, q5)),
                                                |order_by: Option<Seq<(ExprView, bool)>>, q6: int|
                                                    then(
                                                        p_count(t, q6, TokenView::Limit),
                                                        |limit: Option<usize>, q7: int|
                                                            then(
                                                                p_count(t, q7, TokenView::Offset),
                                                                |offset: Option<usize>, q8: int|
                                                                    Ok(
                                                                        (
                                                                            SelectView {
                                                                                collection: from.0,
                                                                                alias: from.1,
                                                                                traverse,
                                                                                where_clause,
                                                                                select,
                                                                                group_by: None,
                                                                                having: None,
                                                                                order_by,
                                                                                limit,
                                                                                offset,
                                                                            },
                                                                            q8,
                                                                        ),
                                                                    ),
                                                            ),
                                                    ),
                                            ),
                                    ),
                            ),
                    ),
            ),
    )
}

/// Comma-separated `key: literal` pairs.
pub open spec fn p_pairs(t: Seq<TokenView>, p: int) -> Parsed<Seq<(Seq<char>, LiteralView)>>
    decreases (t.len() - p) as nat,
{
    match p_identifier(t, p) {
        Ok((key, q)) => match p_expect(t, q, TokenView::Colon) {
            Ok(q2) => match p_literal(t, q2) {
                Ok((value, q3)) => if cur(t, q3) is Comma {
                    if p < adv(t, q3) <= t.len() {
                        match p_pairs(t, adv(t, q3)) {
                            Ok((rest, q4)) => Ok((seq![(key, value)] + rest, q4)),
                            Err(m) => Err(m),
                        }
                    } else {
                        Err(stalled_msg())
                    }
                } else {
                    Ok((seq![(key, value)], q3))
                },
                Err(m) => Err(m),
            },
            Err(m) => Err(m),
        },
        Err(m) => Err(m),
    }
}

/// An optional `{ key: literal, ... }`; no pairs without the brace.
pub open spec fn p_braced_pairs(t: Seq<TokenView>, p: int) -> Parsed<Seq<(Seq<char>, LiteralView)>> {
    if cur(t, p) is LeftBrace {
        then(
            p_pairs(t, adv(t, p)),
            |ps: Seq<(Seq<char>, LiteralView)>, q: int|
                after(p_expect(t, q, TokenView::RightBrace), |q2: int| Ok((ps, q2))),
        )
    } else {
        Ok((Seq::empty(), p))
    }
}

/// `INSERT INTO collection VALUES ( { key: literal, ... } )`.
pub open spec fn p_insert(t: Seq<TokenView>, p: int) -> Parsed<QueryView> {
    after(
        p_expect(t, p, TokenView::Insert),
        |q: int|
            after(
                p_expect(t, q, TokenView::Into),
                |q1: int|
                    then(
                        p_identifier(t, q1),
                        |collection: Seq<char>, q2: int|
                            after(
                                p_expect(t, q2, TokenView::Values),
                                |q3: int|
                                    after(
                                        p_expect(t, q3, TokenView::LeftParen),
                                        |q4: int|
                                            then(
                                                p_braced_pairs(t, q4),
                                                |properties: Seq<(Seq<char>, LiteralView)>, q5: int|
                                                    after(
                                                        p_expect(t, q5, TokenView::RightParen),
                                                        |q6: int| Ok((QueryView::Insert { collection, properties }, q6)),
                                                    ),
                                            ),
                                    ),
                            ),
                    ),
            ),
    )
}

/// Comma-separated `property = expression` assignments.
pub open spec fn p_assignments(t: Seq<TokenView>, p: int) -> Parsed<Seq<(Seq<char>, ExprView)>>
    decreases (t.len() - p) as nat,
{
    match p_identifier(t, p) {
        Ok((property, q)) => match p_expect(t, q, TokenView::Equal) {
            Ok(q2) => match p_or(t, q2) {
                Ok((value, q3)) => if cur(t, q3) is Comma {
                    if p < adv(t, q3) <= t.len() {
                        match p_assignments(t, adv(t, q3)) {
                            Ok((rest, q4)) => Ok((seq![(property, value)] + rest, q4)),
                            Err(m) => Err(m),
                        }
                    } else {
                        Err(stalled_msg())
                    }
                } else {
                    Ok((seq![(property, value)], q3))
                },
                Err(m) => Err(m),
            },
            Err(m) => Err(m),
        },
        Err(m) => Err(m),
    }
}

/// `UPDATE collection SET assignments [WHERE condition]`.
pub open spec fn p_update(t: Seq<TokenView>, p: int) -> Parsed<QueryView> {
    after(
        p_expect(t, p, TokenView::Update),
        |q: int|
            then(
                p_identifier(t, q),
                |collection: Seq<char>, q1: int|
                    after(
                        p_expect(t, q1, TokenView::SetKeyword),
                        |q2: int|
                            then(
                                p_assignments(t, q2),
                                |set: Seq<(Seq<char>, ExprView)>, q3: int|
                                    then(
                                        optional(t, q3, TokenView::Where, p_where(t, q3)),
                                        |where_clause: Option<ExprView>, q4: int|
                                            Ok((QueryView::Update { collection, set, where_clause }, q4)),
                                    ),
                            ),
                    ),
            ),
    )
}

/// `DELETE FROM collection [WHERE condition]`.
pub open spec fn p_delete(t: Seq<TokenView>, p: int) -> Parsed<QueryView> {
    after(
        p_expect(t, p, TokenView::Delete),
        |q: int|
            after(
                p_expect(t, q, TokenView::From),
                |q1: int|
                    then(
                        p_identifier(t, q1),
                        |collection: Seq<char>, q2: int|
                            then(
                                optional(t, q2, TokenView::Where, p_where(t, q2)),
                                |where_clause: Option<ExprView>, q3: int|
                                    Ok((QueryView::Delete { collection, where_clause }, q3)),
                            ),
                    ),
            ),
    )
}

/// `( expression )`.
pub open spec fn p_paren(t: Seq<TokenView>, p: int) -> Parsed<ExprView> {
    after(
        p_expect(t, p, TokenView::LeftParen),
        |q: int| then(p_or(t, q), |e: ExprView, q2: int| after(p_expect(t, q2, TokenView::RightParen), |q3: int| Ok((e, q3)))),
    )
}

/// `-[:TYPE]->`: the edge type of a CREATE.
pub open spec fn p_edge_arrow(t: Seq<TokenView>, p: int) -> Parsed<Seq<char>> {
    after(
        p_expect(t, p, TokenView::Minus),
        |q: int|
            after(
                p_expect(t, q, TokenView::LeftBracket),
                |q1: int|
                    after(
                        p_expect(t, q1, TokenView::Colon),
                        |q2: int|
                            then(
                                p_identifier(t, q2),
                                |edge_type: Seq<char>, q3: int|
                                    after(
                                        p_expect(t, q3, TokenView::RightBracket),
                                        |q4: int| after(p_expect(t, q4, TokenView::Arrow), |q5: int| Ok((edge_type, q5))),
                                    ),
                            ),
                    ),
            ),
    )
}

/// `CREATE (source) -[:TYPE]-> (target) [{ key: literal, ... }]`.
pub open spec fn p_create(t: Seq<TokenView>, p: int) -> Parsed<QueryView> {
    after(
        p_expect(t, p, TokenView::Create),
        |q: int|
            then(
                p_paren(t, q),
                |source: ExprView, q1: int|
                    then(
                        p_edge_arrow(t, q1),
                        |edge_type: Seq<char>, q2: int|
                            then(
                                p_paren(t, q2),
                                |target: ExprView, q3: int|
                                    then(
                                        p_braced_pairs(t, q3),
                                        |properties: Seq<(Seq<char>, LiteralView)>, q4: int|
                                            Ok((QueryView::Create { edge_type, source, target, properties }, q4)),
                                    ),
                            ),
                    ),
            ),
    )
}

/// A query, chosen by its first keyword.
pub open spec fn p_query(t: Seq<TokenView>, p: int) -> Parsed<QueryView> {
    match cur(t, p) {
        TokenView::From => then(p_select(t, p), |s: SelectView, q: int| Ok((QueryView::Select(s), q))),
        TokenView::Insert => p_insert(t, p),
        TokenView::Update => p_update(t, p),
        TokenView::Delete => p_delete(t, p),
        TokenView::Create => p_create(t, p),
        c => Err("Expected query keyword, got "@ + token_debug(c)),
    }
}

/// A query text: its tokens, parsed as a query from the first; or the
/// error of the lexer or of the parser.
pub open spec fn parse_text(s: Seq<char>) -> Result<QueryView, Seq<char>> {
    match lex_all(s, 0) {
        Err(m) => Err(m),
        Ok(ts) => match p_query(ts, 0) {
            Ok((q, _)) => Ok(q),
            Err(m) => Err(m),
        },
    }
}

// ---------------------------------------------------------------------
// The parser
// ---------------------------------------------------------------------

/// The variant of a token, as a number.
fn kind(t: &Token) -> (k: u8)
    ensures
        k == kind_of(t@),
{
    reveal(kind_of);
    match t {
        Token::From => 0,
        Token::Where => 1,
        Token::Select => 2,
        Token::Traverse => 3,
        Token::Create => 4,
        Token::Update => 5,
        Token::Delete => 6,
        Token::SetKeyword => 7,
        Token::Insert => 8,
        Token::Into => 9,
        Token::Values => 10,
        Token::And => 11,
        Token::Or => 12,
        Token::Not => 13,
        Token::As => 14,
        Token::Limit => 15,
        Token::Offset => 16,
        Token::OrderBy => 17,
        Token::Asc => 18,
        Token::Desc => 19,
        Token::Identifier(_) => 20,
        Token::String(_) => 21,
        Token::Integer(_) => 22,
        Token::Float(_) => 23,
        Token::True => 24,
        Token::False => 25,
        Token::Null => 26,
        Token::Equal => 27,
        Token::NotEqual => 28,
        Token::LessThan => 29,
        Token::LessThanEq => 30,
        Token::GreaterThan => 31,
        Token::GreaterThanEq => 32,
        Token::Plus => 33,
        Token::Minus => 34,
        Token::Star => 35,
        Token::Slash => 36,
        Token::Dot => 37,
        Token::Comma => 38,
        Token::Semicolon => 39,
        Token::Colon => 40,
        Token::Arrow => 41,
        Token::LeftArrow => 42,
        Token::BiArrow => 43,
        Token::LeftParen => 44,
        Token::RightParen => 45,
        Token::LeftBracket => 46,
        Token::RightBracket => 47,
        Token::LeftBrace => 48,
        Token::RightBrace => 49,
        Token::Eof => 50,
    }
}

/// Whether two results agree: the parser's result and position, and the
/// grammar's, the parsed value taken by `view`.
pub open spec fn agrees<X, V>(r: Result<X, String>, view: spec_fn(X) -> V, pos: int, s: Parsed<V>) -> bool {
    match s {
        Ok((v, q)) => r matches Ok(x) && view(x) == v && pos == q,
        Err(m) => r matches Err(e) && e@ == m,
    }
}

/// Recursive-descent parser over a token stream.
pub struct Parser {
    tokens: Vec<Token>,
    position: usize,
}

impl Parser {
    /// The tokens, by their views.
    pub closed spec fn toks(&self) -> Seq<TokenView> {
        token_views(self.tokens@)
    }

    /// The position of the next token.
    pub closed spec fn pos(&self) -> int {
        self.position as int
    }

    /// The position is within the tokens or just past them.
    pub closed spec fn wf(&self) -> bool {
        self.position <= self.tokens.len()
    }

    pub fn new(tokens: Vec<Token>) -> (r: Self)
        ensures
            r.wf(),
            r.toks() == token_views(tokens@),
            r.pos() == 0,
    {
        Parser { tokens, position: 0 }
    }

    /// The current token is `expected` (a token without payload).
    fn at(&self, expected: &Token) -> (r: bool)
        requires
            self.wf(),
            plain(expected@),
        ensures
            r == (cur(self.toks(), self.pos()) == expected@),
    {
        proof {
            reveal(kind_of);
        }
        let k = kind(expected);
        if self.position < self.tokens.len() {
            kind(&self.tokens[self.position]) == k
        } else {
            k == 50
        }
    }

    /// The current token is an identifier.
    fn at_identifier(&self) -> (r: bool)
        requires
            self.wf(),
        ensures
            r == cur(self.toks(), self.pos()) is Identifier,
    {
        if self.position < self.tokens.len() {
            match &self.tokens[self.position] {
                Token::Identifier(_) => true,
                _ => false,
            }
        } else {
            false
        }
    }

    /// The token after the current one is `expected` (a token without
    /// payload).
    fn peek_is(&self, expected: &Token) -> (r: bool)
        requires
            self.wf(),
            plain(expected@),
        ensures
            r == (peek_at(self.toks(), self.pos()) == Some(expected@)),
    {
        proof {
            reveal(kind_of);
        }
        if self.position < self.tokens.len() && self.position + 1 < self.tokens.len() {
            kind(&self.tokens[self.position + 1]) == kind(expected)
        } else {
            false
        }
    }

    /// The `Debug` text of the current token.
    fn current_debug(&self) -> (s: String)
        requires
            self.wf(),
        ensures
            s@ == token_debug(cur(self.toks(), self.pos())),
    {
        if self.position < self.tokens.len() {
            token_text(&self.tokens[self.position])
        } else {
            let eof = Token::Eof;
            token_text(&eof)
        }
    }

    /// Consume the current token (none past the end).
    fn advance(&mut self)
        requires
            old(self).wf(),
        ensures
            final(self).wf(),
            final(self).toks() == old(self).toks(),
            final(self).pos() == adv(old(self).toks(), old(self).pos()),
    {
        if self.position < self.tokens.len() {
            self.position = self.position + 1;
        }
    }

    /// Consume a token of the variant of `expected`.
    fn expect(&mut self, expected: &Token) -> (r: Result<(), String>)
        requires
            old(self).wf(),
            plain(expected@),
        ensures
            final(self).wf(),
            final(self).toks() == old(self).toks(),
            match p_expect(old(self).toks(), old(self).pos(), expected@) {
                Ok(q) => r is Ok && final(self).pos() == q,
                Err(m) => r matches Err(e) && e@ == m,
            },
    {
        if self.at(expected) {
            self.advance();
            Ok(())
        } else {
            let e = token_text(expected);
            let c = self.current_debug();
            let head = concat2("Expected ", e.as_str());
            let tail = concat2(", got ", c.as_str());
            Err(concat2(head.as_str(), tail.as_str()))
        }
    }

    /// An identifier.
    fn parse_identifier(&mut self) -> (r: Result<String, String>)
        requires
            old(self).wf(),
        ensures
            final(self).wf(),
            final(self).toks() == old(self).toks(),
            agrees(r, |x: String| x@, final(self).pos(), p_identifier(old(self).toks(), old(self).pos())),
    {
        if self.position < self.tokens.len() {
            if let Token::Identifier(name) = &self.tokens[self.position] {
                let result = name.clone();
                self.advance();
                return Ok(result);
            }
        }
        let c = self.current_debug();
        Err(concat2("Expected identifier, got ", c.as_str()))
    }

    /// An integer.
    fn parse_integer(&mut self) -> (r: Result<i64, String>)
        requires
            old(self).wf(),
        ensures
            final(self).wf(),
            final(self).toks() == old(self).toks(),
            agrees(r, |x: i64| x, final(self).pos(), p_integer(old(self).toks(), old(self).pos())),
    {
        if self.position < self.tokens.len() {
            if let Token::Integer(n) = &self.tokens[self.position] {
                let result = *n;
                self.advance();
                return Ok(result);
            }
        }
        let c = self.current_debug();
        Err(concat2("Expected integer, got ", c.as_str()))
    }

    /// The literal the current token stands for, if it is one; the token
    /// is not consumed.
    fn current_literal(&self) -> (r: Option<Literal>)
        requires
            self.wf(),
        ensures
            match r {
                Some(l) => literal_of(cur(self.toks(), self.pos())) == Some(l@),
                None => literal_of(cur(self.toks(), self.pos())) is None,
            },
    {
        if self.position < self.tokens.len() {
            match &self.tokens[self.position] {
                Token::Integer(n) => Some(Literal::Integer(*n)),
                Token::Float(f) => Some(Literal::Float(f.clone())),
                Token::String(s) => Some(Literal::String(s.clone())),
                Token::True => Some(Literal::Bool(true)),
                Token::False => Some(Literal::Bool(false)),
                Token::Null => Some(Literal::Null),
                _ => None,
            }
        } else {
            None
        }
    }

    /// A literal.
    fn parse_literal(&mut self) -> (r: Result<Literal, String>)
        requires
            old(self).wf(),
        ensures
            final(self).wf(),
            final(self).toks() == old(self).toks(),
            agrees(r, |x: Literal| x@, final(self).pos(), p_literal(old(self).toks(), old(self).pos())),
    {
        match self.current_literal() {
            Some(l) => {
                self.advance();
                Ok(l)
            },
            None => {
                let c = self.current_debug();
                Err(concat2("Expected literal, got ", c.as_str()))
            },
        }
    }
}

impl Parser {
    /// A property, a literal, or a parenthesised expression.
    fn parse_primary(&mut self) -> (r: Result<Expression, String>)
        requires
            old(self).wf(),
        ensures
            final(self).wf(),
            final(self).toks() == old(self).toks(),
            agrees(r, |x: Expression| x@, final(self).pos(), p_primary(old(self).toks(), old(self).pos())),
            r is Ok ==> old(self).pos() < final(self).pos(),
        decreases (old(self).toks().len() - old(self).pos()) as nat, 0nat,
    {
        proof {
            reveal(p_or);
        }
        if self.position < self.tokens.len() {
            if let Token::Identifier(name) = &self.tokens[self.position] {
                let name = name.clone();
                self.advance();
                if self.at(&Token::Dot) {
                    self.advance();
                    let property = match self.parse_identifier() {
                        Ok(p) => p,
                        Err(m) => return Err(m),
                    };
                    return Ok(Expression::Property(PropertyRef { entity: Some(name), property }));
                } else {
                    return Ok(Expression::Property(PropertyRef { entity: None, property: name }));
                }
            }
        }
        if self.at(&Token::LeftParen) {
            self.advance();
            let expr = match self.parse_or() {
                Ok(e) => e,
                Err(m) => return Err(m),
            };
            match self.expect(&Token::RightParen) {
                Ok(()) => Ok(expr),
                Err(m) => Err(m),
            }
        } else {
            match self.current_literal() {
                Some(l) => {
                    self.advance();
                    Ok(Expression::Literal(l))
                },
                None => {
                    let c = self.current_debug();
                    Err(concat2("Unexpected token in expression: ", c.as_str()))
                },
            }
        }
    }

    /// `NOT`s before a primary.
    fn parse_unary(&mut self) -> (r: Result<Expression, String>)
        requires
            old(self).wf(),
        ensures
            final(self).wf(),
            final(self).toks() == old(self).toks(),
            agrees(r, |x: Expression| x@, final(self).pos(), p_unary(old(self).toks(), old(self).pos())),
            r is Ok ==> old(self).pos() < final(self).pos(),
        decreases (old(self).toks().len() - old(self).pos()) as nat, 1nat,
    {
        if self.at(&Token::Not) {
            self.advance();
            match self.parse_unary() {
                Ok(e) => Ok(Expression::Not(Box::new(e))),
                Err(m) => Err(m),
            }
        } else {
            self.parse_primary()
        }
    }

    fn mul_rest(&mut self, left: Expression) -> (r: Result<Expression, String>)
        requires
            old(self).wf(),
        ensures
            final(self).wf(),
            final(self).toks() == old(self).toks(),
            agrees(r, |x: Expression| x@, final(self).pos(), mul_rest(old(self).toks(), left@, old(self).pos())),
            r is Ok ==> old(self).pos() <= final(self).pos(),
        decreases (old(self).toks().len() - old(self).pos()) as nat, 2nat,
    {
        if self.at(&Token::Star) {
            self.advance();
            let right = match self.parse_unary() {
                Ok(e) => e,
                Err(m) => return Err(m),
            };
            self.mul_rest(Expression::Multiply(Box::new(left), Box::new(right)))
        } else if self.at(&Token::Slash) {
            self.advance();
            let right = match self.parse_unary() {
                Ok(e) => e,
                Err(m) => return Err(m),
            };
            self.mul_rest(Expression::Divide(Box::new(left), Box::new(right)))
        } else {
            Ok(left)
        }
    }

    fn parse_multiplicative(&mut self) -> (r: Result<Expression, String>)
        requires
            old(self).wf(),
        ensures
            final(self).wf(),
            final(self).toks() == old(self).toks(),
            agrees(r, |x: Expression| x@, final(self).pos(), p_mul(old(self).toks(), old(self).pos())),
            r is Ok ==> old(self).pos() < final(self).pos(),
        decreases (old(self).toks().len() - old(self).pos()) as nat, 3nat,
    {
        let left = match self.parse_unary() {
            Ok(e) => e,
            Err(m) => return Err(m),
        };
        self.mul_rest(left)
    }

    fn add_rest(&mut self, left: Expression) -> (r: Result<Expression, String>)
        requires
            old(self).wf(),
        ensures
            final(self).wf(),
            final(self).toks() == old(self).toks(),
            agrees(r, |x: Expression| x@, final(self).pos(), add_rest(old(self).toks(), left@, old(self).pos())),
            r is Ok ==> old(self).pos() <= final(self).pos(),
        decreases (old(self).toks().len() - old(self).pos()) as nat, 4nat,
    {
        if self.at(&Token::Plus) {
            self.advance();
            let right = match self.parse_multiplicative() {
                Ok(e) => e,
                Err(m) => return Err(m),
            };
            self.add_rest(Expression::Add(Box::new(left), Box::new(right)))
        } else if self.at(&Token::Minus) {
            self.advance();
            let right = match self.parse_multiplicative() {
                Ok(e) => e,
                Err(m) => return Err(m),
            };
            self.add_rest(Expression::Subtract(Box::new(left), Box::new(right)))
        } else {
            Ok(left)
        }
    }

    fn parse_additive(&mut self) -> (r: Result<Expression, String>)
        requires
            old(self).wf(),
        ensures
            final(self).wf(),
            final(self).toks() == old(self).toks(),
            agrees(r, |x: Expression| x@, final(self).pos(), p_add(old(self).toks(), old(self).pos())),
            r is Ok ==> old(self).pos() < final(self).pos(),
        decreases (old(self).toks().len() - old(self).pos()) as nat, 5nat,
    {
        let left = match self.parse_multiplicative() {
            Ok(e) => e,
            Err(m) => return Err(m),
        };
        self.add_rest(left)
    }

    fn comparison_rest(&mut self, left: Expression) -> (r: Result<Expression, String>)
        requires
            old(self).wf(),
        ensures
            final(self).wf(),
            final(self).toks() == old(self).toks(),
            agrees(r, |x: Expression| x@, final(self).pos(), comparison_rest(old(self).toks(), left@, old(self).pos())),
            r is Ok ==> old(self).pos() <= final(self).pos(),
        decreases (old(self).toks().len() - old(self).pos()) as nat, 6nat,
    {
        if self.at(&Token::Equal) {
            self.advance();
            let right = match self.parse_additive() {
                Ok(e) => e,
                Err(m) => return Err(m),
            };
            self.comparison_rest(Expression::Equal(Box::new(left), Box::new(right)))
        } else if self.at(&Token::NotEqual) {
            self.advance();
            let right = match self.parse_additive() {
                Ok(e) => e,
                Err(m) => return Err(m),
            };
            self.comparison_rest(Expression::NotEqual(Box::new(left), Box::new(right)))
        } else if self.at(&Token::LessThan) {
            self.advance();
            let right = match self.parse_additive() {
                Ok(e) => e,
                Err(m) => return Err(m),
            };
            self.comparison_rest(Expression::LessThan(Box::new(left), Box::new(right)))
        } else if self.at(&Token::LessThanEq) {
            self.advance();
            let right = match self.parse_additive() {
                Ok(e) => e,
                Err(m) => return Err(m),
            };
            self.comparison_rest(Expression::LessThanEq(Box::new(left), Box::new(right)))
        } else if self.at(&Token::GreaterThan) {
            self.advance();
            let right = match self.parse_additive() {
                Ok(e) => e,
                Err(m) => return Err(m),
            };
            self.comparison_rest(Expression::GreaterThan(Box::new(left), Box::new(right)))
        } else if self.at(&Token::GreaterThanEq) {
            self.advance();
            let right = match self.parse_additive() {
                Ok(e) => e,
                Err(m) => return Err(m),
            };
            self.comparison_rest(Expression::GreaterThanEq(Box::new(left), Box::new(right)))
        } else {
            Ok(left)
        }
    }

    fn parse_comparison(&mut self) -> (r: Result<Expression, String>)
        requires
            old(self).wf(),
        ensures
            final(self).wf(),
            final(self).toks() == old(self).toks(),
            agrees(r, |x: Expression| x@, final(self).pos(), p_comparison(old(self).toks(), old(self).pos())),
            r is Ok ==> old(self).pos() < final(self).pos(),
        decreases (old(self).toks().len() - old(self).pos()) as nat, 7nat,
    {
        let left = match self.parse_additive() {
            Ok(e) => e,
            Err(m) => return Err(m),
        };
        self.comparison_rest(left)
    }

    fn and_rest(&mut self, left: Expression) -> (r: Result<Expression, String>)
        requires
            old(self).wf(),
        ensures
            final(self).wf(),
            final(self).toks() == old(self).toks(),
            agrees(r, |x: Expression| x@, final(self).pos(), and_rest(old(self).toks(), left@, old(self).pos())),
            r is Ok ==> old(self).pos() <= final(self).pos(),
        decreases (old(self).toks().len() - old(self).pos()) as nat, 8nat,
    {
        if self.at(&Token::And) {
            self.advance();
            let right = match self.parse_comparison() {
                Ok(e) => e,
                Err(m) => return Err(m),
            };
            self.and_rest(Expression::And(Box::new(left), Box::new(right)))
        } else {
            Ok(left)
        }
    }

    fn parse_and(&mut self) -> (r: Result<Expression, String>)
        requires
            old(self).wf(),
        ensures
            final(self).wf(),
            final(self).toks() == old(self).toks(),
            agrees(r, |x: Expression| x@, final(self).pos(), p_and(old(self).toks(), old(self).pos())),
            r is Ok ==> old(self).pos() < final(self).pos(),
        decreases (old(self).toks().len() - old(self).pos()) as nat, 9nat,
    {
        let left = match self.parse_comparison() {
            Ok(e) => e,
            Err(m) => return Err(m),
        };
        self.and_rest(left)
    }

    fn or_rest(&mut self, left: Expression) -> (r: Result<Expression, String>)
        requires
            old(self).wf(),
        ensures
            final(self).wf(),
            final(self).toks() == old(self).toks(),
            agrees(r, |x: Expression| x@, final(self).pos(), or_rest(old(self).toks(), left@, old(self).pos())),
            r is Ok ==> old(self).pos() <= final(self).pos(),
        decreases (old(self).toks().len() - old(self).pos()) as nat, 10nat,
    {
        if self.at(&Token::Or) {
            self.advance();
            let right = match self.parse_and() {
                Ok(e) => e,
                Err(m) => return Err(m),
            };
            self.or_rest(Expression::Or(Box::new(left), Box::new(right)))
        } else {
            Ok(left)
        }
    }

    fn parse_or(&mut self) -> (r: Result<Expression, String>)
        requires
            old(self).wf(),
        ensures
            final(self).wf(),
            final(self).toks() == old(self).toks(),
            agrees(r, |x: Expression| x@, final(self).pos(), p_or(old(self).toks(), old(self).pos())),
            r is Ok ==> old(self).pos() < final(self).pos(),
        decreases (old(self).toks().len() - old(self).pos()) as nat, 11nat,
    {
        proof {
            reveal(p_or);
        }
        let left = match self.parse_and() {
            Ok(e) => e,
            Err(m) => return Err(m),
        };
        self.or_rest(left)
    }

    /// An expression.
    fn parse_expression(&mut self) -> (r: Result<Expression, String>)
        requires
            old(self).wf(),
        ensures
            final(self).wf(),
            final(self).toks() == old(self).toks(),
            agrees(r, |x: Expression| x@, final(self).pos(), p_or(old(self).toks(), old(self).pos())),
            r is Ok ==> old(self).pos() < final(self).pos(),
    {
        self.parse_or()
    }
}

impl Parser {
    /// FROM clause.
    fn parse_from(&mut self) -> (r: Result<FromClause, String>)
        requires
            old(self).wf(),
        ensures
            final(self).wf(),
            final(self).toks() == old(self).toks(),
            agrees(
                r,
                |x: FromClause| (x.collection@, opt_text(x.alias)),
                final(self).pos(),
                p_from(old(self).toks(), old(self).pos()),
            ),
    {
        match self.expect(&Token::From) {
            Ok(()) => {},
            Err(m) => return Err(m),
        }
        let collection = match self.parse_identifier() {
            Ok(c) => c,
            Err(m) => return Err(m),
        };
        let alias = if self.at(&Token::As) {
            self.advance();
            match self.parse_identifier() {
                Ok(a) => Some(a),
                Err(m) => return Err(m),
            }
        } else if self.at_identifier() {
            // Implicit alias without AS keyword
            match self.parse_identifier() {
                Ok(a) => Some(a),
                Err(m) => return Err(m),
            }
        } else {
            None
        };
        Ok(FromClause { collection, alias })
    }

    /// The direction of a traverse pattern.
    fn parse_direction(&mut self) -> (r: Result<Direction, String>)
        requires
            old(self).wf(),
        ensures
            final(self).wf(),
            final(self).toks() == old(self).toks(),
            agrees(r, |x: Direction| x, final(self).pos(), p_direction(old(self).toks(), old(self).pos())),
            r is Ok ==> old(self).pos() < final(self).pos(),
    {
        let bracket_or_arrow = self.peek_is(&Token::LeftBracket) || self.peek_is(&Token::Arrow);
        if self.at(&Token::Minus) && bracket_or_arrow {
            self.advance();
            Ok(Direction::Outgoing)
        } else if self.at(&Token::LeftArrow) {
            self.advance();
            Ok(Direction::Incoming)
        } else if self.at(&Token::BiArrow) {
            self.advance();
            Ok(Direction::Both)
        } else {
            let c = self.current_debug();
            Err(concat2("Expected edge direction, got ", c.as_str()))
        }
    }

    /// An optional integer as a count of hops, or `default`.
    fn parse_hops_or(&mut self, default: usize) -> (r: usize)
        requires
            old(self).wf(),
        ensures
            final(self).wf(),
            final(self).toks() == old(self).toks(),
            (r, final(self).pos()) == hops_or(old(self).toks(), old(self).pos(), default),
    {
        if self.position < self.tokens.len() {
            if let Token::Integer(n) = &self.tokens[self.position] {
                let m = *n as usize;
                self.advance();
                return m;
            }
        }
        default
    }

    /// The hop range of a pattern's bracket.
    fn parse_hops(&mut self) -> (r: (usize, usize))
        requires
            old(self).wf(),
        ensures
            final(self).wf(),
            final(self).toks() == old(self).toks(),
            (r.0, r.1, final(self).pos()) == p_hops(old(self).toks(), old(self).pos()),
    {
        if self.at(&Token::Star) {
            self.advance();
            let min = self.parse_hops_or(1);
            if self.at(&Token::Dot) {
                self.advance();
                if self.at(&Token::Dot) {
                    self.advance();
                }
                let max = self.parse_hops_or(usize::MAX);
                (min, max)
            } else {
                (min, min)
            }
        } else {
            (1, 1)
        }
    }

    /// The bracket of a traverse pattern.
    fn parse_edge(&mut self) -> (r: Result<(Option<String>, usize, usize), String>)
        requires
            old(self).wf(),
        ensures
            final(self).wf(),
            final(self).toks() == old(self).toks(),
            agrees(
                r,
                |x: (Option<String>, usize, usize)| (opt_text(x.0), x.1, x.2),
                final(self).pos(),
                p_edge(old(self).toks(), old(self).pos()),
            ),
    {
        if self.at(&Token::LeftBracket) {
            self.advance();
            if self.at(&Token::Colon) {
                self.advance();
            }
            let mut edge_type: Option<String> = None;
            if self.position < self.tokens.len() {
                if let Token::Identifier(name) = &self.tokens[self.position] {
                    edge_type = Some(name.clone());
                    self.advance();
                }
            }
            let (min, max) = self.parse_hops();
            match self.expect(&Token::RightBracket) {
                Ok(()) => Ok((edge_type, min, max)),
                Err(m) => Err(m),
            }
        } else {
            Ok((None, 1, 1))
        }
    }

    /// A single traverse pattern: `-[:TYPE]-> alias`.
    fn parse_traverse_pattern(&mut self) -> (r: Result<TraversePattern, String>)
        requires
            old(self).wf(),
        ensures
            final(self).wf(),
            final(self).toks() == old(self).toks(),
            agrees(r, |x: TraversePattern| x@, final(self).pos(), p_pattern(old(self).toks(), old(self).pos())),
            r is Ok ==> old(self).pos() < final(self).pos(),
    {
        let direction = match self.parse_direction() {
            Ok(d) => d,
            Err(m) => return Err(m),
        };
        let (edge_type, min_hops, max_hops) = match self.parse_edge() {
            Ok(e) => e,
            Err(m) => return Err(m),
        };
        // The arrow of an outgoing edge (consumed with the direction otherwise)
        if direction == Direction::Outgoing && self.at(&Token::Arrow) {
            self.advance();
        }
        let mut target_alias: Option<String> = None;
        if self.position < self.tokens.len() {
            if let Token::Identifier(name) = &self.tokens[self.position] {
                target_alias = Some(name.clone());
                self.advance();
            }
        }
        Ok(TraversePattern { direction, edge_type, target_alias, min_hops, max_hops })
    }

    /// Comma-separated traverse patterns, up to `WHERE`, `SELECT` or the end.
    fn parse_patterns(&mut self) -> (r: Result<Vec<TraversePattern>, String>)
        requires
            old(self).wf(),
        ensures
            final(self).wf(),
            final(self).toks() == old(self).toks(),
            agrees(
                r,
                |x: Vec<TraversePattern>| patterns_view(x@),
                final(self).pos(),
                p_patterns(old(self).toks(), old(self).pos()),
            ),
            r is Ok ==> old(self).pos() <= final(self).pos(),
        decreases old(self).toks().len() - old(self).pos(),
    {
        if self.at(&Token::Where) || self.at(&Token::Select) || self.at(&Token::Eof) {
            let none: Vec<TraversePattern> = Vec::new();
            assert(patterns_view(none@) =~= Seq::empty());
            return Ok(none);
        }
        let pattern = match self.parse_traverse_pattern() {
            Ok(p) => p,
            Err(m) => return Err(m),
        };
        if self.at(&Token::Comma) {
            self.advance();
            let mut rest = match self.parse_patterns() {
                Ok(v) => v,
                Err(m) => return Err(m),
            };
            let ghost pv = pattern@;
            let ghost before = rest@;
            rest.insert(0, pattern);
            assert(patterns_view(rest@) =~= seq![pv] + patterns_view(before));
            Ok(rest)
        } else {
            let mut v = Vec::new();
            v.push(pattern);
            assert(patterns_view(v@) =~= seq![v@[0]@]);
            Ok(v)
        }
    }

    /// TRAVERSE clause.
    fn parse_traverse(&mut self) -> (r: Result<TraverseClause, String>)
        requires
            old(self).wf(),
        ensures
            final(self).wf(),
            final(self).toks() == old(self).toks(),
            agrees(
                r,
                |x: TraverseClause| patterns_view(x.patterns@),
                final(self).pos(),
                p_traverse(old(self).toks(), old(self).pos()),
            ),
    {
        match self.expect(&Token::Traverse) {
            Ok(()) => {},
            Err(m) => return Err(m),
        }
        let patterns = match self.parse_patterns() {
            Ok(v) => v,
            Err(m) => return Err(m),
        };
        if patterns.len() == 0 {
            return Err(String::from_str("TRAVERSE requires at least one pattern"));
        }
        Ok(TraverseClause { patterns })
    }

    /// WHERE clause.
    fn parse_where(&mut self) -> (r: Result<WhereClause, String>)
        requires
            old(self).wf(),
        ensures
            final(self).wf(),
            final(self).toks() == old(self).toks(),
            agrees(r, |x: WhereClause| x.condition@, final(self).pos(), p_where(old(self).toks(), old(self).pos())),
    {
        match self.expect(&Token::Where) {
            Ok(()) => {},
            Err(m) => return Err(m),
        }
        match self.parse_expression() {
            Ok(condition) => Ok(WhereClause { condition }),
            Err(m) => Err(m),
        }
    }
}

impl Parser {
    /// An optional `AS alias`.
    fn parse_alias(&mut self) -> (r: Result<Option<String>, String>)
        requires
            old(self).wf(),
        ensures
            final(self).wf(),
            final(self).toks() == old(self).toks(),
            agrees(r, |x: Option<String>| opt_text(x), final(self).pos(), p_alias(old(self).toks(), old(self).pos())),
            r is Ok ==> old(self).pos() <= final(self).pos(),
    {
        if self.at(&Token::As) {
            self.advance();
            match self.parse_identifier() {
                Ok(a) => Ok(Some(a)),
                Err(m) => Err(m),
            }
        } else {
            Ok(None)
        }
    }

    /// Comma-separated SELECT fields.
    #[verifier::rlimit(50)]
    fn parse_fields(&mut self) -> (r: Result<Vec<SelectField>, String>)
        requires
            old(self).wf(),
        ensures
            final(self).wf(),
            final(self).toks() == old(self).toks(),
            agrees(
                r,
                |x: Vec<SelectField>| select_fields_view(x@),
                final(self).pos(),
                p_fields(old(self).toks(), old(self).pos()),
            ),
        decreases old(self).toks().len() - old(self).pos(),
    {
        let expression = match self.parse_expression() {
            Ok(e) => e,
            Err(m) => return Err(m),
        };
        let alias = match self.parse_alias() {
            Ok(a) => a,
            Err(m) => return Err(m),
        };
        let field = SelectField { expression, alias };
        let ghost fv = (field.expression@, opt_text(field.alias));
        if self.at(&Token::Comma) {
            self.advance();
            let mut rest = match self.parse_fields() {
                Ok(v) => v,
                Err(m) => return Err(m),
            };
            let ghost before = rest@;
            rest.insert(0, field);
            assert(select_fields_view(rest@) =~= seq![fv] + select_fields_view(before));
            Ok(rest)
        } else {
            let mut v = Vec::new();
            v.push(field);
            assert(select_fields_view(v@) =~= seq![fv]);
            Ok(v)
        }
    }

    /// An optional `ASC` or `DESC`; ascending by default.
    fn parse_asc_desc(&mut self) -> (r: bool)
        requires
            old(self).wf(),
        ensures
            final(self).wf(),
            final(self).toks() == old(self).toks(),
            (r, final(self).pos()) == p_direction_word(old(self).toks(), old(self).pos()),
    {
        if self.at(&Token::Asc) {
            self.advance();
            true
        } else if self.at(&Token::Desc) {
            self.advance();
            false
        } else {
            true
        }
    }

    /// Comma-separated ORDER BY fields.
    #[verifier::rlimit(50)]
    fn parse_order_fields(&mut self) -> (r: Result<Vec<OrderByField>, String>)
        requires
            old(self).wf(),
        ensures
            final(self).wf(),
            final(self).toks() == old(self).toks(),
            agrees(
                r,
                |x: Vec<OrderByField>| order_fields_view(x@),
                final(self).pos(),
                p_order_fields(old(self).toks(), old(self).pos()),
            ),
        decreases old(self).toks().len() - old(self).pos(),
    {
        let expression = match self.parse_expression() {
            Ok(e) => e,
            Err(m) => return Err(m),
        };
        let ascending = self.parse_asc_desc();
        let field = OrderByField { expression, ascending };
        let ghost fv = (field.expression@, field.ascending);
        if self.at(&Token::Comma) {
            self.advance();
            let mut rest = match self.parse_order_fields() {
                Ok(v) => v,
                Err(m) => return Err(m),
            };
            let ghost before = rest@;
            rest.insert(0, field);
            assert(order_fields_view(rest@) =~= seq![fv] + order_fields_view(before));
            Ok(rest)
        } else {
            let mut v = Vec::new();
            v.push(field);
            assert(order_fields_view(v@) =~= seq![fv]);
            Ok(v)
        }
    }

    /// ORDER BY clause.
    fn parse_order_by(&mut self) -> (r: Result<OrderByClause, String>)
        requires
            old(self).wf(),
        ensures
            final(self).wf(),
            final(self).toks() == old(self).toks(),
            agrees(
                r,
                |x: OrderByClause| order_fields_view(x.fields@),
                final(self).pos(),
                p_order_by(old(self).toks(), old(self).pos()),
            ),
    {
        match self.expect(&Token::OrderBy) {
            Ok(()) => {},
            Err(m) => return Err(m),
        }
        match self.parse_order_fields() {
            Ok(fields) => Ok(OrderByClause { fields }),
            Err(m) => Err(m),
        }
    }

    /// An optional count after the keyword `keyword`.
    fn parse_count(&mut self, keyword: &Token) -> (r: Result<Option<usize>, String>)
        requires
            old(self).wf(),
            plain(keyword@),
        ensures
            final(self).wf(),
            final(self).toks() == old(self).toks(),
            agrees(
                r,
                |x: Option<usize>| x,
                final(self).pos(),
                p_count(old(self).toks(), old(self).pos(), keyword@),
            ),
    {
        if self.at(keyword) {
            self.advance();
            match self.parse_integer() {
                Ok(n) => Ok(Some(n as usize)),
                Err(m) => Err(m),
            }
        } else {
            Ok(None)
        }
    }

    /// SELECT query.
    #[verifier::rlimit(100)]
    fn parse_select(&mut self) -> (r: Result<SelectQuery, String>)
        requires
            old(self).wf(),
        ensures
            final(self).wf(),
            final(self).toks() == old(self).toks(),
            agrees(r, |x: SelectQuery| x@, final(self).pos(), p_select(old(self).toks(), old(self).pos())),
    {
        let from = match self.parse_from() {
            Ok(f) => f,
            Err(m) => return Err(m),
        };
        let traverse = if self.at(&Token::Traverse) {
            match self.parse_traverse() {
                Ok(t) => Some(t),
                Err(m) => return Err(m),
            }
        } else {
            None
        };
        let where_clause = if self.at(&Token::Where) {
            match self.parse_where() {
                Ok(w) => Some(w),
                Err(m) => return Err(m),
            }
        } else {
            None
        };
        match self.expect(&Token::Select) {
            Ok(()) => {},
            Err(m) => return Err(m),
        }
        let fields = match self.parse_fields() {
            Ok(f) => f,
            Err(m) => return Err(m),
        };
        let order_by = if self.at(&Token::OrderBy) {
            match self.parse_order_by() {
                Ok(o) => Some(o),
                Err(m) => return Err(m),
            }
        } else {
            None
        };
        let limit = match self.parse_count(&Token::Limit) {
            Ok(l) => l,
            Err(m) => return Err(m),
        };
        let offset = match self.parse_count(&Token::Offset) {
            Ok(o) => o,
            Err(m) => return Err(m),
        };
        Ok(
            SelectQuery {
                from,
                traverse,
                where_clause,
                select: SelectClause { fields },
                group_by: None,
                having: None,
                order_by,
                limit,
                offset,
            },
        )
    }
}

/// The view of an INSERT query.
pub open spec fn insert_view(q: InsertQuery) -> QueryView {
    QueryView::Insert { collection: q.collection@, properties: named_literals_view(q.properties@) }
}

/// The view of an UPDATE query.
pub open spec fn update_view(q: UpdateQuery) -> QueryView {
    QueryView::Update {
        collection: q.collection@,
        set: named_exprs_view(q.set@),
        where_clause: match q.where_clause {
            Some(w) => Some(w.condition@),
            None => None,
        },
    }
}

/// The view of a DELETE query.
pub open spec fn delete_view(q: DeleteQuery) -> QueryView {
    QueryView::Delete {
        collection: q.collection@,
        where_clause: match q.where_clause {
            Some(w) => Some(w.condition@),
            None => None,
        },
    }
}

/// The view of a CREATE query.
pub open spec fn create_view(q: CreateQuery) -> QueryView {
    QueryView::Create {
        edge_type: q.edge_type@,
        source: q.source@,
        target: q.target@,
        properties: named_literals_view(q.properties@),
    }
}

impl Parser {
    /// Comma-separated `key: literal` pairs.
    #[verifier::rlimit(50)]
    fn parse_pairs(&mut self) -> (r: Result<Vec<(String, Literal)>, String>)
        requires
            old(self).wf(),
        ensures
            final(self).wf(),
            final(self).toks() == old(self).toks(),
            agrees(
                r,
                |x: Vec<(String, Literal)>| named_literals_view(x@),
                final(self).pos(),
                p_pairs(old(self).toks(), old(self).pos()),
            ),
        decreases old(self).toks().len() - old(self).pos(),
    {
        let key = match self.parse_identifier() {
            Ok(k) => k,
            Err(m) => return Err(m),
        };
        match self.expect(&Token::Colon) {
            Ok(()) => {},
            Err(m) => return Err(m),
        }
        let value = match self.parse_literal() {
            Ok(v) => v,
            Err(m) => return Err(m),
        };
        let ghost pv = (key@, value@);
        let pair = (key, value);
        if self.at(&Token::Comma) {
            self.advance();
            let mut rest = match self.parse_pairs() {
                Ok(v) => v,
                Err(m) => return Err(m),
            };
            let ghost before = rest@;
            rest.insert(0, pair);
            assert(named_literals_view(rest@) =~= seq![pv] + named_literals_view(before));
            Ok(rest)
        } else {
            let mut v = Vec::new();
            v.push(pair);
            assert(named_literals_view(v@) =~= seq![pv]);
            Ok(v)
        }
    }

    /// An optional braced list of pairs.
    fn parse_braced_pairs(&mut self) -> (r: Result<Vec<(String, Literal)>, String>)
        requires
            old(self).wf(),
        ensures
            final(self).wf(),
            final(self).toks() == old(self).toks(),
            agrees(
                r,
                |x: Vec<(String, Literal)>| named_literals_view(x@),
                final(self).pos(),
                p_braced_pairs(old(self).toks(), old(self).pos()),
            ),
    {
        if self.at(&Token::LeftBrace) {
            self.advance();
            let pairs = match self.parse_pairs() {
                Ok(v) => v,
                Err(m) => return Err(m),
            };
            match self.expect(&Token::RightBrace) {
                Ok(()) => Ok(pairs),
                Err(m) => Err(m),
            }
        } else {
            let none: Vec<(String, Literal)> = Vec::new();
            assert(named_literals_view(none@) =~= Seq::empty());
            Ok(none)
        }
    }

    /// INSERT query.
    fn parse_insert(&mut self) -> (r: Result<InsertQuery, String>)
        requires
            old(self).wf(),
        ensures
            final(self).wf(),
            final(self).toks() == old(self).toks(),
            agrees(r, |x: InsertQuery| insert_view(x), final(self).pos(), p_insert(old(self).toks(), old(self).pos())),
    {
        match self.expect(&Token::Insert) {
            Ok(()) => {},
            Err(m) => return Err(m),
        }
        match self.expect(&Token::Into) {
            Ok(()) => {},
            Err(m) => return Err(m),
        }
        let collection = match self.parse_identifier() {
            Ok(c) => c,
            Err(m) => return Err(m),
        };
        match self.expect(&Token::Values) {
            Ok(()) => {},
            Err(m) => return Err(m),
        }
        match self.expect(&Token::LeftParen) {
            Ok(()) => {},
            Err(m) => return Err(m),
        }
        let properties = match self.parse_braced_pairs() {
            Ok(v) => v,
            Err(m) => return Err(m),
        };
        match self.expect(&Token::RightParen) {
            Ok(()) => Ok(InsertQuery { collection, properties }),
            Err(m) => Err(m),
        }
    }

    /// Comma-separated `property = expression` assignments.
    #[verifier::rlimit(50)]
    fn parse_assignments(&mut self) -> (r: Result<Vec<(String, Expression)>, String>)
        requires
            old(self).wf(),
        ensures
            final(self).wf(),
            final(self).toks() == old(self).toks(),
            agrees(
                r,
                |x: Vec<(String, Expression)>| named_exprs_view(x@),
                final(self).pos(),
                p_assignments(old(self).toks(), old(self).pos()),
            ),
        decreases old(self).toks().len() - old(self).pos(),
    {
        let property = match self.parse_identifier() {
            Ok(k) => k,
            Err(m) => return Err(m),
        };
        match self.expect(&Token::Equal) {
            Ok(()) => {},
            Err(m) => return Err(m),
        }
        let value = match self.parse_expression() {
            Ok(v) => v,
            Err(m) => return Err(m),
        };
        let ghost pv = (property@, value@);
        let pair = (property, value);
        if self.at(&Token::Comma) {
            self.advance();
            let mut rest = match self.parse_assignments() {
                Ok(v) => v,
                Err(m) => return Err(m),
            };
            let ghost before = rest@;
            rest.insert(0, pair);
            assert(named_exprs_view(rest@) =~= seq![pv] + named_exprs_view(before));
            Ok(rest)
        } else {
            let mut v = Vec::new();
            v.push(pair);
            assert(named_exprs_view(v@) =~= seq![pv]);
            Ok(v)
        }
    }

    /// An optional WHERE clause.
    fn parse_optional_where(&mut self) -> (r: Result<Option<WhereClause>, String>)
        requires
            old(self).wf(),
        ensures
            final(self).wf(),
            final(self).toks() == old(self).toks(),
            agrees(
                r,
                |x: Option<WhereClause>| match x {
                    Some(w) => Some(w.condition@),
                    None => None,
                },
                final(self).pos(),
                optional(old(self).toks(), old(self).pos(), TokenView::Where, p_where(old(self).toks(), old(self).pos())),
            ),
    {
        if self.at(&Token::Where) {
            match self.parse_where() {
                Ok(w) => Ok(Some(w)),
                Err(m) => Err(m),
            }
        } else {
            Ok(None)
        }
    }

    /// UPDATE query.
    fn parse_update(&mut self) -> (r: Result<UpdateQuery, String>)
        requires
            old(self).wf(),
        ensures
            final(self).wf(),
            final(self).toks() == old(self).toks(),
            agrees(r, |x: UpdateQuery| update_view(x), final(self).pos(), p_update(old(self).toks(), old(self).pos())),
    {
        match self.expect(&Token::Update) {
            Ok(()) => {},
            Err(m) => return Err(m),
        }
        let collection = match self.parse_identifier() {
            Ok(c) => c,
            Err(m) => return Err(m),
        };
        match self.expect(&Token::SetKeyword) {
            Ok(()) => {},
            Err(m) => return Err(m),
        }
        let set = match self.parse_assignments() {
            Ok(v) => v,
            Err(m) => return Err(m),
        };
        match self.parse_optional_where() {
            Ok(where_clause) => Ok(UpdateQuery { collection, set, where_clause }),
            Err(m) => Err(m),
        }
    }

    /// DELETE query.
    fn parse_delete(&mut self) -> (r: Result<DeleteQuery, String>)
        requires
            old(self).wf(),
        ensures
            final(self).wf(),
            final(self).toks() == old(self).toks(),
            agrees(r, |x: DeleteQuery| delete_view(x), final(self).pos(), p_delete(old(self).toks(), old(self).pos())),
    {
        match self.expect(&Token::Delete) {
            Ok(()) => {},
            Err(m) => return Err(m),
        }
        match self.expect(&Token::From) {
            Ok(()) => {},
            Err(m) => return Err(m),
        }
        let collection = match self.parse_identifier() {
            Ok(c) => c,
            Err(m) => return Err(m),
        };
        match self.parse_optional_where() {
            Ok(where_clause) => Ok(DeleteQuery { collection, where_clause }),
            Err(m) => Err(m),
        }
    }

    /// A parenthesised expression.
    fn parse_paren(&mut self) -> (r: Result<Expression, String>)
        requires
            old(self).wf(),
        ensures
            final(self).wf(),
            final(self).toks() == old(self).toks(),
            agrees(r, |x: Expression| x@, final(self).pos(), p_paren(old(self).toks(), old(self).pos())),
    {
        match self.expect(&Token::LeftParen) {
            Ok(()) => {},
            Err(m) => return Err(m),
        }
        let e = match self.parse_expression() {
            Ok(e) => e,
            Err(m) => return Err(m),
        };
        match self.expect(&Token::RightParen) {
            Ok(()) => Ok(e),
            Err(m) => Err(m),
        }
    }

    /// The `-[:TYPE]->` of a CREATE.
    fn parse_edge_arrow(&mut self) -> (r: Result<String, String>)
        requires
            old(self).wf(),
        ensures
            final(self).wf(),
            final(self).toks() == old(self).toks(),
            agrees(r, |x: String| x@, final(self).pos(), p_edge_arrow(old(self).toks(), old(self).pos())),
    {
        match self.expect(&Token::Minus) {
            Ok(()) => {},
            Err(m) => return Err(m),
        }
        match self.expect(&Token::LeftBracket) {
            Ok(()) => {},
            Err(m) => return Err(m),
        }
        match self.expect(&Token::Colon) {
            Ok(()) => {},
            Err(m) => return Err(m),
        }
        let edge_type = match self.parse_identifier() {
            Ok(e) => e,
            Err(m) => return Err(m),
        };
        match self.expect(&Token::RightBracket) {
            Ok(()) => {},
            Err(m) => return Err(m),
        }
        match self.expect(&Token::Arrow) {
            Ok(()) => Ok(edge_type),
            Err(m) => Err(m),
        }
    }

    /// CREATE query.
    fn parse_create(&mut self) -> (r: Result<CreateQuery, String>)
        requires
            old(self).wf(),
        ensures
            final(self).wf(),
            final(self).toks() == old(self).toks(),
            agrees(r, |x: CreateQuery| create_view(x), final(self).pos(), p_create(old(self).toks(), old(self).pos())),
    {
        match self.expect(&Token::Create) {
            Ok(()) => {},
            Err(m) => return Err(m),
        }
        let source = match self.parse_paren() {
            Ok(e) => e,
            Err(m) => return Err(m),
        };
        let edge_type = match self.parse_edge_arrow() {
            Ok(e) => e,
            Err(m) => return Err(m),
        };
        let target = match self.parse_paren() {
            Ok(e) => e,
            Err(m) => return Err(m),
        };
        match self.parse_braced_pairs() {
            Ok(properties) => Ok(CreateQuery { edge_type, source, target, properties }),
            Err(m) => Err(m),
        }
    }

    /// Parse a query from the current token.
    pub fn parse_query(&mut self) -> (r: Result<Query, String>)
        requires
            old(self).wf(),
        ensures
            final(self).wf(),
            final(self).toks() == old(self).toks(),
            agrees(r, |x: Query| x@, final(self).pos(), p_query(old(self).toks(), old(self).pos())),
    {
        if self.at(&Token::From) {
            match self.parse_select() {
                Ok(q) => Ok(Query::Select(q)),
                Err(m) => Err(m),
            }
        } else if self.at(&Token::Insert) {
            match self.parse_insert() {
                Ok(q) => Ok(Query::Insert(q)),
                Err(m) => Err(m),
            }
        } else if self.at(&Token::Update) {
            match self.parse_update() {
                Ok(q) => Ok(Query::Update(q)),
                Err(m) => Err(m),
            }
        } else if self.at(&Token::Delete) {
            match self.parse_delete() {
                Ok(q) => Ok(Query::Delete(q)),
                Err(m) => Err(m),
            }
        } else if self.at(&Token::Create) {
            match self.parse_create() {
                Ok(q) => Ok(Query::Create(q)),
                Err(m) => Err(m),
            }
        } else {
            let c = self.current_debug();
            Err(concat2("Expected query keyword, got ", c.as_str()))
        }
    }

    /// Parse a DQL query text.
    pub fn parse(query: &str) -> (r: Result<Query, String>)
        ensures
            match parse_text(query@) {
                Ok(q) => r matches Ok(x) && x@ == q,
                Err(m) => r matches Err(e) && e@ == m,
            },
    {
        let mut lexer = Lexer::new(query);
        let tokens = match lexer.tokenize() {
            Ok(t) => t,
            Err(m) => return Err(m),
        };
        let mut parser = Parser::new(tokens);
        parser.parse_query()
    }
}

/// Each comparison token builds the comparison of its own name: after a
/// left operand, `=`, `!=`, `<`, `<=`, `>` and `>=` followed by an additive
/// operand `r` give `Equal`, `NotEqual`, `LessThan`, `LessThanEq`,
/// `GreaterThan` and `GreaterThanEq` of the left operand and `r`, and the
/// comparisons go on after `r`.
pub proof fn law_comparison_tokens(t: Seq<TokenView>, left: ExprView, q: int, r: ExprView, q2: int)
    requires
        p_add(t, q + 1) == Ok::<(ExprView, int), Seq<char>>((r, q2)),
        q < q2 <= t.len(),
    ensures
        cur(t, q) is Equal ==> comparison_rest(t, left, q) == comparison_rest(
            t,
            ExprView::Equal(Box::new(left), Box::new(r)),
            q2,
        ),
        cur(t, q) is NotEqual ==> comparison_rest(t, left, q) == comparison_rest(
            t,
            ExprView::NotEqual(Box::new(left), Box::new(r)),
            q2,
        ),
        cur(t, q) is LessThan ==> comparison_rest(t, left, q) == comparison_rest(
            t,
            ExprView::LessThan(Box::new(left), Box::new(r)),
            q2,
        ),
        cur(t, q) is LessThanEq ==> comparison_rest(t, left, q) == comparison_rest(
            t,
            ExprView::LessThanEq(Box::new(left), Box::new(r)),
            q2,
        ),
        cur(t, q) is GreaterThan ==> comparison_rest(t, left, q) == comparison_rest(
            t,
            ExprView::GreaterThan(Box::new(left), Box::new(r)),
            q2,
        ),
        cur(t, q) is GreaterThanEq ==> comparison_rest(t, left, q) == comparison_rest(
            t,
            ExprView::GreaterThanEq(Box::new(left), Box::new(r)),
            q2,
        ),
{
}

/// A token that is none of `=`, `!=`, `<`, `<=`, `>`, `>=` ends the
/// comparisons: the left operand is the result, and nothing is consumed.
pub proof fn law_comparisons_end(t: Seq<TokenView>, left: ExprView, q: int)
    requires
        !(cur(t, q) is Equal || cur(t, q) is NotEqual || cur(t, q) is LessThan || cur(t, q) is LessThanEq
            || cur(t, q) is GreaterThan || cur(t, q) is GreaterThanEq),
    ensures
        comparison_rest(t, left, q) == Ok::<(ExprView, int), Seq<char>>((left, q)),
{
}

/// Each arithmetic and logical operator token builds the node of its own
/// name: after a left operand, `*` and `/` followed by a unary operand give
/// `Multiply` and `Divide`, `+` and `-` followed by a multiplicative operand
/// give `Add` and `Subtract`, `AND` followed by a comparison gives `And`,
/// and `OR` followed by a conjunction gives `Or`; each goes on after the
/// right operand.
pub proof fn law_operator_tokens(t: Seq<TokenView>, left: ExprView, q: int, r: ExprView, q2: int)
    requires
        q < q2 <= t.len(),
    ensures
        cur(t, q) is Star && p_unary(t, q + 1) == Ok::<(ExprView, int), Seq<char>>((r, q2)) ==> mul_rest(t, left, q)
            == mul_rest(t, ExprView::Multiply(Box::new(left), Box::new(r)), q2),
        cur(t, q) is Slash && p_unary(t, q + 1) == Ok::<(ExprView, int), Seq<char>>((r, q2)) ==> mul_rest(t, left, q)
            == mul_rest(t, ExprView::Divide(Box::new(left), Box::new(r)), q2),
        cur(t, q) is Plus && p_mul(t, q + 1) == Ok::<(ExprView, int), Seq<char>>((r, q2)) ==> add_rest(t, left, q)
            == add_rest(t, ExprView::Add(Box::new(left), Box::new(r)), q2),
        cur(t, q) is Minus && p_mul(t, q + 1) == Ok::<(ExprView, int), Seq<char>>((r, q2)) ==> add_rest(t, left, q)
            == add_rest(t, ExprView::Subtract(Box::new(left), Box::new(r)), q2),
        cur(t, q) is And && p_comparison(t, q + 1) == Ok::<(ExprView, int), Seq<char>>((r, q2)) ==> and_rest(t, left, q)
            == and_rest(t, ExprView::And(Box::new(left), Box::new(r)), q2),
        cur(t, q) is Or && p_and(t, q + 1) == Ok::<(ExprView, int), Seq<char>>((r, q2)) ==> or_rest(t, left, q)
            == or_rest(t, ExprView::Or(Box::new(left), Box::new(r)), q2),
{
}

/// Any other token ends each chain of operators, leaving the left operand as
/// it is and consuming nothing.
pub proof fn law_operator_chains_end(t: Seq<TokenView>, left: ExprView, q: int)
    ensures
        !(cur(t, q) is Star || cur(t, q) is Slash) ==> mul_rest(t, left, q) == Ok::<(ExprView, int), Seq<char>>((left, q)),
        !(cur(t, q) is Plus || cur(t, q) is Minus) ==> add_rest(t, left, q) == Ok::<(ExprView, int), Seq<char>>((left, q)),
        !(cur(t, q) is And) ==> and_rest(t, left, q) == Ok::<(ExprView, int), Seq<char>>((left, q)),
        !(cur(t, q) is Or) ==> or_rest(t, left, q) == Ok::<(ExprView, int), Seq<char>>((left, q)),
{
}

/// `NOT` negates what follows it, and each literal token stands for the
/// literal of its own kind and contents.
pub proof fn law_not_and_literals(t: Seq<TokenView>, p: int, e: ExprView, q: int, n: i64, text: Seq<char>)
    ensures
        cur(t, p) is Not && p_unary(t, p + 1) == Ok::<(ExprView, int), Seq<char>>((e, q)) ==> p_unary(t, p) == Ok::<
            (ExprView, int),
            Seq<char>,
        >((ExprView::Not(Box::new(e)), q)),
        literal_of(TokenView::Integer(n)) == Some(LiteralView::Integer(n)),
        literal_of(TokenView::Float(text)) == Some(LiteralView::Float(text)),
        literal_of(TokenView::String(text)) == Some(LiteralView::String(text)),
        literal_of(TokenView::True) == Some(LiteralView::Bool(true)),
        literal_of(TokenView::False) == Some(LiteralView::Bool(false)),
        literal_of(TokenView::Null) == Some(LiteralView::Null),
{
}

} // verus!


