//! DQL (Deed Query Language) lexer.
//!
//! Turns a query text such as
//! `FROM Users WHERE city = 'NYC' TRAVERSE -[:PURCHASED]-> Product`
//! into tokens. The grammar of a single token is stated by `scan`, the
//! token stream by `lex_all`; the lexer is proved to follow both.

use vstd::prelude::*;
use vstd::string::StringExecFns;
use crate::text::{chars_of, string_from_chars, push_char, str_equal};

verus! {

/// A DQL token. A floating-point literal keeps its decimal text
/// (digits, a dot, digits); its value is read by whoever needs it.
#[derive(Debug, Clone, PartialEq)]
pub enum Token {
    // Keywords
    From,
    Where,
    Select,
    Traverse,
    Create,
    Update,
    Delete,
    SetKeyword,
    Insert,
    Into,
    Values,
    And,
    Or,
    Not,
    As,
    Limit,
    Offset,
    OrderBy,
    Asc,
    Desc,
    // Literals
    Identifier(String),
    String(String),
    Integer(i64),
    Float(String),
    True,
    False,
    Null,
    // Operators
    Equal,
    NotEqual,
    LessThan,
    LessThanEq,
    GreaterThan,
    GreaterThanEq,
    Plus,
    Minus,
    Star,
    Slash,
    Dot,
    Comma,
    Semicolon,
    Colon,
    // Graph operators
    Arrow,
    LeftArrow,
    BiArrow,
    // Brackets
    LeftParen,
    RightParen,
    LeftBracket,
    RightBracket,
    LeftBrace,
    RightBrace,
    // Special
    Eof,
}

/// The mathematical value of a token: its text payloads as character
/// sequences.
pub enum TokenView {
    From,
    Where,
    Select,
    Traverse,
    Create,
    Update,
    Delete,
    SetKeyword,
    Insert,
    Into,
    Values,
    And,
    Or,
    Not,
    As,
    Limit,
    Offset,
    OrderBy,
    Asc,
    Desc,
    Identifier(Seq<char>),
    String(Seq<char>),
    Integer(i64),
    Float(Seq<char>),
    True,
    False,
    Null,
    Equal,
    NotEqual,
    LessThan,
    LessThanEq,
    GreaterThan,
    GreaterThanEq,
    Plus,
    Minus,
    Star,
    Slash,
    Dot,
    Comma,
    Semicolon,
    Colon,
    Arrow,
    LeftArrow,
    BiArrow,
    LeftParen,
    RightParen,
    LeftBracket,
    RightBracket,
    LeftBrace,
    RightBrace,
    Eof,
}

impl View for Token {
    type V = TokenView;

    open spec fn view(&self) -> TokenView {
        match self {
            Token::From => TokenView::From,
            Token::Where => TokenView::Where,
            Token::Select => TokenView::Select,
            Token::Traverse => TokenView::Traverse,
            Token::Create => TokenView::Create,
            Token::Update => TokenView::Update,
            Token::Delete => TokenView::Delete,
            Token::SetKeyword => TokenView::SetKeyword,
            Token::Insert => TokenView::Insert,
            Token::Into => TokenView::Into,
            Token::Values => TokenView::Values,
            Token::And => TokenView::And,
            Token::Or => TokenView::Or,
            Token::Not => TokenView::Not,
            Token::As => TokenView::As,
            Token::Limit => TokenView::Limit,
            Token::Offset => TokenView::Offset,
            Token::OrderBy => TokenView::OrderBy,
            Token::Asc => TokenView::Asc,
            Token::Desc => TokenView::Desc,
            Token::Identifier(s) => TokenView::Identifier(s@),
            Token::String(s) => TokenView::String(s@),
            Token::Integer(n) => TokenView::Integer(*n),
            Token::Float(s) => TokenView::Float(s@),
            Token::True => TokenView::True,
            Token::False => TokenView::False,
            Token::Null => TokenView::Null,
            Token::Equal => TokenView::Equal,
            Token::NotEqual => TokenView::NotEqual,
            Token::LessThan => TokenView::LessThan,
            Token::LessThanEq => TokenView::LessThanEq,
            Token::GreaterThan => TokenView::GreaterThan,
            Token::GreaterThanEq => TokenView::GreaterThanEq,
            Token::Plus => TokenView::Plus,
            Token::Minus => TokenView::Minus,
            Token::Star => TokenView::Star,
            Token::Slash => TokenView::Slash,
            Token::Dot => TokenView::Dot,
            Token::Comma => TokenView::Comma,
            Token::Semicolon => TokenView::Semicolon,
            Token::Colon => TokenView::Colon,
            Token::Arrow => TokenView::Arrow,
            Token::LeftArrow => TokenView::LeftArrow,
            Token::BiArrow => TokenView::BiArrow,
            Token::LeftParen => TokenView::LeftParen,
            Token::RightParen => TokenView::RightParen,
            Token::LeftBracket => TokenView::LeftBracket,
            Token::RightBracket => TokenView::RightBracket,
            Token::LeftBrace => TokenView::LeftBrace,
            Token::RightBrace => TokenView::RightBrace,
            Token::Eof => TokenView::Eof,
        }
    }
}

// ---------------------------------------------------------------------
// Character classes and case mapping (std, Unicode tables)
// ---------------------------------------------------------------------

/// Unicode `White_Space`, which `char::is_whitespace` tests: U+0009 to
/// U+000D, the space, U+0085, U+00A0, U+1680, U+2000 to U+200A, U+2028,
/// U+2029, U+202F, U+205F and U+3000.
pub open spec fn char_is_whitespace(c: char) -> bool {
    let v = c as u32;
    ||| 0x9 <= v <= 0xd
    ||| v == 0x20
    ||| v == 0x85
    ||| v == 0xa0
    ||| v == 0x1680
    ||| 0x2000 <= v <= 0x200a
    ||| v == 0x2028
    ||| v == 0x2029
    ||| v == 0x202f
    ||| v == 0x205f
    ||| v == 0x3000
}

/// An ASCII letter.
pub open spec fn is_ascii_letter(c: char) -> bool {
    ('a' <= c && c <= 'z') || ('A' <= c && c <= 'Z')
}

/// Unicode `Alphabetic` beyond ASCII, as `char::is_alphabetic` decides it.
pub uninterp spec fn alphabetic_beyond_ascii(c: char) -> bool;

/// Unicode numeric (`Nd`, `Nl`, `No`) beyond ASCII, as `char::is_numeric`
/// decides it.
pub uninterp spec fn numeric_beyond_ascii(c: char) -> bool;

/// Unicode `Alphabetic`: in ASCII the letters, beyond it as std decides.
pub open spec fn char_is_alphabetic(c: char) -> bool {
    if (c as u32) < 0x80 {
        is_ascii_letter(c)
    } else {
        alphabetic_beyond_ascii(c)
    }
}

/// Unicode numeric: in ASCII the digits, beyond it as std decides.
pub open spec fn char_is_numeric(c: char) -> bool {
    if (c as u32) < 0x80 {
        '0' <= c && c <= '9'
    } else {
        numeric_beyond_ascii(c)
    }
}

/// Whether `c` is white space (`char::is_whitespace`).
pub(crate) fn is_whitespace(c: char) -> (r: bool)
    ensures
        r == char_is_whitespace(c),
{
    let v = c as u32;
    (0x9 <= v && v <= 0xd) || v == 0x20 || v == 0x85 || v == 0xa0 || v == 0x1680 || (0x2000 <= v && v <= 0x200a)
        || v == 0x2028 || v == 0x2029 || v == 0x202f || v == 0x205f || v == 0x3000
}

/// `char::is_alphabetic`. Claimed, as std documents the `Alphabetic`
/// property: in ASCII exactly the letters; beyond ASCII the answer is a
/// function of the character.
#[verifier::external_body]
fn is_alphabetic(c: char) -> (r: bool)
    ensures
        (c as u32) < 0x80 ==> r == is_ascii_letter(c),
        (c as u32) >= 0x80 ==> r == alphabetic_beyond_ascii(c),
        r == char_is_alphabetic(c),
{
    c.is_alphabetic()
}

/// `char::is_numeric`. Claimed, as std documents the numeric categories:
/// in ASCII exactly the digits; beyond ASCII the answer is a function of
/// the character.
#[verifier::external_body]
fn is_numeric(c: char) -> (r: bool)
    ensures
        (c as u32) < 0x80 ==> r == ('0' <= c && c <= '9'),
        (c as u32) >= 0x80 ==> r == numeric_beyond_ascii(c),
        r == char_is_numeric(c),
{
    c.is_numeric()
}

/// `char::is_alphanumeric`. Claimed, as std documents it: alphabetic or
/// numeric.
#[verifier::external_body]
fn is_alphanumeric(c: char) -> (r: bool)
    ensures
        (c as u32) < 0x80 ==> r == (is_ascii_letter(c) || ('0' <= c && c <= '9')),
        (c as u32) >= 0x80 ==> r == (alphabetic_beyond_ascii(c) || numeric_beyond_ascii(c)),
        r == (char_is_alphabetic(c) || char_is_numeric(c)),
{
    c.is_alphanumeric()
}

/// The Unicode upper-case mapping of a text, as `str::to_uppercase` gives it.
pub uninterp spec fn uppercase(s: Seq<char>) -> Seq<char>;

/// `str::to_uppercase`. Claimed: the result is a function of the text.
#[verifier::external_body]
pub(crate) fn to_uppercase(s: &str) -> (r: String)
    ensures
        r@ == uppercase(s@),
{
    s.to_uppercase()
}

// ---------------------------------------------------------------------
// The token grammar
// ---------------------------------------------------------------------

/// The character at `i`, if there is one.
pub open spec fn char_at(s: Seq<char>, i: int) -> Option<char> {
    if 0 <= i < s.len() {
        Some(s[i])
    } else {
        None
    }
}

/// A character that may begin an identifier.
pub open spec fn is_ident_start(c: char) -> bool {
    char_is_alphabetic(c) || c == '_'
}

/// A character that may continue an identifier.
pub open spec fn is_ident_char(c: char) -> bool {
    char_is_alphabetic(c) || char_is_numeric(c) || c == '_'
}

/// The first position at or after `i` that does not hold white space.
pub open spec fn skip_ws(s: Seq<char>, i: int) -> int
    decreases s.len() - i,
{
    if 0 <= i < s.len() && char_is_whitespace(s[i]) {
        skip_ws(s, i + 1)
    } else {
        i
    }
}

/// The first position at or after `i` that does not continue an identifier.
pub open spec fn ident_end(s: Seq<char>, i: int) -> int
    decreases s.len() - i,
{
    if 0 <= i < s.len() && is_ident_char(s[i]) {
        ident_end(s, i + 1)
    } else {
        i
    }
}

/// The first position at or after `i` that is not a numeric character.
pub open spec fn digits_end(s: Seq<char>, i: int) -> int
    decreases s.len() - i,
{
    if 0 <= i < s.len() && char_is_numeric(s[i]) {
        digits_end(s, i + 1)
    } else {
        i
    }
}

/// Whether the numeric run from `i` continues with a dot and a further
/// numeric character, making the literal a floating-point one.
pub open spec fn has_fraction(s: Seq<char>, i: int) -> bool {
    let d = digits_end(s, i);
    d + 1 < s.len() && s[d] == '.' && char_is_numeric(s[d + 1])
}

/// The end of the number literal that starts at `i`.
pub open spec fn number_end(s: Seq<char>, i: int) -> int {
    if has_fraction(s, i) {
        digits_end(s, digits_end(s, i) + 1)
    } else {
        digits_end(s, i)
    }
}

/// An ASCII decimal digit.
pub open spec fn is_ascii_digit(c: char) -> bool {
    '0' <= c <= '9'
}

/// The message of an integer literal with a character that is no ASCII digit.
pub open spec fn invalid_digit_msg() -> Seq<char> {
    "Invalid integer: invalid digit found in string"@
}

/// The message of an integer literal beyond `i64::MAX`.
pub open spec fn too_large_msg() -> Seq<char> {
    "Invalid integer: number too large to fit in target type"@
}

/// The message of a floating-point literal with a character that is no
/// ASCII digit.
pub open spec fn invalid_float_msg() -> Seq<char> {
    "Invalid float: invalid float literal"@
}

/// Reading the decimal integer `t` from position `i` on, with `acc` the
/// value of the digits before `i`: characters are taken left to right, a
/// non-digit fails at once, a value beyond `i64::MAX` fails at the digit
/// that passes it.
pub open spec fn parse_int_from(t: Seq<char>, i: int, acc: int) -> Result<i64, Seq<char>>
    decreases t.len() - i,
{
    if i >= t.len() || i < 0 {
        Ok(acc as i64)
    } else if !is_ascii_digit(t[i]) {
        Err(invalid_digit_msg())
    } else if acc * 10 + (t[i] as int - 48) > i64::MAX {
        Err(too_large_msg())
    } else {
        parse_int_from(t, i + 1, acc * 10 + (t[i] as int - 48))
    }
}

/// A floating-point literal's text is accepted when it is ASCII digits
/// around its dot.
pub open spec fn float_text_ok(t: Seq<char>) -> bool {
    forall|k: int| 0 <= k < t.len() ==> (is_ascii_digit(#[trigger] t[k]) || t[k] == '.')
}

/// The token of an upper-cased word, when the word is a keyword (other
/// than `ORDER`, which looks ahead).
pub open spec fn keyword(u: Seq<char>) -> Option<TokenView> {
    if u == "FROM"@ {
        Some(TokenView::From)
    } else if u == "WHERE"@ {
        Some(TokenView::Where)
    } else if u == "SELECT"@ {
        Some(TokenView::Select)
    } else if u == "TRAVERSE"@ {
        Some(TokenView::Traverse)
    } else if u == "CREATE"@ {
        Some(TokenView::Create)
    } else if u == "UPDATE"@ {
        Some(TokenView::Update)
    } else if u == "DELETE"@ {
        Some(TokenView::Delete)
    } else if u == "SET"@ {
        Some(TokenView::SetKeyword)
    } else if u == "INSERT"@ {
        Some(TokenView::Insert)
    } else if u == "INTO"@ {
        Some(TokenView::Into)
    } else if u == "VALUES"@ {
        Some(TokenView::Values)
    } else if u == "AND"@ {
        Some(TokenView::And)
    } else if u == "OR"@ {
        Some(TokenView::Or)
    } else if u == "NOT"@ {
        Some(TokenView::Not)
    } else if u == "AS"@ {
        Some(TokenView::As)
    } else if u == "LIMIT"@ {
        Some(TokenView::Limit)
    } else if u == "OFFSET"@ {
        Some(TokenView::Offset)
    } else if u == "ASC"@ {
        Some(TokenView::Asc)
    } else if u == "DESC"@ {
        Some(TokenView::Desc)
    } else if u == "TRUE"@ {
        Some(TokenView::True)
    } else if u == "FALSE"@ {
        Some(TokenView::False)
    } else if u == "NULL"@ {
        Some(TokenView::Null)
    } else {
        None
    }
}

/// The word that starts at `i`, and what it lexes to with the position
/// after it. `ORDER` followed (after white space) by the word `BY`, in any
/// case, is the single token `OrderBy`; an `ORDER` without it is an
/// identifier that ends where the white space after it ends.
pub open spec fn ident_scan(s: Seq<char>, i: int) -> (Result<TokenView, Seq<char>>, int) {
    let e = ident_end(s, i);
    let word = s.subrange(i, e);
    let u = uppercase(word);
    if u == "ORDER"@ {
        let w = skip_ws(s, e);
        let e2 = ident_end(s, w);
        if e2 > w && uppercase(s.subrange(w, e2)) == "BY"@ {
            (Ok(TokenView::OrderBy), e2)
        } else {
            (Ok(TokenView::Identifier(word)), w)
        }
    } else {
        match keyword(u) {
            Some(t) => (Ok(t), e),
            None => (Ok(TokenView::Identifier(word)), e),
        }
    }
}

/// The number literal that starts at `i`, and the position after it.
pub open spec fn number_scan(s: Seq<char>, i: int) -> (Result<TokenView, Seq<char>>, int) {
    let e = number_end(s, i);
    let text = s.subrange(i, e);
    if has_fraction(s, i) {
        if float_text_ok(text) {
            (Ok(TokenView::Float(text)), e)
        } else {
            (Err(invalid_float_msg()), e)
        }
    } else {
        match parse_int_from(text, 0, 0) {
            Ok(n) => (Ok(TokenView::Integer(n)), e),
            Err(m) => (Err(m), e),
        }
    }
}

/// What a backslash followed by `c` stands for inside a string literal.
pub open spec fn escape_seq(c: char) -> Seq<char> {
    if c == 'n' {
        seq!['\n']
    } else if c == 't' {
        seq!['\t']
    } else if c == 'r' {
        seq!['\r']
    } else if c == '\\' {
        seq!['\\']
    } else if c == '\'' {
        seq!['\'']
    } else if c == '"' {
        seq!['"']
    } else {
        seq!['\\', c]
    }
}

/// The body of a string literal from `i` to its closing `quote`: its
/// characters with escapes resolved and the position after the quote, or
/// `None` when the text ends first.
pub open spec fn str_body(s: Seq<char>, i: int, quote: char) -> Option<(Seq<char>, int)>
    decreases s.len() - i,
{
    if i < 0 || i >= s.len() {
        None
    } else if s[i] == '\\' {
        if i + 1 >= s.len() {
            None
        } else {
            match str_body(s, i + 2, quote) {
                Some((b, e)) => Some((escape_seq(s[i + 1]) + b, e)),
                None => None,
            }
        }
    } else if s[i] == quote {
        Some((Seq::<char>::empty(), i + 1))
    } else {
        match str_body(s, i + 1, quote) {
            Some((b, e)) => Some((seq![s[i]] + b, e)),
            None => None,
        }
    }
}

/// The message of a string literal that is not closed.
pub open spec fn unterminated_msg() -> Seq<char> {
    "Unterminated string literal"@
}

/// The string literal that opens at `i`.
pub open spec fn string_scan(s: Seq<char>, i: int) -> (Result<TokenView, Seq<char>>, int) {
    match str_body(s, i + 1, s[i]) {
        Some((b, e)) => (Ok(TokenView::String(b)), e),
        None => (Err(unterminated_msg()), s.len() as int),
    }
}

/// The message of a character that starts no token.
pub open spec fn unexpected_msg(c: char) -> Seq<char> {
    "Unexpected character: "@ + seq![c]
}

/// The operator or bracket at `i`.
pub open spec fn operator_scan(s: Seq<char>, i: int) -> (Result<TokenView, Seq<char>>, int) {
    let c = s[i];
    let n = char_at(s, i + 1);
    if c == '=' {
        (Ok(TokenView::Equal), i + 1)
    } else if c == '!' && n == Some('=') {
        (Ok(TokenView::NotEqual), i + 2)
    } else if c == '<' && n == Some('=') {
        (Ok(TokenView::LessThanEq), i + 2)
    } else if c == '<' && n == Some('-') {
        if char_at(s, i + 2) == Some('>') {
            (Ok(TokenView::BiArrow), i + 3)
        } else {
            (Ok(TokenView::LeftArrow), i + 2)
        }
    } else if c == '<' {
        (Ok(TokenView::LessThan), i + 1)
    } else if c == '>' && n == Some('=') {
        (Ok(TokenView::GreaterThanEq), i + 2)
    } else if c == '>' {
        (Ok(TokenView::GreaterThan), i + 1)
    } else if c == '-' && n == Some('>') {
        (Ok(TokenView::Arrow), i + 2)
    } else if c == '-' {
        (Ok(TokenView::Minus), i + 1)
    } else if c == '+' {
        (Ok(TokenView::Plus), i + 1)
    } else if c == '*' {
        (Ok(TokenView::Star), i + 1)
    } else if c == '/' {
        (Ok(TokenView::Slash), i + 1)
    } else if c == '.' {
        (Ok(TokenView::Dot), i + 1)
    } else if c == ',' {
        (Ok(TokenView::Comma), i + 1)
    } else if c == ';' {
        (Ok(TokenView::Semicolon), i + 1)
    } else if c == ':' {
        (Ok(TokenView::Colon), i + 1)
    } else if c == '(' {
        (Ok(TokenView::LeftParen), i + 1)
    } else if c == ')' {
        (Ok(TokenView::RightParen), i + 1)
    } else if c == '[' {
        (Ok(TokenView::LeftBracket), i + 1)
    } else if c == ']' {
        (Ok(TokenView::RightBracket), i + 1)
    } else if c == '{' {
        (Ok(TokenView::LeftBrace), i + 1)
    } else if c == '}' {
        (Ok(TokenView::RightBrace), i + 1)
    } else {
        (Err(unexpected_msg(c)), i)
    }
}

/// The next token of `s` from position `p`, and the position after it:
/// white space is skipped, then the first character decides the kind.
pub open spec fn scan(s: Seq<char>, p: int) -> (Result<TokenView, Seq<char>>, int) {
    let q = skip_ws(s, p);
    if q < 0 || q >= s.len() {
        (Ok(TokenView::Eof), q)
    } else if is_ident_start(s[q]) {
        ident_scan(s, q)
    } else if char_is_numeric(s[q]) {
        number_scan(s, q)
    } else if s[q] == '\'' || s[q] == '"' {
        string_scan(s, q)
    } else {
        operator_scan(s, q)
    }
}

/// All tokens of `s` from position `p` on, the last one `Eof`, or the
/// first error.
pub open spec fn lex_all(s: Seq<char>, p: int) -> Result<Seq<TokenView>, Seq<char>>
    decreases s.len() - p,
{
    let (r, q) = scan(s, p);
    match r {
        Err(e) => Err(e),
        Ok(t) => {
            if t is Eof {
                Ok(seq![t])
            } else if p < q <= s.len() {
                match lex_all(s, q) {
                    Ok(ts) => Ok(seq![t] + ts),
                    Err(e) => Err(e),
                }
            } else {
                Err(Seq::<char>::empty())
            }
        },
    }
}

/// The views of a sequence of tokens.
pub open spec fn token_views(v: Seq<Token>) -> Seq<TokenView> {
    v.map_values(|t: Token| t@)
}


/// The view of a lexing step's result.
pub open spec fn result_view(r: Result<Token, String>) -> Result<TokenView, Seq<char>> {
    match r {
        Ok(t) => Ok(t@),
        Err(e) => Err(e@),
    }
}

/// The view of a whole lexing's result.
pub open spec fn tokens_result_view(r: Result<Vec<Token>, String>) -> Result<Seq<TokenView>, Seq<char>> {
    match r {
        Ok(ts) => Ok(token_views(ts@)),
        Err(e) => Err(e@),
    }
}

/// `done` in front of the tokens of `rest`, or the error of `rest`.
pub open spec fn prepend_tokens(done: Seq<TokenView>, rest: Result<Seq<TokenView>, Seq<char>>) -> Result<Seq<TokenView>, Seq<char>> {
    match rest {
        Ok(ts) => Ok(done + ts),
        Err(e) => Err(e),
    }
}

/// `done` in front of a string body, keeping its end.
pub open spec fn prepend_body(done: Seq<char>, rest: Option<(Seq<char>, int)>) -> Option<(Seq<char>, int)> {
    match rest {
        Some((b, e)) => Some((done + b, e)),
        None => None,
    }
}

proof fn lemma_subrange_push(s: Seq<char>, a: int, b: int)
    requires
        0 <= a <= b < s.len(),
    ensures
        s.subrange(a, b).push(s[b]) == s.subrange(a, b + 1),
{
    assert(s.subrange(a, b).push(s[b]) =~= s.subrange(a, b + 1));
}

proof fn lemma_token_views_push(v: Seq<Token>, t: Token)
    ensures
        token_views(v.push(t)) == token_views(v).push(t@),
{
    assert(token_views(v.push(t)) =~= token_views(v).push(t@));
}

proof fn lemma_skip_ws_bounds(s: Seq<char>, i: int)
    requires
        0 <= i <= s.len(),
    ensures
        i <= skip_ws(s, i) <= s.len(),
    decreases s.len() - i,
{
    if i < s.len() && char_is_whitespace(s[i]) {
        lemma_skip_ws_bounds(s, i + 1);
    }
}

proof fn lemma_ident_end_bounds(s: Seq<char>, i: int)
    requires
        0 <= i <= s.len(),
    ensures
        i <= ident_end(s, i) <= s.len(),
        i < s.len() && is_ident_char(s[i]) ==> i < ident_end(s, i),
    decreases s.len() - i,
{
    if i < s.len() && is_ident_char(s[i]) {
        lemma_ident_end_bounds(s, i + 1);
    }
}

proof fn lemma_digits_end_bounds(s: Seq<char>, i: int)
    requires
        0 <= i <= s.len(),
    ensures
        i <= digits_end(s, i) <= s.len(),
        i < s.len() && char_is_numeric(s[i]) ==> i < digits_end(s, i),
    decreases s.len() - i,
{
    if i < s.len() && char_is_numeric(s[i]) {
        lemma_digits_end_bounds(s, i + 1);
    }
}

proof fn lemma_str_body_end(s: Seq<char>, i: int, quote: char)
    requires
        0 <= i,
    ensures
        str_body(s, i, quote) matches Some((b, e)) ==> i < e <= s.len(),
    decreases s.len() - i,
{
    if 0 <= i < s.len() {
        if s[i] == '\\' {
            if i + 1 < s.len() {
                lemma_str_body_end(s, i + 2, quote);
            }
        } else if s[i] != quote {
            lemma_str_body_end(s, i + 1, quote);
        }
    }
}

/// Every token but `Eof` takes at least one character, and no token reads
/// past the end of the text.
pub proof fn law_tokens_consume_input(s: Seq<char>, p: int)
    requires
        0 <= p <= s.len(),
    ensures
        scan(s, p).0 matches Ok(t) && !(t is Eof) ==> p < scan(s, p).1 <= s.len(),
{
    let q = skip_ws(s, p);
    lemma_skip_ws_bounds(s, p);
    if q < s.len() {
        if is_ident_start(s[q]) {
            let e = ident_end(s, q);
            lemma_ident_end_bounds(s, q);
            lemma_skip_ws_bounds(s, e);
            let w = skip_ws(s, e);
            lemma_ident_end_bounds(s, w);
        } else if char_is_numeric(s[q]) {
            lemma_digits_end_bounds(s, q);
            let d = digits_end(s, q);
            if has_fraction(s, q) {
                lemma_digits_end_bounds(s, d + 1);
            }
        } else if s[q] == '\'' || s[q] == '"' {
            lemma_str_body_end(s, q + 1, s[q]);
        }
    }
}

/// The token for an upper-cased word that is a keyword.
fn keyword_token(u: &str) -> (r: Option<Token>)
    ensures
        match r {
            Some(t) => keyword(u@) == Some(t@),
            None => keyword(u@) is None,
        },
{
    if str_equal(u, "FROM") {
        Some(Token::From)
    } else if str_equal(u, "WHERE") {
        Some(Token::Where)
    } else if str_equal(u, "SELECT") {
        Some(Token::Select)
    } else if str_equal(u, "TRAVERSE") {
        Some(Token::Traverse)
    } else if str_equal(u, "CREATE") {
        Some(Token::Create)
    } else if str_equal(u, "UPDATE") {
        Some(Token::Update)
    } else if str_equal(u, "DELETE") {
        Some(Token::Delete)
    } else if str_equal(u, "SET") {
        Some(Token::SetKeyword)
    } else if str_equal(u, "INSERT") {
        Some(Token::Insert)
    } else if str_equal(u, "INTO") {
        Some(Token::Into)
    } else if str_equal(u, "VALUES") {
        Some(Token::Values)
    } else if str_equal(u, "AND") {
        Some(Token::And)
    } else if str_equal(u, "OR") {
        Some(Token::Or)
    } else if str_equal(u, "NOT") {
        Some(Token::Not)
    } else if str_equal(u, "AS") {
        Some(Token::As)
    } else if str_equal(u, "LIMIT") {
        Some(Token::Limit)
    } else if str_equal(u, "OFFSET") {
        Some(Token::Offset)
    } else if str_equal(u, "ASC") {
        Some(Token::Asc)
    } else if str_equal(u, "DESC") {
        Some(Token::Desc)
    } else if str_equal(u, "TRUE") {
        Some(Token::True)
    } else if str_equal(u, "FALSE") {
        Some(Token::False)
    } else if str_equal(u, "NULL") {
        Some(Token::Null)
    } else {
        None
    }
}

/// Reads the decimal integer in `t` as `str::parse::<i64>` does for a text
/// without sign: left to right, failing at the first non-digit or at the
/// digit that passes `i64::MAX`.
fn parse_i64(t: &Vec<char>) -> (r: Result<i64, String>)
    ensures
        match r {
            Ok(n) => parse_int_from(t@, 0, 0) == Ok::<i64, Seq<char>>(n),
            Err(e) => parse_int_from(t@, 0, 0) == Err::<i64, Seq<char>>(e@),
        },
{
    let mut acc: i64 = 0;
    let mut i: usize = 0;
    while i < t.len()
        invariant
            i <= t@.len(),
            0 <= acc,
            parse_int_from(t@, 0, 0) == parse_int_from(t@, i as int, acc as int),
        decreases t.len() - i,
    {
        let c = t[i];
        if !('0' <= c && c <= '9') {
            return Err(String::from_str("Invalid integer: invalid digit found in string"));
        }
        let d: i64 = (c as u32 - 48) as i64;
        assert(d == c as int - 48);
        if acc > 922337203685477580 || (acc == 922337203685477580 && d > 7) {
            return Err(String::from_str("Invalid integer: number too large to fit in target type"));
        }
        acc = acc * 10 + d;
        i = i + 1;
    }
    Ok(acc)
}

/// Whether every character is an ASCII digit or a dot.
fn float_chars_ok(t: &Vec<char>) -> (r: bool)
    ensures
        r == float_text_ok(t@),
{
    let mut i: usize = 0;
    while i < t.len()
        invariant
            i <= t@.len(),
            forall|k: int| 0 <= k < i ==> (is_ascii_digit(#[trigger] t@[k]) || t@[k] == '.'),
        decreases t.len() - i,
    {
        let c = t[i];
        if !(('0' <= c && c <= '9') || c == '.') {
            assert(!(is_ascii_digit(t@[i as int]) || t@[i as int] == '.'));
            return false;
        }
        i = i + 1;
    }
    true
}

/// Appends what a backslash followed by `c` stands for.
fn push_escape(v: &mut Vec<char>, c: char)
    ensures
        final(v)@ == old(v)@ + escape_seq(c),
{
    let ghost v0 = v@;
    if c == 'n' {
        v.push('\n');
    } else if c == 't' {
        v.push('\t');
    } else if c == 'r' {
        v.push('\r');
    } else if c == '\\' {
        v.push('\\');
    } else if c == '\'' {
        v.push('\'');
    } else if c == '"' {
        v.push('"');
    } else {
        v.push('\\');
        v.push(c);
    }
    assert(v@ =~= v0 + escape_seq(c));
}

/// A DQL lexer: the query's characters and the position reached.
pub struct Lexer {
    input: Vec<char>,
    position: usize,
    current_char: Option<char>,
}

impl Lexer {
    /// The characters being lexed.
    pub closed spec fn input_spec(&self) -> Seq<char> {
        self.input@
    }

    /// The position of the next character to read.
    pub closed spec fn position_spec(&self) -> int {
        self.position as int
    }

    /// The position lies within the text (or at its end) and the current
    /// character is the one there.
    pub closed spec fn wf(&self) -> bool {
        &&& self.position <= self.input@.len()
        &&& self.current_char == char_at(self.input@, self.position as int)
    }

    /// A lexer at the start of `input`.
    pub fn new(input: &str) -> (r: Self)
        ensures
            r.wf(),
            r.input_spec() == input@,
            r.position_spec() == 0,
    {
        let chars = chars_of(input);
        let current = if chars.len() > 0 {
            Some(chars[0])
        } else {
            None
        };
        Lexer { input: chars, position: 0, current_char: current }
    }

    fn advance(&mut self)
        requires
            old(self).wf(),
            old(self).position < old(self).input.len(),
        ensures
            final(self).wf(),
            final(self).input@ == old(self).input@,
            final(self).position == old(self).position + 1,
    {
        self.position = self.position + 1;
        self.current_char = if self.position < self.input.len() {
            Some(self.input[self.position])
        } else {
            None
        };
    }

    fn peek(&self) -> (r: Option<char>)
        requires
            self.wf(),
        ensures
            r == char_at(self.input@, self.position + 1),
    {
        if self.position < self.input.len() && self.position + 1 < self.input.len() {
            Some(self.input[self.position + 1])
        } else {
            None
        }
    }

    fn skip_whitespace(&mut self)
        requires
            old(self).wf(),
        ensures
            final(self).wf(),
            final(self).input@ == old(self).input@,
            final(self).position == skip_ws(old(self).input@, old(self).position as int),
    {
        let ghost s = self.input@;
        let ghost target = skip_ws(s, self.position as int);
        loop
            invariant
                self.wf(),
                self.input@ == s,
                skip_ws(s, self.position as int) == target,
            ensures
                self.wf(),
                self.input@ == s,
                self.position == target,
            decreases s.len() - self.position,
        {
            match self.current_char {
                Some(ch) => {
                    if is_whitespace(ch) {
                        self.advance();
                    } else {
                        break;
                    }
                },
                None => {
                    break;
                },
            }
        }
    }

    /// Consumes the run of identifier characters at the position.
    fn read_ident_run(&mut self) -> (r: Vec<char>)
        requires
            old(self).wf(),
        ensures
            final(self).wf(),
            final(self).input@ == old(self).input@,
            final(self).position == ident_end(old(self).input@, old(self).position as int),
            r@ == old(self).input@.subrange(old(self).position as int, final(self).position as int),
    {
        let ghost s = self.input@;
        let ghost start = self.position as int;
        let mut run: Vec<char> = Vec::new();
        loop
            invariant
                self.wf(),
                self.input@ == s,
                0 <= start <= self.position,
                ident_end(s, self.position as int) == ident_end(s, start),
                run@ == s.subrange(start, self.position as int),
            ensures
                self.wf(),
                self.input@ == s,
                self.position == ident_end(s, start),
                run@ == s.subrange(start, self.position as int),
            decreases s.len() - self.position,
        {
            match self.current_char {
                Some(ch) => {
                    if is_alphanumeric(ch) || ch == '_' {
                        proof {
                            lemma_subrange_push(s, start, self.position as int);
                        }
                        run.push(ch);
                        self.advance();
                    } else {
                        break;
                    }
                },
                None => {
                    break;
                },
            }
        }
        run
    }

    /// The run of identifier characters at the position, without consuming it.
    fn peek_identifier(&self) -> (r: Option<String>)
        requires
            self.wf(),
        ensures
            match r {
                Some(w) => ident_end(self.input@, self.position as int) > self.position
                    && w@ == self.input@.subrange(self.position as int, ident_end(self.input@, self.position as int)),
                None => ident_end(self.input@, self.position as int) == self.position,
            },
    {
        let ghost s = self.input@;
        let ghost start = self.position as int;
        let mut pos = self.position;
        let mut run: Vec<char> = Vec::new();
        while pos < self.input.len() && (is_alphanumeric(self.input[pos]) || self.input[pos] == '_')
            invariant
                s == self.input@,
                0 <= start <= pos <= s.len(),
                ident_end(s, pos as int) == ident_end(s, start),
                run@ == s.subrange(start, pos as int),
            decreases s.len() - pos,
        {
            proof {
                lemma_subrange_push(s, start, pos as int);
            }
            run.push(self.input[pos]);
            pos = pos + 1;
        }
        if run.len() == 0 {
            None
        } else {
            Some(string_from_chars(&run))
        }
    }

    /// Reads an identifier or keyword at the position.
    fn read_identifier(&mut self) -> (r: Token)
        requires
            old(self).wf(),
        ensures
            final(self).wf(),
            final(self).input@ == old(self).input@,
            ident_scan(old(self).input@, old(self).position as int) == (
            Ok::<TokenView, Seq<char>>(r@), final(self).position as int),
    {
        let ghost s = self.input@;
        let ghost p = self.position as int;
        let run = self.read_ident_run();
        let word = string_from_chars(&run);
        let upper = to_uppercase(word.as_str());
        if str_equal(upper.as_str(), "ORDER") {
            // "ORDER BY" is one token.
            self.skip_whitespace();
            match self.peek_identifier() {
                Some(next) => {
                    let next_upper = to_uppercase(next.as_str());
                    if str_equal(next_upper.as_str(), "BY") {
                        let _ = self.read_ident_run();
                        return Token::OrderBy;
                    }
                },
                None => {},
            }
            return Token::Identifier(word);
        }
        match keyword_token(upper.as_str()) {
            Some(t) => t,
            None => Token::Identifier(word),
        }
    }

    /// Reads a number literal at the position.
    fn read_number(&mut self) -> (r: Result<Token, String>)
        requires
            old(self).wf(),
        ensures
            final(self).wf(),
            final(self).input@ == old(self).input@,
            number_scan(old(self).input@, old(self).position as int) == (result_view(r), final(self).position as int),
    {
        let ghost s = self.input@;
        let ghost start = self.position as int;
        let mut text: Vec<char> = Vec::new();
        // The integer part.
        loop
            invariant
                self.wf(),
                self.input@ == s,
                0 <= start <= self.position,
                digits_end(s, self.position as int) == digits_end(s, start),
                text@ == s.subrange(start, self.position as int),
            ensures
                self.wf(),
                self.input@ == s,
                self.position == digits_end(s, start),
                text@ == s.subrange(start, self.position as int),
            decreases s.len() - self.position,
        {
            match self.current_char {
                Some(ch) => {
                    if is_numeric(ch) {
                        proof {
                            lemma_subrange_push(s, start, self.position as int);
                        }
                        text.push(ch);
                        self.advance();
                    } else {
                        break;
                    }
                },
                None => {
                    break;
                },
            }
        }
        // A dot followed by a digit makes it a floating-point literal.
        let mut is_float = false;
        if self.current_char == Some('.') {
            match self.peek() {
                Some(next) => {
                    if is_numeric(next) {
                        is_float = true;
                        proof {
                            lemma_subrange_push(s, start, self.position as int);
                        }
                        text.push('.');
                        self.advance();
                    }
                },
                None => {},
            }
        }
        assert(is_float == has_fraction(s, start));
        if is_float {
            let ghost mid = self.position as int;
            loop
                invariant
                    self.wf(),
                    self.input@ == s,
                    0 <= start <= mid <= self.position,
                    digits_end(s, self.position as int) == digits_end(s, mid),
                    text@ == s.subrange(start, self.position as int),
                ensures
                    self.wf(),
                    self.input@ == s,
                    self.position == digits_end(s, mid),
                    text@ == s.subrange(start, self.position as int),
                decreases s.len() - self.position,
            {
                match self.current_char {
                    Some(ch) => {
                        if is_numeric(ch) {
                            proof {
                                lemma_subrange_push(s, start, self.position as int);
                            }
                            text.push(ch);
                            self.advance();
                        } else {
                            break;
                        }
                    },
                    None => {
                        break;
                    },
                }
            }
            if float_chars_ok(&text) {
                Ok(Token::Float(string_from_chars(&text)))
            } else {
                Err(String::from_str("Invalid float: invalid float literal"))
            }
        } else {
            match parse_i64(&text) {
                Ok(n) => Ok(Token::Integer(n)),
                Err(e) => Err(e),
            }
        }
    }

    /// Reads a string literal; the position holds its opening quote.
    fn read_string(&mut self) -> (r: Result<Token, String>)
        requires
            old(self).wf(),
            old(self).position < old(self).input@.len(),
        ensures
            final(self).wf(),
            final(self).input@ == old(self).input@,
            string_scan(old(self).input@, old(self).position as int) == (result_view(r), final(self).position as int),
    {
        let ghost s = self.input@;
        let ghost start = self.position as int;
        let quote_char = self.input[self.position];
        self.advance();
        let mut text: Vec<char> = Vec::new();
        loop
            invariant
                self.wf(),
                self.input@ == s,
                s == old(self).input@,
                quote_char == s[start],
                start == old(self).position,
                start < self.position,
                str_body(s, start + 1, quote_char) == prepend_body(text@, str_body(s, self.position as int, quote_char)),
            decreases s.len() - self.position,
        {
            let pos = self.position;
            if pos >= self.input.len() {
                return Err(String::from_str("Unterminated string literal"));
            }
            let ch = self.input[pos];
            if ch == '\\' {
                if pos + 1 >= self.input.len() {
                    self.advance();
                    return Err(String::from_str("Unterminated string literal"));
                }
                let esc = self.input[pos + 1];
                let ghost before = text@;
                push_escape(&mut text, esc);
                proof {
                    match str_body(s, pos + 2, quote_char) {
                        Some((b, e)) => {
                            assert(before + (escape_seq(esc) + b) =~= (before + escape_seq(esc)) + b);
                        },
                        None => {},
                    }
                }
                self.advance();
                self.advance();
            } else if ch == quote_char {
                self.advance();
                assert(text@ + Seq::<char>::empty() =~= text@);
                return Ok(Token::String(string_from_chars(&text)));
            } else {
                let ghost before = text@;
                text.push(ch);
                proof {
                    match str_body(s, pos + 1, quote_char) {
                        Some((b, e)) => {
                            assert(before + (seq![ch] + b) =~= before.push(ch) + b);
                        },
                        None => {},
                    }
                }
                self.advance();
            }
        }
    }

    /// Reads an operator or bracket at the position.
    fn read_operator(&mut self) -> (r: Result<Token, String>)
        requires
            old(self).wf(),
            old(self).position < old(self).input@.len(),
        ensures
            final(self).wf(),
            final(self).input@ == old(self).input@,
            operator_scan(old(self).input@, old(self).position as int) == (result_view(r), final(self).position as int),
    {
        let ch = self.input[self.position];
        let next = self.peek();
        let token = match (ch, next) {
            ('=', _) => {
                self.advance();
                Token::Equal
            },
            ('!', Some('=')) => {
                self.advance();
                self.advance();
                Token::NotEqual
            },
            ('<', Some('=')) => {
                self.advance();
                self.advance();
                Token::LessThanEq
            },
            ('<', Some('-')) => {
                self.advance();
                self.advance();
                // `<->` is the two-way arrow.
                if self.current_char == Some('>') {
                    self.advance();
                    Token::BiArrow
                } else {
                    Token::LeftArrow
                }
            },
            ('<', _) => {
                self.advance();
                Token::LessThan
            },
            ('>', Some('=')) => {
                self.advance();
                self.advance();
                Token::GreaterThanEq
            },
            ('>', _) => {
                self.advance();
                Token::GreaterThan
            },
            ('-', Some('>')) => {
                self.advance();
                self.advance();
                Token::Arrow
            },
            ('-', _) => {
                self.advance();
                Token::Minus
            },
            ('+', _) => {
                self.advance();
                Token::Plus
            },
            ('*', _) => {
                self.advance();
                Token::Star
            },
            ('/', _) => {
                self.advance();
                Token::Slash
            },
            ('.', _) => {
                self.advance();
                Token::Dot
            },
            (',', _) => {
                self.advance();
                Token::Comma
            },
            (';', _) => {
                self.advance();
                Token::Semicolon
            },
            (':', _) => {
                self.advance();
                Token::Colon
            },
            ('(', _) => {
                self.advance();
                Token::LeftParen
            },
            (')', _) => {
                self.advance();
                Token::RightParen
            },
            ('[', _) => {
                self.advance();
                Token::LeftBracket
            },
            (']', _) => {
                self.advance();
                Token::RightBracket
            },
            ('{', _) => {
                self.advance();
                Token::LeftBrace
            },
            ('}', _) => {
                self.advance();
                Token::RightBrace
            },
            _ => {
                let mut msg = String::from_str("Unexpected character: ");
                push_char(&mut msg, ch);
                assert(msg@ =~= unexpected_msg(ch));
                return Err(msg);
            },
        };
        Ok(token)
    }

    /// The next token, as `scan` states it; white space before it is skipped.
    pub fn next_token(&mut self) -> (r: Result<Token, String>)
        requires
            old(self).wf(),
        ensures
            final(self).wf(),
            final(self).input_spec() == old(self).input_spec(),
            scan(old(self).input_spec(), old(self).position_spec()) == (result_view(r), final(self).position_spec()),
    {
        self.skip_whitespace();
        match self.current_char {
            None => Ok(Token::Eof),
            Some(ch) => {
                if is_alphabetic(ch) || ch == '_' {
                    Ok(self.read_identifier())
                } else if is_numeric(ch) {
                    self.read_number()
                } else if ch == '\'' || ch == '"' {
                    self.read_string()
                } else {
                    self.read_operator()
                }
            },
        }
    }

    /// All remaining tokens up to and including `Eof`, or the first error,
    /// as `lex_all` states them.
    pub fn tokenize(&mut self) -> (r: Result<Vec<Token>, String>)
        requires
            old(self).wf(),
        ensures
            final(self).wf(),
            final(self).input_spec() == old(self).input_spec(),
            tokens_result_view(r) == lex_all(old(self).input_spec(), old(self).position_spec()),
    {
        let ghost s = self.input@;
        let ghost p0 = self.position as int;
        let mut tokens: Vec<Token> = Vec::new();
        loop
            invariant
                self.wf(),
                self.input@ == s,
                s == old(self).input@,
                p0 == old(self).position,
                lex_all(s, p0) == prepend_tokens(token_views(tokens@), lex_all(s, self.position as int)),
            decreases s.len() - self.position,
        {
            let ghost p = self.position as int;
            proof {
                law_tokens_consume_input(s, p);
            }
            let token = self.next_token();
            match token {
                Err(e) => {
                    return Err(e);
                },
                Ok(t) => {
                    let is_eof = match t {
                        Token::Eof => true,
                        _ => false,
                    };
                    let ghost before = token_views(tokens@);
                    proof {
                        lemma_token_views_push(tokens@, t);
                    }
                    tokens.push(t);
                    if is_eof {
                        assert(before + seq![t@] =~= before.push(t@));
                        return Ok(tokens);
                    }
                    proof {
                        match lex_all(s, self.position as int) {
                            Ok(ts) => {
                                assert(before + (seq![t@] + ts) =~= before.push(t@) + ts);
                            },
                            Err(e) => {},
                        }
                    }
                },
            }
        }
    }
}


/// A token stream ends at the end of the text: a successful lexing yields
/// at least one token, its last token is `Eof`, and no earlier token is.
pub proof fn law_token_stream_ends_with_eof(s: Seq<char>, p: int)
    ensures
        lex_all(s, p) matches Ok(ts) ==> ts.len() >= 1 && ts[ts.len() - 1] is Eof
            && forall|i: int| 0 <= i < ts.len() - 1 ==> !(ts[i] is Eof),
    decreases s.len() - p,
{
    let (r, q) = scan(s, p);
    if let Ok(t) = r {
        if !(t is Eof) && p < q <= s.len() {
            law_token_stream_ends_with_eof(s, q);
            if let Ok(rest) = lex_all(s, q) {
                let ts = seq![t] + rest;
                assert forall|i: int| 0 <= i < ts.len() - 1 implies !(ts[i] is Eof) by {
                    if i > 0 {
                        assert(ts[i] == rest[i - 1]);
                    }
                }
                assert(ts[ts.len() - 1] == rest[rest.len() - 1]);
            }
        }
    }
}

/// Each keyword lexes to the token of its own name (`SET` to the `SET`
/// keyword token); no other word is a keyword.
pub proof fn law_keyword_tokens(u: Seq<char>)
    ensures
        keyword(u) is Some <==> (u == "FROM"@ || u == "WHERE"@ || u == "SELECT"@ || u == "TRAVERSE"@ || u == "CREATE"@ || u == "UPDATE"@ || u == "DELETE"@ || u == "SET"@ || u == "INSERT"@ || u == "INTO"@ || u == "VALUES"@ || u == "AND"@ || u == "OR"@ || u == "NOT"@ || u == "AS"@ || u == "LIMIT"@ || u == "OFFSET"@ || u == "ASC"@ || u == "DESC"@ || u == "TRUE"@ || u == "FALSE"@ || u == "NULL"@),
        keyword("FROM"@) == Some(TokenView::From),
        keyword("WHERE"@) == Some(TokenView::Where),
        keyword("SELECT"@) == Some(TokenView::Select),
        keyword("TRAVERSE"@) == Some(TokenView::Traverse),
        keyword("CREATE"@) == Some(TokenView::Create),
        keyword("UPDATE"@) == Some(TokenView::Update),
        keyword("DELETE"@) == Some(TokenView::Delete),
        keyword("SET"@) == Some(TokenView::SetKeyword),
        keyword("INSERT"@) == Some(TokenView::Insert),
        keyword("INTO"@) == Some(TokenView::Into),
        keyword("VALUES"@) == Some(TokenView::Values),
        keyword("AND"@) == Some(TokenView::And),
        keyword("OR"@) == Some(TokenView::Or),
        keyword("NOT"@) == Some(TokenView::Not),
        keyword("AS"@) == Some(TokenView::As),
        keyword("LIMIT"@) == Some(TokenView::Limit),
        keyword("OFFSET"@) == Some(TokenView::Offset),
        keyword("ASC"@) == Some(TokenView::Asc),
        keyword("DESC"@) == Some(TokenView::Desc),
        keyword("TRUE"@) == Some(TokenView::True),
        keyword("FALSE"@) == Some(TokenView::False),
        keyword("NULL"@) == Some(TokenView::Null),
{
    reveal_strlit("FROM");
    reveal_strlit("WHERE");
    reveal_strlit("SELECT");
    reveal_strlit("TRAVERSE");
    reveal_strlit("CREATE");
    reveal_strlit("UPDATE");
    reveal_strlit("DELETE");
    reveal_strlit("SET");
    reveal_strlit("INSERT");
    reveal_strlit("INTO");
    reveal_strlit("VALUES");
    reveal_strlit("AND");
    reveal_strlit("OR");
    reveal_strlit("NOT");
    reveal_strlit("AS");
    reveal_strlit("LIMIT");
    reveal_strlit("OFFSET");
    reveal_strlit("ASC");
    reveal_strlit("DESC");
    reveal_strlit("TRUE");
    reveal_strlit("FALSE");
    reveal_strlit("NULL");
    assert("WHERE"@.len() != "FROM"@.len());
    assert("SELECT"@.len() != "FROM"@.len());
    assert("SELECT"@.len() != "WHERE"@.len());
    assert("TRAVERSE"@.len() != "FROM"@.len());
    assert("TRAVERSE"@.len() != "WHERE"@.len());
    assert("TRAVERSE"@.len() != "SELECT"@.len());
    assert("CREATE"@.len() != "FROM"@.len());
    assert("CREATE"@.len() != "WHERE"@.len());
    assert("CREATE"@[0] != "SELECT"@[0]);
    assert("CREATE"@.len() != "TRAVERSE"@.len());
    assert("UPDATE"@.len() != "FROM"@.len());
    assert("UPDATE"@.len() != "WHERE"@.len());
    assert("UPDATE"@[0] != "SELECT"@[0]);
    assert("UPDATE"@.len() != "TRAVERSE"@.len());
    assert("UPDATE"@[0] != "CREATE"@[0]);
    assert("DELETE"@.len() != "FROM"@.len());
    assert("DELETE"@.len() != "WHERE"@.len());
    assert("DELETE"@[0] != "SELECT"@[0]);
    assert("DELETE"@.len() != "TRAVERSE"@.len());
    assert("DELETE"@[0] != "CREATE"@[0]);
    assert("DELETE"@[0] != "UPDATE"@[0]);
    assert("SET"@.len() != "FROM"@.len());
    assert("SET"@.len() != "WHERE"@.len());
    assert("SET"@.len() != "SELECT"@.len());
    assert("SET"@.len() != "TRAVERSE"@.len());
    assert("SET"@.len() != "CREATE"@.len());
    assert("SET"@.len() != "UPDATE"@.len());
    assert("SET"@.len() != "DELETE"@.len());
    assert("INSERT"@.len() != "FROM"@.len());
    assert("INSERT"@.len() != "WHERE"@.len());
    assert("INSERT"@[0] != "SELECT"@[0]);
    assert("INSERT"@.len() != "TRAVERSE"@.len());
    assert("INSERT"@[0] != "CREATE"@[0]);
    assert("INSERT"@[0] != "UPDATE"@[0]);
    assert("INSERT"@[0] != "DELETE"@[0]);
    assert("INSERT"@.len() != "SET"@.len());
    assert("INTO"@[0] != "FROM"@[0]);
    assert("INTO"@.len() != "WHERE"@.len());
    assert("INTO"@.len() != "SELECT"@.len());
    assert("INTO"@.len() != "TRAVERSE"@.len());
    assert("INTO"@.len() != "CREATE"@.len());
    assert("INTO"@.len() != "UPDATE"@.len());
    assert("INTO"@.len() != "DELETE"@.len());
    assert("INTO"@.len() != "SET"@.len());
    assert("INTO"@.len() != "INSERT"@.len());
    assert("VALUES"@.len() != "FROM"@.len());
    assert("VALUES"@.len() != "WHERE"@.len());
    assert("VALUES"@[0] != "SELECT"@[0]);
    assert("VALUES"@.len() != "TRAVERSE"@.len());
    assert("VALUES"@[0] != "CREATE"@[0]);
    assert("VALUES"@[0] != "UPDATE"@[0]);
    assert("VALUES"@[0] != "DELETE"@[0]);
    assert("VALUES"@.len() != "SET"@.len());
    assert("VALUES"@[0] != "INSERT"@[0]);
    assert("VALUES"@.len() != "INTO"@.len());
    assert("AND"@.len() != "FROM"@.len());
    assert("AND"@.len() != "WHERE"@.len());
    assert("AND"@.len() != "SELECT"@.len());
    assert("AND"@.len() != "TRAVERSE"@.len());
    assert("AND"@.len() != "CREATE"@.len());
    assert("AND"@.len() != "UPDATE"@.len());
    assert("AND"@.len() != "DELETE"@.len());
    assert("AND"@[0] != "SET"@[0]);
    assert("AND"@.len() != "INSERT"@.len());
    assert("AND"@.len() != "INTO"@.len());
    assert("AND"@.len() != "VALUES"@.len());
    assert("OR"@.len() != "FROM"@.len());
    assert("OR"@.len() != "WHERE"@.len());
    assert("OR"@.len() != "SELECT"@.len());
    assert("OR"@.len() != "TRAVERSE"@.len());
    assert("OR"@.len() != "CREATE"@.len());
    assert("OR"@.len() != "UPDATE"@.len());
    assert("OR"@.len() != "DELETE"@.len());
    assert("OR"@.len() != "SET"@.len());
    assert("OR"@.len() != "INSERT"@.len());
    assert("OR"@.len() != "INTO"@.len());
    assert("OR"@.len() != "VALUES"@.len());
    assert("OR"@.len() != "AND"@.len());
    assert("NOT"@.len() != "FROM"@.len());
    assert("NOT"@.len() != "WHERE"@.len());
    assert("NOT"@.len() != "SELECT"@.len());
    assert("NOT"@.len() != "TRAVERSE"@.len());
    assert("NOT"@.len() != "CREATE"@.len());
    assert("NOT"@.len() != "UPDATE"@.len());
    assert("NOT"@.len() != "DELETE"@.len());
    assert("NOT"@[0] != "SET"@[0]);
    assert("NOT"@.len() != "INSERT"@.len());
    assert("NOT"@.len() != "INTO"@.len());
    assert("NOT"@.len() != "VALUES"@.len());
    assert("NOT"@[0] != "AND"@[0]);
    assert("NOT"@.len() != "OR"@.len());
    assert("AS"@.len() != "FROM"@.len());
    assert("AS"@.len() != "WHERE"@.len());
    assert("AS"@.len() != "SELECT"@.len());
    assert("AS"@.len() != "TRAVERSE"@.len());
    assert("AS"@.len() != "CREATE"@.len());
    assert("AS"@.len() != "UPDATE"@.len());
    assert("AS"@.len() != "DELETE"@.len());
    assert("AS"@.len() != "SET"@.len());
    assert("AS"@.len() != "INSERT"@.len());
    assert("AS"@.len() != "INTO"@.len());
    assert("AS"@.len() != "VALUES"@.len());
    assert("AS"@.len() != "AND"@.len());
    assert("AS"@[0] != "OR"@[0]);
    assert("AS"@.len() != "NOT"@.len());
    assert("LIMIT"@.len() != "FROM"@.len());
    assert("LIMIT"@[0] != "WHERE"@[0]);
    assert("LIMIT"@.len() != "SELECT"@.len());
    assert("LIMIT"@.len() != "TRAVERSE"@.len());
    assert("LIMIT"@.len() != "CREATE"@.len());
    assert("LIMIT"@.len() != "UPDATE"@.len());
    assert("LIMIT"@.len() != "DELETE"@.len());
    assert("LIMIT"@.len() != "SET"@.len());
    assert("LIMIT"@.len() != "INSERT"@.len());
    assert("LIMIT"@.len() != "INTO"@.len());
    assert("LIMIT"@.len() != "VALUES"@.len());
    assert("LIMIT"@.len() != "AND"@.len());
    assert("LIMIT"@.len() != "OR"@.len());
    assert("LIMIT"@.len() != "NOT"@.len());
    assert("LIMIT"@.len() != "AS"@.len());
    assert("OFFSET"@.len() != "FROM"@.len());
    assert("OFFSET"@.len() != "WHERE"@.len());
    assert("OFFSET"@[0] != "SELECT"@[0]);
    assert("OFFSET"@.len() != "TRAVERSE"@.len());
    assert("OFFSET"@[0] != "CREATE"@[0]);
    assert("OFFSET"@[0] != "UPDATE"@[0]);
    assert("OFFSET"@[0] != "DELETE"@[0]);
    assert("OFFSET"@.len() != "SET"@.len());
    assert("OFFSET"@[0] != "INSERT"@[0]);
    assert("OFFSET"@.len() != "INTO"@.len());
    assert("OFFSET"@[0] != "VALUES"@[0]);
    assert("OFFSET"@.len() != "AND"@.len());
    assert("OFFSET"@.len() != "OR"@.len());
    assert("OFFSET"@.len() != "NOT"@.len());
    assert("OFFSET"@.len() != "AS"@.len());
    assert("OFFSET"@.len() != "LIMIT"@.len());
    assert("ASC"@.len() != "FROM"@.len());
    assert("ASC"@.len() != "WHERE"@.len());
    assert("ASC"@.len() != "SELECT"@.len());
    assert("ASC"@.len() != "TRAVERSE"@.len());
    assert("ASC"@.len() != "CREATE"@.len());
    assert("ASC"@.len() != "UPDATE"@.len());
    assert("ASC"@.len() != "DELETE"@.len());
    assert("ASC"@[0] != "SET"@[0]);
    assert("ASC"@.len() != "INSERT"@.len());
    assert("ASC"@.len() != "INTO"@.len());
    assert("ASC"@.len() != "VALUES"@.len());
    assert("ASC"@[1] != "AND"@[1]);
    assert("ASC"@.len() != "OR"@.len());
    assert("ASC"@[0] != "NOT"@[0]);
    assert("ASC"@.len() != "AS"@.len());
    assert("ASC"@.len() != "LIMIT"@.len());
    assert("ASC"@.len() != "OFFSET"@.len());
    assert("DESC"@[0] != "FROM"@[0]);
    assert("DESC"@.len() != "WHERE"@.len());
    assert("DESC"@.len() != "SELECT"@.len());
    assert("DESC"@.len() != "TRAVERSE"@.len());
    assert("DESC"@.len() != "CREATE"@.len());
    assert("DESC"@.len() != "UPDATE"@.len());
    assert("DESC"@.len() != "DELETE"@.len());
    assert("DESC"@.len() != "SET"@.len());
    assert("DESC"@.len() != "INSERT"@.len());
    assert("DESC"@[0] != "INTO"@[0]);
    assert("DESC"@.len() != "VALUES"@.len());
    assert("DESC"@.len() != "AND"@.len());
    assert("DESC"@.len() != "OR"@.len());
    assert("DESC"@.len() != "NOT"@.len());
    assert("DESC"@.len() != "AS"@.len());
    assert("DESC"@.len() != "LIMIT"@.len());
    assert("DESC"@.len() != "OFFSET"@.len());
    assert("DESC"@.len() != "ASC"@.len());
    assert("TRUE"@[0] != "FROM"@[0]);
    assert("TRUE"@.len() != "WHERE"@.len());
    assert("TRUE"@.len() != "SELECT"@.len());
    assert("TRUE"@.len() != "TRAVERSE"@.len());
    assert("TRUE"@.len() != "CREATE"@.len());
    assert("TRUE"@.len() != "UPDATE"@.len());
    assert("TRUE"@.len() != "DELETE"@.len());
    assert("TRUE"@.len() != "SET"@.len());
    assert("TRUE"@.len() != "INSERT"@.len());
    assert("TRUE"@[0] != "INTO"@[0]);
    assert("TRUE"@.len() != "VALUES"@.len());
    assert("TRUE"@.len() != "AND"@.len());
    assert("TRUE"@.len() != "OR"@.len());
    assert("TRUE"@.len() != "NOT"@.len());
    assert("TRUE"@.len() != "AS"@.len());
    assert("TRUE"@.len() != "LIMIT"@.len());
    assert("TRUE"@.len() != "OFFSET"@.len());
    assert("TRUE"@.len() != "ASC"@.len());
    assert("TRUE"@[0] != "DESC"@[0]);
    assert("FALSE"@.len() != "FROM"@.len());
    assert("FALSE"@[0] != "WHERE"@[0]);
    assert("FALSE"@.len() != "SELECT"@.len());
    assert("FALSE"@.len() != "TRAVERSE"@.len());
    assert("FALSE"@.len() != "CREATE"@.len());
    assert("FALSE"@.len() != "UPDATE"@.len());
    assert("FALSE"@.len() != "DELETE"@.len());
    assert("FALSE"@.len() != "SET"@.len());
    assert("FALSE"@.len() != "INSERT"@.len());
    assert("FALSE"@.len() != "INTO"@.len());
    assert("FALSE"@.len() != "VALUES"@.len());
    assert("FALSE"@.len() != "AND"@.len());
    assert("FALSE"@.len() != "OR"@.len());
    assert("FALSE"@.len() != "NOT"@.len());
    assert("FALSE"@.len() != "AS"@.len());
    assert("FALSE"@[0] != "LIMIT"@[0]);
    assert("FALSE"@.len() != "OFFSET"@.len());
    assert("FALSE"@.len() != "ASC"@.len());
    assert("FALSE"@.len() != "DESC"@.len());
    assert("FALSE"@.len() != "TRUE"@.len());
    assert("NULL"@[0] != "FROM"@[0]);
    assert("NULL"@.len() != "WHERE"@.len());
    assert("NULL"@.len() != "SELECT"@.len());
    assert("NULL"@.len() != "TRAVERSE"@.len());
    assert("NULL"@.len() != "CREATE"@.len());
    assert("NULL"@.len() != "UPDATE"@.len());
    assert("NULL"@.len() != "DELETE"@.len());
    assert("NULL"@.len() != "SET"@.len());
    assert("NULL"@.len() != "INSERT"@.len());
    assert("NULL"@[0] != "INTO"@[0]);
    assert("NULL"@.len() != "VALUES"@.len());
    assert("NULL"@.len() != "AND"@.len());
    assert("NULL"@.len() != "OR"@.len());
    assert("NULL"@.len() != "NOT"@.len());
    assert("NULL"@.len() != "AS"@.len());
    assert("NULL"@.len() != "LIMIT"@.len());
    assert("NULL"@.len() != "OFFSET"@.len());
    assert("NULL"@.len() != "ASC"@.len());
    assert("NULL"@[0] != "DESC"@[0]);
    assert("NULL"@[0] != "TRUE"@[0]);
    assert("NULL"@.len() != "FALSE"@.len());
}

/// Distinct words give distinct keyword tokens: a keyword token comes from
/// one word only.
pub proof fn law_keywords_are_distinct(a: Seq<char>, b: Seq<char>)
    requires
        keyword(a) is Some,
        keyword(a) == keyword(b),
    ensures
        a == b,
{
}

/// Each operator and punctuation mark lexes to the token of its own name,
/// the longer mark winning where two share a first character: `=` is
/// `Equal`; `!=` `NotEqual`; `<=` `LessThanEq`, `<->` `BiArrow`, `<-`
/// `LeftArrow`, other `<` `LessThan`; `>=` `GreaterThanEq`, other `>`
/// `GreaterThan`; `->` `Arrow`, other `-` `Minus`; and each single mark its
/// token. The position after the token is after the mark.
pub proof fn law_operator_tokens(s: Seq<char>, i: int)
    requires
        0 <= i < s.len(),
    ensures
        s[i] == '=' ==> operator_scan(s, i) == (Ok::<TokenView, Seq<char>>(TokenView::Equal), i + 1),
        s[i] == '!' && char_at(s, i + 1) == Some('=') ==> operator_scan(s, i) == (
            Ok::<TokenView, Seq<char>>(TokenView::NotEqual),
            i + 2,
        ),
        s[i] == '<' && char_at(s, i + 1) == Some('=') ==> operator_scan(s, i) == (
            Ok::<TokenView, Seq<char>>(TokenView::LessThanEq),
            i + 2,
        ),
        s[i] == '<' && char_at(s, i + 1) == Some('-') && char_at(s, i + 2) == Some('>') ==> operator_scan(s, i) == (
            Ok::<TokenView, Seq<char>>(TokenView::BiArrow),
            i + 3,
        ),
        s[i] == '<' && char_at(s, i + 1) == Some('-') && char_at(s, i + 2) != Some('>') ==> operator_scan(s, i) == (
            Ok::<TokenView, Seq<char>>(TokenView::LeftArrow),
            i + 2,
        ),
        s[i] == '<' && char_at(s, i + 1) != Some('=') && char_at(s, i + 1) != Some('-') ==> operator_scan(s, i) == (
            Ok::<TokenView, Seq<char>>(TokenView::LessThan),
            i + 1,
        ),
        s[i] == '>' && char_at(s, i + 1) == Some('=') ==> operator_scan(s, i) == (
            Ok::<TokenView, Seq<char>>(TokenView::GreaterThanEq),
            i + 2,
        ),
        s[i] == '>' && char_at(s, i + 1) != Some('=') ==> operator_scan(s, i) == (
            Ok::<TokenView, Seq<char>>(TokenView::GreaterThan),
            i + 1,
        ),
        s[i] == '-' && char_at(s, i + 1) == Some('>') ==> operator_scan(s, i) == (
            Ok::<TokenView, Seq<char>>(TokenView::Arrow),
            i + 2,
        ),
        s[i] == '-' && char_at(s, i + 1) != Some('>') ==> operator_scan(s, i) == (
            Ok::<TokenView, Seq<char>>(TokenView::Minus),
            i + 1,
        ),
        s[i] == '+' ==> operator_scan(s, i) == (Ok::<TokenView, Seq<char>>(TokenView::Plus), i + 1),
        s[i] == '*' ==> operator_scan(s, i) == (Ok::<TokenView, Seq<char>>(TokenView::Star), i + 1),
        s[i] == '/' ==> operator_scan(s, i) == (Ok::<TokenView, Seq<char>>(TokenView::Slash), i + 1),
        s[i] == '.' ==> operator_scan(s, i) == (Ok::<TokenView, Seq<char>>(TokenView::Dot), i + 1),
        s[i] == ',' ==> operator_scan(s, i) == (Ok::<TokenView, Seq<char>>(TokenView::Comma), i + 1),
        s[i] == ';' ==> operator_scan(s, i) == (Ok::<TokenView, Seq<char>>(TokenView::Semicolon), i + 1),
        s[i] == ':' ==> operator_scan(s, i) == (Ok::<TokenView, Seq<char>>(TokenView::Colon), i + 1),
        s[i] == '(' ==> operator_scan(s, i) == (Ok::<TokenView, Seq<char>>(TokenView::LeftParen), i + 1),
        s[i] == ')' ==> operator_scan(s, i) == (Ok::<TokenView, Seq<char>>(TokenView::RightParen), i + 1),
        s[i] == '[' ==> operator_scan(s, i) == (Ok::<TokenView, Seq<char>>(TokenView::LeftBracket), i + 1),
        s[i] == ']' ==> operator_scan(s, i) == (Ok::<TokenView, Seq<char>>(TokenView::RightBracket), i + 1),
        s[i] == '{' ==> operator_scan(s, i) == (Ok::<TokenView, Seq<char>>(TokenView::LeftBrace), i + 1),
        s[i] == '}' ==> operator_scan(s, i) == (Ok::<TokenView, Seq<char>>(TokenView::RightBrace), i + 1),
{
}

} // verus!


