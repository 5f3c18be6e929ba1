//! Lexical analysis: turns raw source text into a flat token sequence.
//!
//! The lexer walks the input one character at a time with a single character
//! of lookahead and no backtracking. Every token sequence it returns is
//! terminated by exactly one end-of-input token. Number literals are carried
//! as their exact source spelling; the spelling (after an optional leading
//! `-` sign) is guaranteed to satisfy [`is_float_literal`], the decimal
//! grammar that IEEE-754 double parsing accepts, so a host can convert it to
//! a double without re-validating.

use vstd::prelude::*;

verus! {

// ------------------------------------------------------------------
// Character classes
// ------------------------------------------------------------------

/// The Unicode `White_Space` property of a character, as a pure function of
/// the character.
pub uninterp spec fn char_is_whitespace(c: char) -> bool;

/// Relies on `char::is_whitespace`: true exactly for characters with the
/// Unicode `White_Space` property; the result depends on the character alone.
pub assume_specification[ char::is_whitespace ](c: char) -> (r: bool)
    ensures
        r == char_is_whitespace(c),
;

/// The Unicode numeric property (general categories `Nd`, `Nl`, `No`) of a
/// character, as a pure function of the character.
pub uninterp spec fn char_is_numeric(c: char) -> bool;

/// Relies on `char::is_numeric`: true exactly for characters in the Unicode
/// general categories `Nd`, `Nl` and `No`; the result depends on the
/// character alone.
pub assume_specification[ char::is_numeric ](c: char) -> (r: bool)
    ensures
        r == char_is_numeric(c),
;

/// The seven characters that delimit tokens: the three bracket pairs and the
/// dot.
pub open spec fn spec_is_language_symbol(c: char) -> bool {
    c == '(' || c == ')' || c == '[' || c == ']' || c == '{' || c == '}' || c == '.'
}

/// An ASCII decimal digit.
pub open spec fn is_digit_char(c: char) -> bool {
    48 <= c as u32 && c as u32 <= 57
}

// ------------------------------------------------------------------
// The grammar of floating-point number spellings
// ------------------------------------------------------------------
//
// A number token is valid when its spelling would be accepted by IEEE-754
// double parsing. The grammar below is the one documented for
// `f64::from_str` in the Rust standard library:
//
//     Float  ::= Sign? ( 'inf' | 'infinity' | 'nan' | Number )
//     Number ::= Count '.'? Count? Exp?
//              | '.' Count Exp?
//     Exp    ::= ('e' | 'E') Sign? Count
//     Count  ::= Digit+
//
// with the keywords matched case-insensitively.

/// First index at or after `i` that is past the end or holds a non-digit.
pub open spec fn digits_end(s: Seq<char>, i: int) -> int
    decreases s.len() - i,
{
    if i < 0 || i >= s.len() {
        i
    } else if is_digit_char(s[i]) {
        digits_end(s, i + 1)
    } else {
        i
    }
}

/// Case-insensitive match of `inf` covering the whole rest of `s`.
pub open spec fn is_inf_at(s: Seq<char>, i: int) -> bool {
    &&& s.len() - i == 3
    &&& (s[i] == 'i' || s[i] == 'I')
    &&& (s[i + 1] == 'n' || s[i + 1] == 'N')
    &&& (s[i + 2] == 'f' || s[i + 2] == 'F')
}

/// Case-insensitive match of `infinity` covering the whole rest of `s`.
pub open spec fn is_infinity_at(s: Seq<char>, i: int) -> bool {
    &&& s.len() - i == 8
    &&& (s[i] == 'i' || s[i] == 'I')
    &&& (s[i + 1] == 'n' || s[i + 1] == 'N')
    &&& (s[i + 2] == 'f' || s[i + 2] == 'F')
    &&& (s[i + 3] == 'i' || s[i + 3] == 'I')
    &&& (s[i + 4] == 'n' || s[i + 4] == 'N')
    &&& (s[i + 5] == 'i' || s[i + 5] == 'I')
    &&& (s[i + 6] == 't' || s[i + 6] == 'T')
    &&& (s[i + 7] == 'y' || s[i + 7] == 'Y')
}

/// Case-insensitive match of `nan` covering the whole rest of `s`.
pub open spec fn is_nan_at(s: Seq<char>, i: int) -> bool {
    &&& s.len() - i == 3
    &&& (s[i] == 'n' || s[i] == 'N')
    &&& (s[i + 1] == 'a' || s[i + 1] == 'A')
    &&& (s[i + 2] == 'n' || s[i + 2] == 'N')
}

/// From `i` on, the string either ends or holds a complete exponent part.
pub open spec fn is_exp_or_end(s: Seq<char>, i: int) -> bool {
    i == s.len() || {
        &&& (s[i] == 'e' || s[i] == 'E')
        &&& {
            let j = if i + 1 < s.len() && (s[i + 1] == '+' || s[i + 1] == '-') {
                i + 2
            } else {
                i + 1
            };
            j < s.len() && digits_end(s, j) == s.len()
        }
    }
}

/// The `Number` production starting at `i` and covering the whole rest of
/// `s`: digits with an optional fraction and exponent, or a fraction-only
/// form beginning with the decimal point.
pub open spec fn is_decimal_at(s: Seq<char>, i: int) -> bool {
    let m = digits_end(s, i);
    if m > i {
        if m < s.len() && s[m] == '.' {
            is_exp_or_end(s, digits_end(s, m + 1))
        } else {
            is_exp_or_end(s, m)
        }
    } else {
        &&& i < s.len()
        &&& s[i] == '.'
        &&& digits_end(s, i + 1) > i + 1
        &&& is_exp_or_end(s, digits_end(s, i + 1))
    }
}

/// Index of the first character after the optional leading sign.
pub open spec fn float_body_start(s: Seq<char>) -> int {
    if s.len() > 0 && (s[0] == '+' || s[0] == '-') {
        1
    } else {
        0
    }
}

/// The whole spelling grammar of an IEEE-754 double: an optional sign
/// followed by `inf`, `infinity`, `nan` (case-insensitive) or a decimal
/// number.
pub open spec fn is_float_literal(s: Seq<char>) -> bool {
    let i = float_body_start(s);
    is_inf_at(s, i) || is_infinity_at(s, i) || is_nan_at(s, i) || is_decimal_at(s, i)
}

// ------------------------------------------------------------------
// Executable recognizer for the spelling grammar
// ------------------------------------------------------------------

fn is_digit(c: char) -> (r: bool)
    ensures
        r == is_digit_char(c),
{
    let u = c as u32;
    48 <= u && u <= 57
}

fn digits_end_str(s: &str, from: usize) -> (e: usize)
    requires
        from <= s@.len(),
    ensures
        e as int == digits_end(s@, from as int),
        from <= e <= s@.len(),
{
    let n = s.unicode_len();
    let mut i = from;
    while i < n && is_digit(s.get_char(i))
        invariant
            from <= i <= n,
            n == s@.len(),
            digits_end(s@, from as int) == digits_end(s@, i as int),
        decreases n - i,
    {
        i = i + 1;
    }
    i
}

fn matches_inf(s: &str, from: usize) -> (b: bool)
    requires
        from <= s@.len(),
    ensures
        b == is_inf_at(s@, from as int),
{
    let n = s.unicode_len();
    if n - from != 3 {
        return false;
    }
    let c0 = s.get_char(from);
    let c1 = s.get_char(from + 1);
    let c2 = s.get_char(from + 2);
    (c0 == 'i' || c0 == 'I') && (c1 == 'n' || c1 == 'N') && (c2 == 'f' || c2 == 'F')
}

fn matches_infinity(s: &str, from: usize) -> (b: bool)
    requires
        from <= s@.len(),
    ensures
        b == is_infinity_at(s@, from as int),
{
    let n = s.unicode_len();
    if n - from != 8 {
        return false;
    }
    let c0 = s.get_char(from);
    let c1 = s.get_char(from + 1);
    let c2 = s.get_char(from + 2);
    let c3 = s.get_char(from + 3);
    let c4 = s.get_char(from + 4);
    let c5 = s.get_char(from + 5);
    let c6 = s.get_char(from + 6);
    let c7 = s.get_char(from + 7);
    (c0 == 'i' || c0 == 'I') && (c1 == 'n' || c1 == 'N') && (c2 == 'f' || c2 == 'F') && (c3 == 'i'
        || c3 == 'I') && (c4 == 'n' || c4 == 'N') && (c5 == 'i' || c5 == 'I') && (c6 == 't' || c6
        == 'T') && (c7 == 'y' || c7 == 'Y')
}

fn matches_nan(s: &str, from: usize) -> (b: bool)
    requires
        from <= s@.len(),
    ensures
        b == is_nan_at(s@, from as int),
{
    let n = s.unicode_len();
    if n - from != 3 {
        return false;
    }
    let c0 = s.get_char(from);
    let c1 = s.get_char(from + 1);
    let c2 = s.get_char(from + 2);
    (c0 == 'n' || c0 == 'N') && (c1 == 'a' || c1 == 'A') && (c2 == 'n' || c2 == 'N')
}

fn exp_or_end(s: &str, from: usize) -> (b: bool)
    requires
        from <= s@.len(),
    ensures
        b == is_exp_or_end(s@, from as int),
{
    let n = s.unicode_len();
    if from == n {
        return true;
    }
    let c = s.get_char(from);
    if !(c == 'e' || c == 'E') {
        return false;
    }
    let j = if from + 1 < n {
        let c1 = s.get_char(from + 1);
        if c1 == '+' || c1 == '-' {
            from + 2
        } else {
            from + 1
        }
    } else {
        from + 1
    };
    let e = digits_end_str(s, j);
    j < n && e == n
}

/// Whether `s` is a valid spelling of an IEEE-754 double, per the grammar
/// that double parsing accepts.
pub fn is_float_literal_str(s: &str) -> (b: bool)
    ensures
        b == is_float_literal(s@),
{
    let n = s.unicode_len();
    let start: usize = if n > 0 {
        let c = s.get_char(0);
        if c == '+' || c == '-' {
            1
        } else {
            0
        }
    } else {
        0
    };
    if matches_inf(s, start) || matches_infinity(s, start) || matches_nan(s, start) {
        return true;
    }
    let m = digits_end_str(s, start);
    if m > start {
        if m < n && s.get_char(m) == '.' {
            let f = digits_end_str(s, m + 1);
            exp_or_end(s, f)
        } else {
            exp_or_end(s, m)
        }
    } else {
        if start < n && s.get_char(start) == '.' {
            let f = digits_end_str(s, start + 1);
            if f > start + 1 {
                exp_or_end(s, f)
            } else {
                false
            }
        } else {
            false
        }
    }
}

// ------------------------------------------------------------------
// Tokens
// ------------------------------------------------------------------

/// A lexical token. `Number` and `String` carry text: a number token holds the
/// exact source spelling of the literal (sign included), a string token the
/// characters between the quotes, verbatim.
#[derive(Debug)]
pub enum Token {
    OpenParen,
    CloseParen,
    OpenBracket,
    CloseBracket,
    OpenBrace,
    CloseBrace,
    Dot,
    Identifier(String),
    Number(String),
    String(String),
    Bool(bool),
    EOF,
}

/// The mathematical model of a token: the same shape over character
/// sequences.
pub enum TokenV {
    OpenParen,
    CloseParen,
    OpenBracket,
    CloseBracket,
    OpenBrace,
    CloseBrace,
    Dot,
    Identifier(Seq<char>),
    Number(Seq<char>),
    String(Seq<char>),
    Bool(bool),
    EOF,
}

impl View for Token {
    type V = TokenV;

    open spec fn view(&self) -> TokenV {
        match self {
            Token::OpenParen => TokenV::OpenParen,
            Token::CloseParen => TokenV::CloseParen,
            Token::OpenBracket => TokenV::OpenBracket,
            Token::CloseBracket => TokenV::CloseBracket,
            Token::OpenBrace => TokenV::OpenBrace,
            Token::CloseBrace => TokenV::CloseBrace,
            Token::Dot => TokenV::Dot,
            Token::Identifier(s) => TokenV::Identifier(s@),
            Token::Number(s) => TokenV::Number(s@),
            Token::String(s) => TokenV::String(s@),
            Token::Bool(b) => TokenV::Bool(*b),
            Token::EOF => TokenV::EOF,
        }
    }
}

/// The rendering of a token used in error messages: the token kind, with
/// its text or value in parentheses.
pub open spec fn token_text(t: TokenV) -> Seq<char> {
    match t {
        TokenV::OpenParen => "OpenParen"@,
        TokenV::CloseParen => "CloseParen"@,
        TokenV::OpenBracket => "OpenBracket"@,
        TokenV::CloseBracket => "CloseBracket"@,
        TokenV::OpenBrace => "OpenBrace"@,
        TokenV::CloseBrace => "CloseBrace"@,
        TokenV::Dot => "Dot"@,
        TokenV::Identifier(s) => "Identifier("@ + s + ")"@,
        TokenV::Number(s) => "Number("@ + s + ")"@,
        TokenV::String(s) => "String("@ + s + ")"@,
        TokenV::Bool(b) => if b {
            "Bool(true)"@
        } else {
            "Bool(false)"@
        },
        TokenV::EOF => "EOF"@,
    }
}

impl Token {
    /// Render this token for an error message.
    pub fn describe(&self) -> (r: String)
        ensures
            r@ == token_text(self@),
    {
        match self {
            Token::OpenParen => String::from_str("OpenParen"),
            Token::CloseParen => String::from_str("CloseParen"),
            Token::OpenBracket => String::from_str("OpenBracket"),
            Token::CloseBracket => String::from_str("CloseBracket"),
            Token::OpenBrace => String::from_str("OpenBrace"),
            Token::CloseBrace => String::from_str("CloseBrace"),
            Token::Dot => String::from_str("Dot"),
            Token::Identifier(s) => String::from_str("Identifier(").concat(s.as_str()).concat(
                ")",
            ),
            Token::Number(s) => String::from_str("Number(").concat(s.as_str()).concat(")"),
            Token::String(s) => String::from_str("String(").concat(s.as_str()).concat(")"),
            Token::Bool(b) => {
                if *b {
                    String::from_str("Bool(true)")
                } else {
                    String::from_str("Bool(false)")
                }
            },
            Token::EOF => String::from_str("EOF"),
        }
    }
}

impl Clone for Token {
    fn clone(&self) -> (res: Token)
        ensures
            res@ == self@,
    {
        match self {
            Token::OpenParen => Token::OpenParen,
            Token::CloseParen => Token::CloseParen,
            Token::OpenBracket => Token::OpenBracket,
            Token::CloseBracket => Token::CloseBracket,
            Token::OpenBrace => Token::OpenBrace,
            Token::CloseBrace => Token::CloseBrace,
            Token::Dot => Token::Dot,
            Token::Identifier(s) => Token::Identifier(s.clone()),
            Token::Number(s) => Token::Number(s.clone()),
            Token::String(s) => Token::String(s.clone()),
            Token::Bool(b) => Token::Bool(*b),
            Token::EOF => Token::EOF,
        }
    }
}

impl PartialEq for Token {
    fn eq(&self, other: &Token) -> (r: bool) {
        match (self, other) {
            (Token::OpenParen, Token::OpenParen) => true,
            (Token::CloseParen, Token::CloseParen) => true,
            (Token::OpenBracket, Token::OpenBracket) => true,
            (Token::CloseBracket, Token::CloseBracket) => true,
            (Token::OpenBrace, Token::OpenBrace) => true,
            (Token::CloseBrace, Token::CloseBrace) => true,
            (Token::Dot, Token::Dot) => true,
            (Token::Identifier(a), Token::Identifier(b)) => *a == *b,
            (Token::Number(a), Token::Number(b)) => *a == *b,
            (Token::String(a), Token::String(b)) => *a == *b,
            (Token::Bool(a), Token::Bool(b)) => *a == *b,
            (Token::EOF, Token::EOF) => true,
            _ => false,
        }
    }
}

impl vstd::std_specs::cmp::PartialEqSpecImpl for Token {
    open spec fn obeys_eq_spec() -> bool {
        true
    }

    open spec fn eq_spec(&self, other: &Token) -> bool {
        self@ == other@
    }
}

// ------------------------------------------------------------------
// Lexer errors
// ------------------------------------------------------------------

/// A character-level error. The text payload of `InvalidNumber` and
/// `UnclosedString` is a human-readable message that ends with the offending
/// text.
#[derive(Debug)]
pub enum LexerError {
    InvalidCharacter(char),
    InvalidIdentifier(String),
    InvalidNumber(String),
    UnclosedString(String),
}

/// The mathematical model of a lexer error.
pub enum LexerErrorV {
    InvalidCharacter(char),
    InvalidIdentifier(Seq<char>),
    InvalidNumber(Seq<char>),
    UnclosedString(Seq<char>),
}

impl View for LexerError {
    type V = LexerErrorV;

    open spec fn view(&self) -> LexerErrorV {
        match self {
            LexerError::InvalidCharacter(c) => LexerErrorV::InvalidCharacter(*c),
            LexerError::InvalidIdentifier(s) => LexerErrorV::InvalidIdentifier(s@),
            LexerError::InvalidNumber(s) => LexerErrorV::InvalidNumber(s@),
            LexerError::UnclosedString(s) => LexerErrorV::UnclosedString(s@),
        }
    }
}

impl PartialEq for LexerError {
    fn eq(&self, other: &LexerError) -> (r: bool) {
        match (self, other) {
            (LexerError::InvalidCharacter(a), LexerError::InvalidCharacter(b)) => *a == *b,
            (LexerError::InvalidIdentifier(a), LexerError::InvalidIdentifier(b)) => *a == *b,
            (LexerError::InvalidNumber(a), LexerError::InvalidNumber(b)) => *a == *b,
            (LexerError::UnclosedString(a), LexerError::UnclosedString(b)) => *a == *b,
            _ => false,
        }
    }
}

impl vstd::std_specs::cmp::PartialEqSpecImpl for LexerError {
    open spec fn obeys_eq_spec() -> bool {
        true
    }

    open spec fn eq_spec(&self, other: &LexerError) -> bool {
        self@ == other@
    }
}

// ------------------------------------------------------------------
// The token scanner, as a mathematical model
// ------------------------------------------------------------------

/// First index at or after `i` that is past the end or holds a
/// non-whitespace character.
pub open spec fn skip_ws_end(s: Seq<char>, i: int) -> int
    decreases s.len() - i,
{
    if i < 0 || i >= s.len() {
        i
    } else if char_is_whitespace(s[i]) {
        skip_ws_end(s, i + 1)
    } else {
        i
    }
}

/// First index at or after `i` where an identifier stops: end of input,
/// whitespace or a delimiter.
pub open spec fn ident_end(s: Seq<char>, i: int) -> int
    decreases s.len() - i,
{
    if i < 0 || i >= s.len() {
        i
    } else if !char_is_whitespace(s[i]) && !spec_is_language_symbol(s[i]) {
        ident_end(s, i + 1)
    } else {
        i
    }
}

/// First index at or after `i` where number reading stops: end of input,
/// whitespace, or a delimiter other than the dot (the dot may stand inside a
/// number).
pub open spec fn number_end(s: Seq<char>, i: int) -> int
    decreases s.len() - i,
{
    if i < 0 || i >= s.len() {
        i
    } else if char_is_whitespace(s[i]) || (spec_is_language_symbol(s[i]) && s[i] != '.') {
        i
    } else {
        number_end(s, i + 1)
    }
}

/// Position of the first closing quote at or after `i`, if any.
pub open spec fn string_close(s: Seq<char>, i: int) -> Option<int>
    decreases s.len() - i,
{
    if i < 0 || i >= s.len() {
        None
    } else if s[i] == '"' {
        Some(i)
    } else {
        string_close(s, i + 1)
    }
}

/// The token produced at cursor `i`, together with the cursor position after
/// it. Mirrors one step of the scanner: skip whitespace, then dispatch on
/// the first significant character.
pub open spec fn next_token_spec(s: Seq<char>, i: int) -> (Result<TokenV, LexerErrorV>, int) {
    let j = skip_ws_end(s, i);
    if j >= s.len() {
        (Ok(TokenV::EOF), j)
    } else {
        let c = s[j];
        if c == '{' {
            (Ok(TokenV::OpenBrace), j + 1)
        } else if c == '}' {
            (Ok(TokenV::CloseBrace), j + 1)
        } else if c == '(' {
            (Ok(TokenV::OpenParen), j + 1)
        } else if c == ')' {
            (Ok(TokenV::CloseParen), j + 1)
        } else if c == '[' {
            (Ok(TokenV::OpenBracket), j + 1)
        } else if c == ']' {
            (Ok(TokenV::CloseBracket), j + 1)
        } else if c == '.' {
            (Ok(TokenV::Dot), j + 1)
        } else if c == '-' {
            let e = number_end(s, j + 1);
            let body = s.subrange(j + 1, e);
            if is_float_literal(body) {
                (Ok(TokenV::Number(s.subrange(j, e))), e)
            } else {
                (Err(LexerErrorV::InvalidNumber("Error parsing number : "@ + body)), e)
            }
        } else if c == '"' {
            match string_close(s, j + 1) {
                Some(k) => (Ok(TokenV::String(s.subrange(j + 1, k))), k + 1),
                None => (
                    Err(
                        LexerErrorV::UnclosedString(
                            "Unclosed string : "@ + s.subrange(j + 1, s.len() as int),
                        ),
                    ),
                    s.len() as int,
                ),
            }
        } else if char_is_numeric(c) {
            let e = number_end(s, j);
            let body = s.subrange(j, e);
            if is_float_literal(body) {
                (Ok(TokenV::Number(body)), e)
            } else {
                (Err(LexerErrorV::InvalidNumber("Error parsing number : "@ + body)), e)
            }
        } else {
            let e = ident_end(s, j);
            let text = s.subrange(j, e);
            if text == "true"@ {
                (Ok(TokenV::Bool(true)), e)
            } else if text == "false"@ {
                (Ok(TokenV::Bool(false)), e)
            } else {
                (Ok(TokenV::Identifier(text)), e)
            }
        }
    }
}

/// The whole token sequence from cursor `i` on: tokens up to and including
/// the single end-of-input token, or the first character-level error.
pub open spec fn tokenize_spec(s: Seq<char>, i: int) -> Result<Seq<TokenV>, LexerErrorV>
    decreases s.len() - i + 1,
{
    let (t, p) = next_token_spec(s, i);
    match t {
        Err(e) => Err(e),
        Ok(tok) => if tok == TokenV::EOF {
            Ok(seq![TokenV::EOF])
        } else if i < p <= s.len() {
            match tokenize_spec(s, p) {
                Ok(rest) => Ok(seq![tok] + rest),
                Err(e) => Err(e),
            }
        } else {
            // a non-terminal token always advances the cursor, so this
            // branch is never the value of a reachable scanner state
            Err(arbitrary())
        },
    }
}

proof fn lemma_skip_ws_end_bounds(s: Seq<char>, i: int)
    requires
        0 <= i <= s.len(),
    ensures
        i <= skip_ws_end(s, i) <= s.len(),
        skip_ws_end(s, i) < s.len() ==> !char_is_whitespace(s[skip_ws_end(s, i)]),
    decreases s.len() - i,
{
    if i < s.len() && char_is_whitespace(s[i]) {
        lemma_skip_ws_end_bounds(s, i + 1);
    }
}

proof fn lemma_ident_end_bounds(s: Seq<char>, i: int)
    requires
        0 <= i <= s.len(),
    ensures
        i <= ident_end(s, i) <= s.len(),
    decreases s.len() - i,
{
    if i < s.len() && !char_is_whitespace(s[i]) && !spec_is_language_symbol(s[i]) {
        lemma_ident_end_bounds(s, i + 1);
    }
}

proof fn lemma_number_end_bounds(s: Seq<char>, i: int)
    requires
        0 <= i <= s.len(),
    ensures
        i <= number_end(s, i) <= s.len(),
    decreases s.len() - i,
{
    if i < s.len() && !(char_is_whitespace(s[i]) || (spec_is_language_symbol(s[i]) && s[i]
        != '.'))  {
        lemma_number_end_bounds(s, i + 1);
    }
}

proof fn lemma_string_close_bounds(s: Seq<char>, i: int)
    requires
        0 <= i <= s.len(),
    ensures
        string_close(s, i) matches Some(k) ==> i <= k < s.len(),
    decreases s.len() - i,
{
    if i < s.len() && s[i] != '"' {
        lemma_string_close_bounds(s, i + 1);
    }
}

/// The scanner never moves backwards, stays inside the input, and advances
/// strictly over every token but the end-of-input one.
pub proof fn lemma_next_token_advances(s: Seq<char>, i: int)
    requires
        0 <= i <= s.len(),
    ensures
        ({
            let (t, p) = next_token_spec(s, i);
            &&& i <= p <= s.len()
            &&& (t matches Ok(tok) && tok != TokenV::EOF ==> i < p)
        }),
{
    lemma_skip_ws_end_bounds(s, i);
    let j = skip_ws_end(s, i);
    if j < s.len() {
        lemma_ident_end_bounds(s, j);
        lemma_number_end_bounds(s, j);
        lemma_number_end_bounds(s, j + 1);
        lemma_string_close_bounds(s, j + 1);
        if !char_is_whitespace(s[j]) && !spec_is_language_symbol(s[j]) {
            assert(ident_end(s, j) == ident_end(s, j + 1));
            lemma_ident_end_bounds(s, j + 1);
            assert(number_end(s, j) == number_end(s, j + 1));
        }
    }
}

/// A token sequence returned by the scanner is terminated by exactly one
/// end-of-input token.
pub proof fn lemma_tokenize_spec_wf(s: Seq<char>, i: int)
    requires
        0 <= i <= s.len(),
        tokenize_spec(s, i) is Ok,
    ensures
        ({
            let ts = tokenize_spec(s, i)->Ok_0;
            &&& ts.len() >= 1
            &&& ts[ts.len() - 1] == TokenV::EOF
            &&& forall|q: int| 0 <= q < ts.len() - 1 ==> ts[q] != TokenV::EOF
        }),
    decreases s.len() - i + 1,
{
    let (t, p) = next_token_spec(s, i);
    lemma_next_token_advances(s, i);
    match t {
        Err(_) => {},
        Ok(tok) => {
            if tok != TokenV::EOF {
                lemma_tokenize_spec_wf(s, p);
            }
        },
    }
}

// ------------------------------------------------------------------
// The lexer
// ------------------------------------------------------------------

/// The character-stream scanner. It holds the input, the position of the
/// next character to read, and the current character (one character of
/// lookahead).
pub struct Lexer {
    input: String,
    read_position: usize,
    ch: Option<char>,
}

impl Lexer {
    /// Consistency of the cursor fields: the current character is the one
    /// just before the read position, and a missing current character means
    /// the input is exhausted.
    pub closed spec fn wf(self) -> bool {
        &&& self.read_position <= self.input@.len()
        &&& match self.ch {
            Some(c) => self.read_position >= 1 && c == self.input@[self.read_position - 1],
            None => self.read_position == self.input@.len(),
        }
    }

    /// The index of the current character; the input length when the input
    /// is exhausted.
    pub closed spec fn cursor(self) -> int {
        match self.ch {
            Some(_) => self.read_position - 1,
            None => self.input@.len() as int,
        }
    }

    /// The input this lexer was built over.
    pub closed spec fn src(self) -> Seq<char> {
        self.input@
    }

    pub fn new(input: String) -> (l: Lexer)
        ensures
            l.wf(),
            l.src() == input@,
            l.cursor() == 0,
    {
        let mut l = Lexer { input, read_position: 0, ch: None };
        l.advance();
        l
    }

    /// One step of the cursor at the field level.
    fn advance(&mut self) -> (r: Option<char>)
        requires
            old(self).read_position <= old(self).input@.len(),
        ensures
            final(self).input@ == old(self).input@,
            final(self).read_position <= final(self).input@.len(),
            r == final(self).ch,
            ({
                let s = old(self).input@;
                let p = old(self).read_position as int;
                if p < s.len() {
                    final(self).ch == Some(s[p]) && final(self).read_position == p + 1
                } else {
                    final(self).ch is None && final(self).read_position == p
                }
            }),
    {
        let l = self.input.as_str().unicode_len();
        if self.read_position >= l {
            self.ch = None;
        } else {
            self.ch = Some(self.input.as_str().get_char(self.read_position));
            self.read_position = self.read_position + 1;
        }
        self.ch
    }

    /// Advance by one character and return the new current character, `None`
    /// once the input is exhausted.
    pub fn read_char(&mut self) -> (r: Option<char>)
        requires
            old(self).wf(),
        ensures
            final(self).wf(),
            final(self).src() == old(self).src(),
            final(self).cursor() == if old(self).cursor() + 1 <= old(self).src().len() {
                old(self).cursor() + 1
            } else {
                old(self).src().len() as int
            },
            r == (if final(self).cursor() < final(self).src().len() {
                Some(final(self).src()[final(self).cursor()])
            } else {
                None
            }),
    {
        self.advance()
    }

    /// The cursor as a run-time value.
    fn cursor_pos(&self) -> (p: usize)
        requires
            self.wf(),
        ensures
            p as int == self.cursor(),
    {
        match self.ch {
            Some(_) => self.read_position - 1,
            None => self.input.as_str().unicode_len(),
        }
    }

    fn skip_whitespace(&mut self)
        requires
            old(self).wf(),
        ensures
            final(self).wf(),
            final(self).input@ == old(self).input@,
            final(self).cursor() == skip_ws_end(old(self).input@, old(self).cursor()),
    {
        while self.ch.is_some() && self.ch.unwrap().is_whitespace()
            invariant
                self.wf(),
                self.input@ == old(self).input@,
                skip_ws_end(self.input@, self.cursor()) == skip_ws_end(
                    old(self).input@,
                    old(self).cursor(),
                ),
            decreases self.input@.len() - self.cursor(),
        {
            self.read_char();
        }
    }

    fn read_identifier(&mut self) -> (r: Result<String, LexerError>)
        requires
            old(self).wf(),
        ensures
            final(self).wf(),
            final(self).input@ == old(self).input@,
            final(self).cursor() == ident_end(old(self).input@, old(self).cursor()),
            old(self).cursor() <= final(self).cursor(),
            r matches Ok(text) && text@ == old(self).input@.subrange(
                old(self).cursor(),
                final(self).cursor(),
            ),
    {
        let start = self.cursor_pos();
        while self.ch.is_some() && !self.ch.unwrap().is_whitespace() && !self.is_language_symbol(
            self.ch.unwrap(),
        )
            invariant
                self.wf(),
                self.input@ == old(self).input@,
                start as int == old(self).cursor(),
                start as int <= self.cursor(),
                ident_end(self.input@, self.cursor()) == ident_end(
                    old(self).input@,
                    old(self).cursor(),
                ),
            decreases self.input@.len() - self.cursor(),
        {
            self.read_char();
        }
        let end = self.cursor_pos();
        Ok(String::from_str(self.input.as_str().substring_char(start, end)))
    }

    fn read_number(&mut self) -> (r: Result<String, LexerError>)
        requires
            old(self).wf(),
        ensures
            final(self).wf(),
            final(self).input@ == old(self).input@,
            final(self).cursor() == number_end(old(self).input@, old(self).cursor()),
            old(self).cursor() <= final(self).cursor(),
            ({
                let text = old(self).input@.subrange(old(self).cursor(), final(self).cursor());
                if is_float_literal(text) {
                    r matches Ok(t) && t@ == text
                } else {
                    r matches Err(e) && e@ == LexerErrorV::InvalidNumber(
                        "Error parsing number : "@ + text,
                    )
                }
            }),
    {
        let start = self.cursor_pos();
        while self.ch.is_some() && !self.number_stops_at(self.ch.unwrap())
            invariant
                self.wf(),
                self.input@ == old(self).input@,
                start as int == old(self).cursor(),
                start as int <= self.cursor(),
                number_end(self.input@, self.cursor()) == number_end(
                    old(self).input@,
                    old(self).cursor(),
                ),
            decreases self.input@.len() - self.cursor(),
        {
            self.read_char();
        }
        let end = self.cursor_pos();
        let text = self.input.as_str().substring_char(start, end);
        if is_float_literal_str(text) {
            Ok(String::from_str(text))
        } else {
            Err(
                LexerError::InvalidNumber(
                    String::from_str("Error parsing number : ").concat(text),
                ),
            )
        }
    }

    /// Whether number reading stops at this character: whitespace or a
    /// delimiter other than the dot.
    fn number_stops_at(&self, c: char) -> (r: bool)
        ensures
            r == (char_is_whitespace(c) || (spec_is_language_symbol(c) && c != '.')),
    {
        c.is_whitespace() || (self.is_language_symbol(c) && c != '.')
    }

    fn read_string(&mut self) -> (r: Result<String, LexerError>)
        requires
            old(self).wf(),
            old(self).ch is Some,
        ensures
            final(self).wf(),
            final(self).input@ == old(self).input@,
            ({
                let s = old(self).input@;
                let c0 = old(self).cursor();
                match string_close(s, c0 + 1) {
                    Some(k) => {
                        &&& r matches Ok(text) && text@ == s.subrange(c0 + 1, k)
                        &&& final(self).cursor() == k + 1
                    },
                    None => {
                        &&& r matches Err(e) && e@ == LexerErrorV::UnclosedString(
                            "Unclosed string : "@ + s.subrange(c0 + 1, s.len() as int),
                        )
                        &&& final(self).cursor() == s.len()
                    },
                }
            }),
    {
        self.read_char();
        let start = self.cursor_pos();
        while self.ch.is_some() && self.ch.unwrap() != '"'
            invariant
                self.wf(),
                self.input@ == old(self).input@,
                start as int == old(self).cursor() + 1,
                start as int <= self.cursor(),
                string_close(self.input@, self.cursor()) == string_close(
                    old(self).input@,
                    old(self).cursor() + 1,
                ),
            decreases self.input@.len() - self.cursor(),
        {
            self.read_char();
        }
        if self.ch.is_some() {
            let end = self.cursor_pos();
            self.read_char();
            Ok(String::from_str(self.input.as_str().substring_char(start, end)))
        } else {
            let end = self.cursor_pos();
            Err(
                LexerError::UnclosedString(
                    String::from_str("Unclosed string : ").concat(
                        self.input.as_str().substring_char(start, end),
                    ),
                ),
            )
        }
    }

    fn is_language_symbol(&self, c: char) -> (r: bool)
        ensures
            r == spec_is_language_symbol(c),
    {
        match c {
            '(' | ')' | '[' | ']' | '{' | '}' | '.' => true,
            _ => false,
        }
    }

    /// Scan one token: skip whitespace, then dispatch on the first
    /// significant character, as the scanner model does.
    pub fn next_token(&mut self) -> (r: Result<Token, LexerError>)
        requires
            old(self).wf(),
        ensures
            final(self).wf(),
            final(self).src() == old(self).src(),
            ({
                let (t, p) = next_token_spec(old(self).src(), old(self).cursor());
                &&& final(self).cursor() == p
                &&& match t {
                    Ok(tv) => r matches Ok(tok) && tok@ == tv,
                    Err(ev) => r matches Err(e) && e@ == ev,
                }
            }),
    {
        self.skip_whitespace();
        let ch = match self.ch {
            Some(c) => c,
            None => {
                return Ok(Token::EOF);
            },
        };
        match ch {
            '{' => {
                self.read_char();
                Ok(Token::OpenBrace)
            },
            '}' => {
                self.read_char();
                Ok(Token::CloseBrace)
            },
            '(' => {
                self.read_char();
                Ok(Token::OpenParen)
            },
            ')' => {
                self.read_char();
                Ok(Token::CloseParen)
            },
            '[' => {
                self.read_char();
                Ok(Token::OpenBracket)
            },
            ']' => {
                self.read_char();
                Ok(Token::CloseBracket)
            },
            '.' => {
                self.read_char();
                Ok(Token::Dot)
            },
            '-' => {
                let start = self.cursor_pos();
                self.read_char();
                match self.read_number() {
                    Ok(_) => {
                        let end = self.cursor_pos();
                        Ok(
                            Token::Number(
                                String::from_str(self.input.as_str().substring_char(start, end)),
                            ),
                        )
                    },
                    Err(e) => Err(e),
                }
            },
            '"' => {
                match self.read_string() {
                    Ok(text) => Ok(Token::String(text)),
                    Err(e) => Err(e),
                }
            },
            _ => {
                if ch.is_numeric() {
                    match self.read_number() {
                        Ok(text) => Ok(Token::Number(text)),
                        Err(e) => Err(e),
                    }
                } else {
                    match self.read_identifier() {
                        Ok(ident) => {
                            if ident == String::from_str("true") {
                                Ok(Token::Bool(true))
                            } else if ident == String::from_str("false") {
                                Ok(Token::Bool(false))
                            } else {
                                Ok(Token::Identifier(ident))
                            }
                        },
                        Err(e) => Err(e),
                    }
                }
            },
        }
    }

    /// Scan the whole input. On success the token sequence is the one the
    /// scanner model gives: every token in order, terminated by exactly one
    /// end-of-input token; otherwise the first character-level error.
    pub fn tokenize(&mut self) -> (r: Result<Vec<Token>, LexerError>)
        requires
            old(self).wf(),
        ensures
            final(self).wf(),
            ({
                match tokenize_spec(old(self).src(), old(self).cursor()) {
                    Ok(ts) => r matches Ok(v) && v@.map_values(|t: Token| t@) == ts,
                    Err(e) => r matches Err(err) && err@ == e,
                }
            }),
    {
        let ghost s = old(self).src();
        let ghost c0 = old(self).cursor();
        let mut tokens: Vec<Token> = Vec::new();
        loop
            invariant_except_break
                ({
                    match tokenize_spec(s, self.cursor()) {
                        Ok(rest) => tokenize_spec(s, c0) == Ok::<Seq<TokenV>, LexerErrorV>(
                            tokens@.map_values(|t: Token| t@) + rest,
                        ),
                        Err(e) => tokenize_spec(s, c0) == Err::<Seq<TokenV>, LexerErrorV>(e),
                    }
                }),
            invariant
                self.wf(),
                self.input@ == s,
                s == old(self).src(),
                c0 == old(self).cursor(),
                0 <= c0 <= s.len(),
                0 <= self.cursor() <= s.len(),
            ensures
                ({
                    match tokenize_spec(s, c0) {
                        Ok(ts) => tokens@.map_values(|t: Token| t@) == ts,
                        Err(_) => false,
                    }
                }),
            decreases s.len() - self.cursor(),
        {
            let ghost cur = self.cursor();
            proof {
                lemma_next_token_advances(s, cur);
            }
            let tok = self.next_token();
            match tok {
                Ok(t) => {
                    let is_eof = t == Token::EOF;
                    let ghost acc = tokens@.map_values(|t: Token| t@);
                    tokens.push(t);
                    proof {
                        assert(tokens@.map_values(|t: Token| t@) =~= acc.push(t@));
                    }
                    if is_eof {
                        proof {
                            assert(tokenize_spec(s, cur) == Ok::<Seq<TokenV>, LexerErrorV>(
                                seq![TokenV::EOF],
                            ));
                            assert(acc.push(t@) =~= acc + seq![TokenV::EOF]);
                        }
                        break ;
                    } else {
                        proof {
                            let p = next_token_spec(s, cur).1;
                            match tokenize_spec(s, p) {
                                Ok(rest2) => {
                                    assert(tokenize_spec(s, cur) == Ok::<
                                        Seq<TokenV>,
                                        LexerErrorV,
                                    >(seq![t@] + rest2));
                                    assert(acc + (seq![t@] + rest2) =~= acc.push(t@) + rest2);
                                },
                                Err(e2) => {
                                    assert(tokenize_spec(s, cur) == Err::<
                                        Seq<TokenV>,
                                        LexerErrorV,
                                    >(e2));
                                },
                            }
                        }
                    }
                },
                Err(e) => {
                    proof {
                        assert(tokenize_spec(s, cur) == Err::<Seq<TokenV>, LexerErrorV>(e@));
                        assert(tokenize_spec(s, c0) == Err::<Seq<TokenV>, LexerErrorV>(e@));
                    }
                    return Err(e);
                },
            }
        }
        Ok(tokens)
    }
}

} // verus!
