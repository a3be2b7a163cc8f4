//! Tokens of the score language.

use vstd::prelude::*;
use vstd::std_specs::cmp::PartialEqSpec;

use crate::text::{
    all_digits, digits_value, fraction_place, law_numeral_key_by_places, law_numeral_key_by_value, numeral_key,
    numeral_text, numerals_equal, pow10, whole_place,
};

verus! {

/// The kinds of token. `S` is the type that holds the text of identifiers
/// and numerals: `String` at run time, `Seq<char>` in specifications.
#[derive(Debug, Clone)]
pub enum TokenKind<S> {
    Equals,
    LeftParen,
    RightParen,
    LeftSquare,
    RightSquare,
    LeftCurly,
    RightCurly,
    Comma,
    Dot,
    Apostrophe,
    ForwardSlash,
    BackSlash,
    Hash,
    Tilde,
    LeftAngle,
    RightAngle,
    Plus,
    Minus,
    Backtick,
    Pipe,
    Question,
    Bang,
    Dollar,
    Ampersand,
    DoubleQuote,
    Percent,
    Caret,
    Semicolon,
    Colon,
    Asterisk,
    NewLine,
    /// A name introduced by `@`.
    Identifier(S),
    /// The text of a numeral, such as `12` or `1.5`.
    Number(S),
}

/// A token kind as it is held at run time.
pub type TokenType = TokenKind<String>;

/// A token kind as contracts speak of it.
pub type SpecTokenType = TokenKind<Seq<char>>;

impl View for TokenKind<String> {
    type V = SpecTokenType;

    open spec fn view(&self) -> SpecTokenType {
        match self {
            TokenKind::Equals => TokenKind::Equals,
            TokenKind::LeftParen => TokenKind::LeftParen,
            TokenKind::RightParen => TokenKind::RightParen,
            TokenKind::LeftSquare => TokenKind::LeftSquare,
            TokenKind::RightSquare => TokenKind::RightSquare,
            TokenKind::LeftCurly => TokenKind::LeftCurly,
            TokenKind::RightCurly => TokenKind::RightCurly,
            TokenKind::Comma => TokenKind::Comma,
            TokenKind::Dot => TokenKind::Dot,
            TokenKind::Apostrophe => TokenKind::Apostrophe,
            TokenKind::ForwardSlash => TokenKind::ForwardSlash,
            TokenKind::BackSlash => TokenKind::BackSlash,
            TokenKind::Hash => TokenKind::Hash,
            TokenKind::Tilde => TokenKind::Tilde,
            TokenKind::LeftAngle => TokenKind::LeftAngle,
            TokenKind::RightAngle => TokenKind::RightAngle,
            TokenKind::Plus => TokenKind::Plus,
            TokenKind::Minus => TokenKind::Minus,
            TokenKind::Backtick => TokenKind::Backtick,
            TokenKind::Pipe => TokenKind::Pipe,
            TokenKind::Question => TokenKind::Question,
            TokenKind::Bang => TokenKind::Bang,
            TokenKind::Dollar => TokenKind::Dollar,
            TokenKind::Ampersand => TokenKind::Ampersand,
            TokenKind::DoubleQuote => TokenKind::DoubleQuote,
            TokenKind::Percent => TokenKind::Percent,
            TokenKind::Caret => TokenKind::Caret,
            TokenKind::Semicolon => TokenKind::Semicolon,
            TokenKind::Colon => TokenKind::Colon,
            TokenKind::Asterisk => TokenKind::Asterisk,
            TokenKind::NewLine => TokenKind::NewLine,
            TokenKind::Identifier(s) => TokenKind::Identifier(s@),
            TokenKind::Number(s) => TokenKind::Number(s@),
        }
    }
}

/// The token that a single punctuation character stands for, if any.
pub open spec fn symbol_token(c: char) -> Option<SpecTokenType> {
    if c == '=' { Some(TokenKind::Equals) }
    else if c == '(' { Some(TokenKind::LeftParen) }
    else if c == ')' { Some(TokenKind::RightParen) }
    else if c == '[' { Some(TokenKind::LeftSquare) }
    else if c == ']' { Some(TokenKind::RightSquare) }
    else if c == '{' { Some(TokenKind::LeftCurly) }
    else if c == '}' { Some(TokenKind::RightCurly) }
    else if c == ',' { Some(TokenKind::Comma) }
    else if c == '.' { Some(TokenKind::Dot) }
    else if c == '#' { Some(TokenKind::Hash) }
    else if c == '~' { Some(TokenKind::Tilde) }
    else if c == '<' { Some(TokenKind::LeftAngle) }
    else if c == '>' { Some(TokenKind::RightAngle) }
    else if c == '+' { Some(TokenKind::Plus) }
    else if c == '-' { Some(TokenKind::Minus) }
    else if c == '\'' { Some(TokenKind::Apostrophe) }
    else if c == '/' { Some(TokenKind::ForwardSlash) }
    else if c == '\\' { Some(TokenKind::BackSlash) }
    else if c == '`' { Some(TokenKind::Backtick) }
    else if c == '|' { Some(TokenKind::Pipe) }
    else if c == '?' { Some(TokenKind::Question) }
    else if c == '!' { Some(TokenKind::Bang) }
    else if c == '$' { Some(TokenKind::Dollar) }
    else if c == '&' { Some(TokenKind::Ampersand) }
    else if c == '%' { Some(TokenKind::Percent) }
    else if c == '^' { Some(TokenKind::Caret) }
    else if c == '"' { Some(TokenKind::DoubleQuote) }
    else if c == ';' { Some(TokenKind::Semicolon) }
    else if c == ':' { Some(TokenKind::Colon) }
    else if c == '*' { Some(TokenKind::Asterisk) }
    else { None }
}

/// Maps a punctuation character to its token; any other character has none.
pub fn char_to_token(ch: &char) -> (r: Option<TokenType>)
    ensures
        r matches Some(t) ==> symbol_token(*ch) == Some(t@),
        r is None <==> symbol_token(*ch) is None,
{
    match ch {
        '=' => Some(TokenKind::Equals),
        '(' => Some(TokenKind::LeftParen),
        ')' => Some(TokenKind::RightParen),
        '[' => Some(TokenKind::LeftSquare),
        ']' => Some(TokenKind::RightSquare),
        '{' => Some(TokenKind::LeftCurly),
        '}' => Some(TokenKind::RightCurly),
        ',' => Some(TokenKind::Comma),
        '.' => Some(TokenKind::Dot),
        '#' => Some(TokenKind::Hash),
        '~' => Some(TokenKind::Tilde),
        '<' => Some(TokenKind::LeftAngle),
        '>' => Some(TokenKind::RightAngle),
        '+' => Some(TokenKind::Plus),
        '-' => Some(TokenKind::Minus),
        '\'' => Some(TokenKind::Apostrophe),
        '/' => Some(TokenKind::ForwardSlash),
        '\\' => Some(TokenKind::BackSlash),
        '`' => Some(TokenKind::Backtick),
        '|' => Some(TokenKind::Pipe),
        '?' => Some(TokenKind::Question),
        '!' => Some(TokenKind::Bang),
        '$' => Some(TokenKind::Dollar),
        '&' => Some(TokenKind::Ampersand),
        '%' => Some(TokenKind::Percent),
        '^' => Some(TokenKind::Caret),
        '"' => Some(TokenKind::DoubleQuote),
        ';' => Some(TokenKind::Semicolon),
        ':' => Some(TokenKind::Colon),
        '*' => Some(TokenKind::Asterisk),
        _ => None,
    }
}

/// Whether two token kinds are equal: numerals when they have the same
/// value, any other kinds when they are the same kind with the same text.
pub open spec fn same_token(a: SpecTokenType, b: SpecTokenType) -> bool {
    match (a, b) {
        (TokenKind::Number(x), TokenKind::Number(y)) => numeral_key(x) == numeral_key(y),
        _ => a == b,
    }
}

/// Token equality is an equivalence: reflexive, symmetric and transitive.
pub proof fn law_token_equality_is_equivalence(a: SpecTokenType, b: SpecTokenType, c: SpecTokenType)
    ensures
        same_token(a, a),
        same_token(a, b) == same_token(b, a),
        same_token(a, b) && same_token(b, c) ==> same_token(a, c),
{
}

/// Tokens that are not both numerals are equal exactly when they are the
/// same kind with the same text; in particular a numeral never equals a
/// token of another kind.
pub proof fn law_other_tokens_equal_when_identical(a: SpecTokenType, b: SpecTokenType)
    requires
        !(a is Number && b is Number),
    ensures
        same_token(a, b) == (a == b),
{
}

/// Two numeral tokens are equal exactly when the numerals have the same
/// digit at every decimal place, a missing place counting as `0`: every
/// digit of the whole part and of the fraction counts, and only leading
/// zeros of the whole part and trailing zeros of the fraction do not.
pub proof fn law_numeral_equality_by_places(
    w1: Seq<char>,
    dot1: bool,
    f1: Seq<char>,
    w2: Seq<char>,
    dot2: bool,
    f2: Seq<char>,
)
    requires
        forall|i: int| 0 <= i < w1.len() ==> w1[i] != '.',
        forall|i: int| 0 <= i < w2.len() ==> w2[i] != '.',
        !dot1 ==> f1.len() == 0,
        !dot2 ==> f2.len() == 0,
    ensures
        same_token(
            TokenKind::Number(numeral_text(w1, dot1, f1)),
            TokenKind::Number(numeral_text(w2, dot2, f2)),
        ) == ((forall|k: nat| whole_place(w1, k) == whole_place(w2, k))
            && (forall|k: nat| fraction_place(f1, k) == fraction_place(f2, k))),
{
    law_numeral_key_by_places(w1, dot1, f1, w2, dot2, f2);
}

/// Two numeral tokens of decimal digits are equal exactly when they write
/// the same rational number: with whole parts `w1`, `w2` and fractions
/// `f1`, `f2`, when `(w1 f1) / 10^|f1|` equals `(w2 f2) / 10^|f2|`, each
/// run of digits read as a whole number in base ten.
pub proof fn law_numeral_equality_is_value_equality(
    w1: Seq<char>,
    dot1: bool,
    f1: Seq<char>,
    w2: Seq<char>,
    dot2: bool,
    f2: Seq<char>,
)
    requires
        all_digits(w1),
        all_digits(f1),
        all_digits(w2),
        all_digits(f2),
        !dot1 ==> f1.len() == 0,
        !dot2 ==> f2.len() == 0,
    ensures
        same_token(
            TokenKind::Number(numeral_text(w1, dot1, f1)),
            TokenKind::Number(numeral_text(w2, dot2, f2)),
        ) == (digits_value(w1 + f1) * pow10(f2.len()) == digits_value(w2 + f2) * pow10(f1.len())),
{
    law_numeral_key_by_value(w1, dot1, f1, w2, dot2, f2);
}

/// Appending a digit other than `0` to the fraction of a numeral gives a
/// numeral of another value: the two tokens are not equal.
pub proof fn law_longer_fraction_differs(w: Seq<char>, f: Seq<char>, d: char)
    requires
        forall|i: int| 0 <= i < w.len() ==> w[i] != '.',
        d != '0',
    ensures
        !same_token(
            TokenKind::Number(numeral_text(w, true, f)),
            TokenKind::Number(numeral_text(w, true, f.push(d))),
        ),
{
    law_numeral_key_by_places(w, true, f, w, true, f.push(d));
    assert(fraction_place(f, f.len()) != fraction_place(f.push(d), f.len()));
}

/// Zeros written before a whole part or after a fraction do not change a
/// numeral's value: the tokens are equal.
pub proof fn law_padding_zeros_keep_value(w: Seq<char>, f: Seq<char>, a: nat, b: nat)
    requires
        forall|i: int| 0 <= i < w.len() ==> w[i] != '.',
    ensures
        same_token(
            TokenKind::Number(numeral_text(w, true, f)),
            TokenKind::Number(numeral_text(Seq::new(a, |i: int| '0') + w, true, f + Seq::new(b, |i: int| '0'))),
        ),
{
    let w2 = Seq::new(a, |i: int| '0') + w;
    let f2 = f + Seq::new(b, |i: int| '0');
    assert forall|i: int| 0 <= i < w2.len() implies w2[i] != '.' by {
        if i >= a {
            assert(w2[i] == w[i - a]);
        }
    }
    law_numeral_key_by_places(w, true, f, w2, true, f2);
    assert forall|k: nat| whole_place(w, k) == whole_place(w2, k) by {
        if k < w.len() {
            assert(w2[w2.len() - 1 - k] == w[w.len() - 1 - k]);
        }
    }
    assert forall|k: nat| fraction_place(f, k) == fraction_place(f2, k) by {
        if k < f.len() {
            assert(f2[k as int] == f[k as int]);
        }
    }
}

impl PartialEq for TokenKind<String> {
    fn eq(&self, other: &Self) -> (r: bool) {
        match (self, other) {
            (TokenKind::Equals, TokenKind::Equals) => true,
            (TokenKind::LeftParen, TokenKind::LeftParen) => true,
            (TokenKind::RightParen, TokenKind::RightParen) => true,
            (TokenKind::LeftSquare, TokenKind::LeftSquare) => true,
            (TokenKind::RightSquare, TokenKind::RightSquare) => true,
            (TokenKind::LeftCurly, TokenKind::LeftCurly) => true,
            (TokenKind::RightCurly, TokenKind::RightCurly) => true,
            (TokenKind::Comma, TokenKind::Comma) => true,
            (TokenKind::Dot, TokenKind::Dot) => true,
            (TokenKind::Apostrophe, TokenKind::Apostrophe) => true,
            (TokenKind::ForwardSlash, TokenKind::ForwardSlash) => true,
            (TokenKind::BackSlash, TokenKind::BackSlash) => true,
            (TokenKind::Hash, TokenKind::Hash) => true,
            (TokenKind::Tilde, TokenKind::Tilde) => true,
            (TokenKind::LeftAngle, TokenKind::LeftAngle) => true,
            (TokenKind::RightAngle, TokenKind::RightAngle) => true,
            (TokenKind::Plus, TokenKind::Plus) => true,
            (TokenKind::Minus, TokenKind::Minus) => true,
            (TokenKind::Backtick, TokenKind::Backtick) => true,
            (TokenKind::Pipe, TokenKind::Pipe) => true,
            (TokenKind::Question, TokenKind::Question) => true,
            (TokenKind::Bang, TokenKind::Bang) => true,
            (TokenKind::Dollar, TokenKind::Dollar) => true,
            (TokenKind::Ampersand, TokenKind::Ampersand) => true,
            (TokenKind::DoubleQuote, TokenKind::DoubleQuote) => true,
            (TokenKind::Percent, TokenKind::Percent) => true,
            (TokenKind::Caret, TokenKind::Caret) => true,
            (TokenKind::Semicolon, TokenKind::Semicolon) => true,
            (TokenKind::Colon, TokenKind::Colon) => true,
            (TokenKind::Asterisk, TokenKind::Asterisk) => true,
            (TokenKind::NewLine, TokenKind::NewLine) => true,
            (TokenKind::Identifier(a), TokenKind::Identifier(b)) => a.eq(b),
            (TokenKind::Number(a), TokenKind::Number(b)) => numerals_equal(a, b),
            _ => false,
        }
    }
}

impl vstd::std_specs::cmp::PartialEqSpecImpl for TokenKind<String> {
    open spec fn obeys_eq_spec() -> bool {
        true
    }

    open spec fn eq_spec(&self, other: &Self) -> bool {
        same_token(self@, other@)
    }
}

impl TokenKind<String> {
    /// A copy of this token kind, equal to it.
    pub fn duplicate(&self) -> (r: Self)
        ensures
            r == *self,
    {
        match self {
            TokenKind::Equals => TokenKind::Equals,
            TokenKind::LeftParen => TokenKind::LeftParen,
            TokenKind::RightParen => TokenKind::RightParen,
            TokenKind::LeftSquare => TokenKind::LeftSquare,
            TokenKind::RightSquare => TokenKind::RightSquare,
            TokenKind::LeftCurly => TokenKind::LeftCurly,
            TokenKind::RightCurly => TokenKind::RightCurly,
            TokenKind::Comma => TokenKind::Comma,
            TokenKind::Dot => TokenKind::Dot,
            TokenKind::Apostrophe => TokenKind::Apostrophe,
            TokenKind::ForwardSlash => TokenKind::ForwardSlash,
            TokenKind::BackSlash => TokenKind::BackSlash,
            TokenKind::Hash => TokenKind::Hash,
            TokenKind::Tilde => TokenKind::Tilde,
            TokenKind::LeftAngle => TokenKind::LeftAngle,
            TokenKind::RightAngle => TokenKind::RightAngle,
            TokenKind::Plus => TokenKind::Plus,
            TokenKind::Minus => TokenKind::Minus,
            TokenKind::Backtick => TokenKind::Backtick,
            TokenKind::Pipe => TokenKind::Pipe,
            TokenKind::Question => TokenKind::Question,
            TokenKind::Bang => TokenKind::Bang,
            TokenKind::Dollar => TokenKind::Dollar,
            TokenKind::Ampersand => TokenKind::Ampersand,
            TokenKind::DoubleQuote => TokenKind::DoubleQuote,
            TokenKind::Percent => TokenKind::Percent,
            TokenKind::Caret => TokenKind::Caret,
            TokenKind::Semicolon => TokenKind::Semicolon,
            TokenKind::Colon => TokenKind::Colon,
            TokenKind::Asterisk => TokenKind::Asterisk,
            TokenKind::NewLine => TokenKind::NewLine,
            TokenKind::Identifier(s) => TokenKind::Identifier(s.clone()),
            TokenKind::Number(s) => TokenKind::Number(s.clone()),
        }
    }
}

/// `==` on token kinds is the equality of `same_token`: numerals by value,
/// any other kinds by kind and text.
pub proof fn law_token_eq_is_same_token(a: TokenType, b: TokenType)
    ensures
        a.eq_spec(&b) == same_token(a@, b@),
{
}

/// A token of the score language.
#[derive(Debug, Clone)]
pub struct Token {
    pub token_type: TokenType,
}

impl View for Token {
    type V = SpecTokenType;

    open spec fn view(&self) -> SpecTokenType {
        self.token_type@
    }
}

impl Token {
    /// A copy of this token, equal to it.
    pub fn duplicate(&self) -> (r: Self)
        ensures
            r == *self,
    {
        Token { token_type: self.token_type.duplicate() }
    }
}

/// A sequence of tokens, in the order of the text they came from.
pub type TokenList = Vec<Token>;

} // verus!
