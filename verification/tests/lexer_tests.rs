use score_lang::decimal::push_decimal;
use score_lang::lexer::{identifier_from_match, number_from_match, tok_identifier, tok_number, tokenize};
use score_lang::token::{char_to_token, Token, TokenKind, TokenType};

fn kinds(tokens: &[Token]) -> Vec<TokenType> {
    tokens.iter().map(|t| t.token_type.clone()).collect()
}

fn ident(s: &str) -> TokenType {
    TokenKind::Identifier(s.to_string())
}

fn number(s: &str) -> TokenType {
    TokenKind::Number(s.to_string())
}

#[test]
fn char_to_token_maps_every_punctuation_character() {
    let expected: Vec<(char, TokenType)> = vec![
        ('=', TokenKind::Equals),
        ('(', TokenKind::LeftParen),
        (')', TokenKind::RightParen),
        ('[', TokenKind::LeftSquare),
        (']', TokenKind::RightSquare),
        ('{', TokenKind::LeftCurly),
        ('}', TokenKind::RightCurly),
        (',', TokenKind::Comma),
        ('.', TokenKind::Dot),
        ('#', TokenKind::Hash),
        ('~', TokenKind::Tilde),
        ('<', TokenKind::LeftAngle),
        ('>', TokenKind::RightAngle),
        ('+', TokenKind::Plus),
        ('-', TokenKind::Minus),
        ('\'', TokenKind::Apostrophe),
        ('/', TokenKind::ForwardSlash),
        ('\\', TokenKind::BackSlash),
        ('`', TokenKind::Backtick),
        ('|', TokenKind::Pipe),
        ('?', TokenKind::Question),
        ('!', TokenKind::Bang),
        ('$', TokenKind::Dollar),
        ('&', TokenKind::Ampersand),
        ('%', TokenKind::Percent),
        ('^', TokenKind::Caret),
        ('"', TokenKind::DoubleQuote),
        (';', TokenKind::Semicolon),
        (':', TokenKind::Colon),
        ('*', TokenKind::Asterisk),
    ];
    for (c, t) in expected {
        assert_eq!(char_to_token(&c), Some(t));
    }
}

#[test]
fn char_to_token_rejects_other_characters() {
    for c in ['a', 'Z', '0', '9', '@', ' ', '\n', '\t', '_', 'é'] {
        assert_eq!(char_to_token(&c), None);
    }
}

#[test]
fn tokenize_punctuation_spaces_and_line_breaks() {
    let r = tokenize(&"= \n(".to_string()).unwrap();
    assert_eq!(kinds(&r), vec![TokenKind::Equals, TokenKind::NewLine, TokenKind::LeftParen]);
}

#[test]
fn tokenize_plain_text_law_example() {
    let r = tokenize(&" ( ) {}\n\n~#".to_string()).unwrap();
    assert_eq!(
        kinds(&r),
        vec![
            TokenKind::LeftParen,
            TokenKind::RightParen,
            TokenKind::LeftCurly,
            TokenKind::RightCurly,
            TokenKind::NewLine,
            TokenKind::NewLine,
            TokenKind::Tilde,
            TokenKind::Hash,
        ]
    );
}

#[test]
fn tokenize_empty_text() {
    assert_eq!(tokenize(&String::new()).unwrap().len(), 0);
}

#[test]
fn tokenize_identifiers() {
    let r = tokenize(&"@abc #@De_f".to_string()).unwrap();
    assert_eq!(kinds(&r), vec![ident("abc"), TokenKind::Hash, ident("De_f")]);
}

#[test]
fn tokenize_identifier_stops_at_other_characters() {
    let r = tokenize(&"@ab=".to_string()).unwrap();
    assert_eq!(kinds(&r), vec![ident("ab"), TokenKind::Equals]);
}

#[test]
fn tokenize_numbers() {
    let r = tokenize(&"12.5/3".to_string()).unwrap();
    assert_eq!(kinds(&r), vec![number("12.5"), TokenKind::ForwardSlash, number("3")]);
}

#[test]
fn tokenize_number_takes_one_fraction() {
    let r = tokenize(&"1.2.3".to_string()).unwrap();
    assert_eq!(kinds(&r), vec![number("1.2"), TokenKind::Dot, number("3")]);
}

#[test]
fn tokenize_number_with_trailing_dot() {
    let r = tokenize(&"7.".to_string()).unwrap();
    assert_eq!(kinds(&r), vec![number("7.")]);
}

#[test]
fn tokenize_reports_line_and_column() {
    let e = tokenize(&"=\nx".to_string()).unwrap_err();
    assert_eq!(e, "could not parse at line: 2, char: 0");
}

#[test]
fn tokenize_reports_column_on_first_line() {
    let e = tokenize(&"== =\tx".to_string()).unwrap_err();
    assert_eq!(e, "could not parse at line: 1, char: 4");
}

#[test]
fn tokenize_first_bad_char_law_example() {
    let e = tokenize(&"(\n)\n  ;a".to_string()).unwrap_err();
    assert_eq!(e, "could not parse at line: 3, char: 3");
}

#[test]
fn tokenize_column_counts_modulo_256() {
    let mut text = "=".repeat(300);
    text.push('x');
    let e = tokenize(&text).unwrap_err();
    assert_eq!(e, "could not parse at line: 1, char: 44");
}

#[test]
fn tokenize_rejects_letters_without_at() {
    let e = tokenize(&"abc".to_string()).unwrap_err();
    assert_eq!(e, "could not parse at line: 1, char: 0");
}

#[test]
fn tokenize_rejects_at_without_name() {
    assert_eq!(tokenize(&"@ ".to_string()).unwrap_err(), "not valid identifier 1");
    assert_eq!(tokenize(&"=@".to_string()).unwrap_err(), "not valid identifier 1");
    assert_eq!(tokenize(&"@9".to_string()).unwrap_err(), "not valid identifier 1");
}

#[test]
fn tok_identifier_reads_leading_name() {
    let (t, n) = tok_identifier("abc def").unwrap();
    assert_eq!(t.token_type, ident("abc"));
    assert_eq!(n, 3);
}

#[test]
fn tok_identifier_rejects_non_letters() {
    assert_eq!(tok_identifier("9abc").unwrap_err(), "not valid identifier 1");
    assert_eq!(tok_identifier("").unwrap_err(), "not valid identifier 1");
}

#[test]
fn tok_number_reads_leading_numeral() {
    let (t, n) = tok_number("3.14x").unwrap();
    assert_eq!(t.token_type, number("3.14"));
    assert_eq!(n, 4);
}

#[test]
fn tok_number_without_value_is_an_error() {
    assert_eq!(tok_number("x").unwrap_err(), "not valid number 3");
    assert_eq!(tok_number("").unwrap_err(), "not valid number 3");
    assert_eq!(tok_number(".x").unwrap_err(), "not valid number 3");
}

#[test]
fn tok_number_reads_fractions_and_trailing_dots() {
    let (t, n) = tok_number(".5 ").unwrap();
    assert_eq!((t.token_type, n), (number(".5"), 2));
    let (t, n) = tok_number("5.x").unwrap();
    assert_eq!((t.token_type, n), (number("5."), 2));
}

#[test]
fn join_tokens_law_example() {
    let a = "#@a 1.5".to_string();
    let b = "(@bc".to_string();
    let x = kinds(&tokenize(&a).unwrap());
    let y = kinds(&tokenize(&b).unwrap());
    let spaced = kinds(&tokenize(&format!("{} {}", a, b)).unwrap());
    let mut expected = x.clone();
    expected.extend(y.clone());
    assert_eq!(spaced, expected);
    let lined = kinds(&tokenize(&format!("{}\n{}", a, b)).unwrap());
    let mut expected = x;
    expected.push(TokenKind::NewLine);
    expected.extend(y);
    assert_eq!(lined, expected);
}

#[test]
fn from_match_builds_tokens_and_errors() {
    let (t, n) = identifier_from_match(Some("ab".to_string())).unwrap();
    assert_eq!((t.token_type, n), (ident("ab"), 2));
    assert_eq!(identifier_from_match(None).unwrap_err(), "not valid identifier 1");
    let (t, n) = number_from_match(Some("10".to_string())).unwrap();
    assert_eq!((t.token_type, n), (number("10"), 2));
    assert_eq!(number_from_match(None).unwrap_err(), "not valid number 1");
    assert_eq!(number_from_match(Some(String::new())).unwrap_err(), "not valid number 3");
    assert_eq!(number_from_match(Some(".".to_string())).unwrap_err(), "not valid number 3");
}

#[test]
fn push_decimal_writes_numerals() {
    let mut s = String::from("n=");
    push_decimal(&mut s, 1234);
    assert_eq!(s, "n=1234");
    let mut z = String::new();
    push_decimal(&mut z, 0);
    assert_eq!(z, "0");
    let mut big = String::new();
    push_decimal(&mut big, u128::MAX);
    assert_eq!(big, u128::MAX.to_string());
}

#[test]
fn token_kind_equality_compares_text() {
    assert_eq!(ident("a"), ident("a"));
    assert_ne!(ident("a"), ident("b"));
    assert_ne!(ident("a"), number("a"));
    assert_eq!(number("1.0"), number("1"));
    assert_eq!(number("01"), number("1."));
    assert_eq!(number("0.50"), number(".5"));
    assert_eq!(number("0"), number("0.0"));
    assert_ne!(number("10"), number("1"));
    assert_ne!(number("1.05"), number("1.5"));
    assert_ne!(TokenKind::<String>::Hash, TokenKind::Tilde);
    let t = Token { token_type: number("5") };
    assert_eq!(t.duplicate().token_type, number("5"));
}
