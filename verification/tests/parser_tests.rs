use score_lang::lexer::tokenize;
use score_lang::parser::{AtomicExpr, Parser, Score};
use score_lang::token::{Token, TokenKind, TokenType};

fn parser_for(text: &str) -> Parser {
    Parser { token_list: tokenize(&text.to_string()).unwrap(), index: 0 }
}

fn ident(s: &str) -> TokenType {
    TokenKind::Identifier(s.to_string())
}

#[test]
fn parse_empty_score() {
    let mut p = parser_for("");
    let Score::ExprList(list) = p.parse().unwrap();
    assert!(list.is_empty());
    assert_eq!(p.index, 0);
}

#[test]
fn parse_chord_without_members_fails() {
    let mut p = parser_for("#=");
    let e = p.parse().unwrap_err();
    assert_eq!(e.reason, "could not parse parallel expression: no parallel subexpressions found");
    assert_eq!(e.at_token.unwrap().token_type, TokenKind::Equals);
    assert_eq!(p.index, 1);
}

#[test]
fn parse_chord_at_end_fails_without_token() {
    let mut p = parser_for("#");
    let e = p.parse().unwrap_err();
    assert_eq!(e.reason, "could not parse parallel expression: no parallel subexpressions found");
    assert!(e.at_token.is_none());
}

#[test]
fn parse_unrecognised_token_fails() {
    let mut p = parser_for("=");
    let e = p.parse().unwrap_err();
    assert_eq!(e.reason, "could not parse expression: could not recognise token");
    assert_eq!(e.at_token.unwrap().token_type, TokenKind::Equals);
    assert_eq!(p.index, 0);
}

#[test]
fn parse_series_has_no_rule() {
    let mut p = parser_for("~@a");
    let e = p.parse().unwrap_err();
    assert_eq!(e.reason, "could not parse series expression: the grammar has no rule for series expressions");
    assert_eq!(e.at_token.unwrap().token_type, ident("a"));
    assert_eq!(p.index, 1);
}

#[test]
fn parse_rhythm_has_no_rule() {
    let mut p = parser_for("/");
    let e = p.parse().unwrap_err();
    assert_eq!(e.reason, "could not parse rhythm expression: the grammar has no rule for rhythm expressions");
    assert!(e.at_token.is_none());
}

#[test]
fn parse_assignment_has_no_rule() {
    let mut p = parser_for("@x");
    let e = p.parse_expr().unwrap_err();
    assert_eq!(e.reason, "could not parse assignment expression: the grammar has no rule for assignment expressions");
    assert_eq!(e.at_token.unwrap().token_type, ident("x"));
    assert_eq!(p.index, 0);
}

#[test]
fn parse_expr_on_empty_list() {
    let mut p = parser_for("");
    let e = p.parse_expr().unwrap_err();
    assert_eq!(e.reason, "could not parse expression: expected tokens remaining, but token stream is empty");
    assert!(e.at_token.is_none());
}

#[test]
fn assignments_need_an_identifier() {
    let mut p = parser_for("=");
    let e = p.parse_rhythm_assignment().unwrap_err();
    assert_eq!(e.reason, "could not parse rhythm assignment expression: expected identifier");
    let e = p.parse_series_assignment().unwrap_err();
    assert_eq!(e.reason, "could not parse series assignment expression: expected identifier");
    let e = p.parse_parallel_assignment().unwrap_err();
    assert_eq!(e.reason, "could not parse parallel assignment expression: expected identifier");
    let mut q = parser_for("");
    assert_eq!(
        q.parse_rhythm_assignment().unwrap_err().reason,
        "could not parse rhythm assignment expression: no tokens remaining"
    );
    assert_eq!(
        q.parse_series_assignment().unwrap_err().reason,
        "could not parse series assignment expression: no tokens remaining"
    );
    assert_eq!(
        q.parse_parallel_assignment().unwrap_err().reason,
        "could not parse parallel assignment expression: no tokens remaining"
    );
}

#[test]
fn rhythm_and_series_assignments_fail_after_the_name() {
    let mut p = parser_for("@x/");
    let e = p.parse_rhythm_assignment().unwrap_err();
    assert_eq!(e.reason, "could not parse rhythm expression: the grammar has no rule for rhythm expressions");
    assert_eq!(p.index, 1);
    let mut q = parser_for("@x~");
    let e = q.parse_series_assignment().unwrap_err();
    assert_eq!(e.reason, "could not parse series expression: the grammar has no rule for series expressions");
    assert_eq!(q.index, 1);
}

#[test]
fn atomic_expr_reads_identifier_without_moving() {
    let p = parser_for("@n=");
    match p.parse_atomic_expr().unwrap() {
        AtomicExpr::Identifier(t) => assert_eq!(t, ident("n")),
        other => panic!("unexpected {:?}", other),
    }
    assert_eq!(p.index, 0);
    let q = Parser { token_list: p.token_list, index: 1 };
    assert_eq!(q.parse_atomic_expr().unwrap_err().reason, "could not parse atomic expression: expected identifier");
    let r = Parser { token_list: Vec::new(), index: 0 };
    assert_eq!(r.parse_atomic_expr().unwrap_err().reason, "could not parse atomic expression: no tokens remaining");
}

#[test]
fn advance_then_previous_gives_the_advanced_token() {
    let mut p = parser_for("=#");
    assert!(p.token_previous().is_none());
    let t = p.token_advance().unwrap();
    assert_eq!(t.token_type, TokenKind::Equals);
    assert_eq!(p.token_previous().unwrap().token_type, TokenKind::Equals);
    assert_eq!(p.token_peek().unwrap().token_type, TokenKind::Hash);
    p.token_advance();
    assert!(p.token_advance().is_none());
    assert_eq!(p.index, 2);
    assert!(p.token_peek().is_none());
}

#[test]
fn token_check_compares_current_kind() {
    let p = parser_for("@a");
    assert!(p.token_check(&ident("a")));
    assert!(!p.token_check(&ident("b")));
    assert!(!p.token_check(&TokenKind::Hash));
    let end = Parser { token_list: Vec::<Token>::new(), index: 0 };
    assert!(!end.token_check(&TokenKind::Hash));
}

#[test]
fn token_match_moves_when_some_kind_differs() {
    let mut p = parser_for("=#");
    assert!(p.token_match(vec![TokenKind::Equals]).is_none());
    assert_eq!(p.index, 0);
    assert!(p.token_match(Vec::new()).is_none());
    let t = p.token_match(vec![TokenKind::Equals, TokenKind::Hash]).unwrap();
    assert_eq!(t.token_type, TokenKind::Equals);
    assert_eq!(p.index, 1);
}

#[test]
fn no_expression_parses() {
    for text in ["#=", "#", "~", "/", "@a", "=", "(", "1"] {
        let mut p = parser_for(text);
        assert!(p.parse_expr().is_err(), "{}", text);
    }
}

#[test]
fn parallel_assignment_fails_on_its_chord() {
    let mut p = parser_for("@x=");
    let e = p.parse_parallel_assignment().unwrap_err();
    assert_eq!(e.reason, "could not parse parallel expression: no parallel subexpressions found");
    assert_eq!(e.at_token.unwrap().token_type, TokenKind::Equals);
    assert_eq!(p.index, 1);
}

#[test]
fn chord_parser_fails_without_moving() {
    let mut p = parser_for("=");
    let e = p.parse_parallel_expr().unwrap_err();
    assert_eq!(e.reason, "could not parse parallel expression: no parallel subexpressions found");
    assert_eq!(p.index, 0);
}

#[test]
fn token_check_compares_numerals_by_value() {
    let p = parser_for("1.0");
    assert!(p.token_check(&TokenKind::Number("1".to_string())));
    assert!(p.token_check(&TokenKind::Number("01.".to_string())));
    assert!(!p.token_check(&TokenKind::Number("10".to_string())));
    let mut q = parser_for("2.50");
    assert!(q.token_match(vec![TokenKind::Number("2.5".to_string())]).is_none());
    assert_eq!(q.index, 0);
}
