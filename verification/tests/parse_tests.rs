use lisp_parser::ast::Expr;
use lisp_parser::parser::ParseError;
use lisp_parser::parser::Parser;

fn ident(s: &str) -> Expr {
    Expr::Identifier(s.to_string())
}

fn strlit(s: &str) -> Expr {
    Expr::StringLiteral(s.to_string())
}

fn parse_ok(code: &str) -> Expr {
    Parser::parse(code).unwrap()
}

fn parse_err(code: &str) -> String {
    match Parser::parse(code) {
        Ok(e) => panic!("expected an error, got {:?}", e),
        Err(ParseError::Invalid(m)) => m,
    }
}

#[test]
fn empty_input_is_noop() {
    assert_eq!(parse_ok(""), Expr::Noop);
}

#[test]
fn whitespace_only_input_is_noop() {
    assert_eq!(parse_ok("   \t\r\n  \x0c "), Expr::Noop);
}

#[test]
fn flat_list_of_identifiers() {
    assert_eq!(parse_ok("(a b c)"), Expr::List(vec![ident("a"), ident("b"), ident("c")]));
}

#[test]
fn empty_list() {
    assert_eq!(parse_ok("()"), Expr::List(vec![]));
}

#[test]
fn empty_list_with_inner_whitespace() {
    assert_eq!(parse_ok("(  \t )"), Expr::List(vec![]));
}

#[test]
fn nested_list() {
    assert_eq!(
        parse_ok("(a (b c) d)"),
        Expr::List(vec![
            ident("a"),
            Expr::List(vec![ident("b"), ident("c")]),
            ident("d"),
        ])
    );
}

#[test]
fn deeply_nested_lists() {
    assert_eq!(
        parse_ok("((()))"),
        Expr::List(vec![Expr::List(vec![Expr::List(vec![])])])
    );
}

#[test]
fn string_literal() {
    assert_eq!(parse_ok("\"hello\""), strlit("hello"));
}

#[test]
fn empty_string_literal() {
    assert_eq!(parse_ok("\"\""), strlit(""));
}

#[test]
fn string_literal_keeps_raw_characters() {
    assert_eq!(parse_ok("\"a (b\\ \t\""), strlit("a (b\\ \t"));
}

#[test]
fn bare_identifier() {
    assert_eq!(parse_ok("abc"), ident("abc"));
}

#[test]
fn digits_do_not_extend_an_identifier() {
    assert_eq!(parse_err("abc123"), "Unexpected character '1' after expression");
}

#[test]
fn unterminated_list() {
    assert_eq!(parse_err("(a"), "ERROR: Unterminated list on line 1 column 3");
}

#[test]
fn unterminated_string_literal() {
    assert_eq!(
        parse_err("\"unterminated"),
        "ERROR: Unterminated string literal on line 1 column 14"
    );
}

#[test]
fn unexpected_character_is_reported_as_trailing() {
    assert_eq!(parse_err("@"), "Unexpected character '@' after expression");
}

#[test]
fn unexpected_character_inside_list_is_reported_as_trailing() {
    assert_eq!(parse_err("(a @)"), "Unexpected character '@' after expression");
}

#[test]
fn trailing_whitespace_after_expression_is_rejected() {
    assert_eq!(parse_err("(a) "), "Unexpected character ' ' after expression");
}

#[test]
fn trailing_newline_after_expression_is_rejected() {
    assert_eq!(parse_err("a\n"), "Unexpected character '\\n' after expression");
}

#[test]
fn trailing_open_paren_after_identifier() {
    assert_eq!(parse_err("x("), "Unexpected character '(' after expression");
}

#[test]
fn leading_whitespace_is_skipped() {
    assert_eq!(parse_ok("  \t(a b)"), Expr::List(vec![ident("a"), ident("b")]));
}

#[test]
fn extra_whitespace_between_tokens_changes_nothing() {
    let plain = parse_ok("(a (b c) \"d\")");
    let padded = parse_ok(" \t (  a\n ( b\t\tc )   \"d\"\r\n)");
    assert_eq!(plain, padded);
}

#[test]
fn adjacent_tokens_need_no_whitespace() {
    assert_eq!(
        parse_ok("(a\"b\"(c)d)"),
        Expr::List(vec![ident("a"), strlit("b"), Expr::List(vec![ident("c")]), ident("d")])
    );
}

#[test]
fn canonical_rendering_round_trips() {
    // The canonical rendering puts one space before each list element.
    assert_eq!(parse_ok("( a)"), Expr::List(vec![ident("a")]));
    assert_eq!(
        parse_ok("( a ( b) \"x\")"),
        Expr::List(vec![ident("a"), Expr::List(vec![ident("b")]), strlit("x")])
    );
}

#[test]
fn unterminated_list_position_counts_lines() {
    assert_eq!(parse_err("(a\nb"), "ERROR: Unterminated list on line 2 column 2");
}

#[test]
fn unterminated_string_position_counts_lines() {
    assert_eq!(
        parse_err("(\n\n  \"x"),
        "ERROR: Unterminated string literal on line 3 column 5"
    );
}

#[test]
fn multi_digit_positions_are_rendered_in_decimal() {
    // Ten newlines, then an unterminated list: line 11, column 13.
    let code = "\n\n\n\n\n\n\n\n\n\n(abcdefghijk";
    assert_eq!(parse_err(code), "ERROR: Unterminated list on line 11 column 13");
}

#[test]
fn carriage_return_does_not_advance_the_line() {
    assert_eq!(parse_err("(a\rb"), "ERROR: Unterminated list on line 1 column 5");
}
