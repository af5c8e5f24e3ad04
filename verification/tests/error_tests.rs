use cparser::token::{Keyword, TokNLoc, Token};
use cparser::{parse, try_parse, ParseError};

fn located(tokens: Vec<Token>) -> Vec<TokNLoc> {
    tokens
        .into_iter()
        .enumerate()
        .map(|(i, token)| TokNLoc { token, location: i })
        .collect()
}

fn ident(s: &str) -> Token {
    Token::Identifier(s.to_string())
}

fn kw(k: Keyword) -> Token {
    Token::Keyword(k)
}

fn in_main(body: Vec<Token>) -> Vec<Token> {
    let mut t = vec![kw(Keyword::Int), ident("main"), Token::Lparen, Token::Rparen, Token::Lbrace];
    t.extend(body);
    t.push(Token::Rbrace);
    t
}

fn error_of(tokens: Vec<Token>) -> ParseError {
    match parse(&located(tokens)) {
        Err(e) => e,
        Ok(p) => panic!("expected an error, got {:?}", p),
    }
}

#[test]
fn missing_return_type() {
    let e = error_of(vec![ident("main")]);
    assert_eq!((e.cursor, e.message.as_str()), (0, "Invalid function declarator. Expected return type, got 'main'."));
}

#[test]
fn missing_open_paren_in_declarator() {
    let e = error_of(vec![kw(Keyword::Int), ident("f"), Token::Lbrace]);
    assert_eq!((e.cursor, e.message.as_str()), (2, "Invalid function declarator. Expected '(', got '{'."));
}

#[test]
fn bad_parameter_name() {
    let e = error_of(vec![kw(Keyword::Int), ident("f"), Token::Lparen, kw(Keyword::Int), Token::IntLiteral(4)]);
    assert_eq!((e.cursor, e.message.as_str()), (4, "Invalid function declarator. Expected identifier, got '4'."));
}

#[test]
fn missing_type_after_comma() {
    let e = error_of(vec![
        kw(Keyword::Int),
        ident("f"),
        Token::Lparen,
        kw(Keyword::Int),
        ident("a"),
        Token::Comma,
        ident("b"),
    ]);
    assert_eq!((e.cursor, e.message.as_str()), (6, "Invalid function declarator. Expected type after comma, got 'b'."));
}

#[test]
fn bad_name_after_type_in_parameter_list() {
    let e = error_of(vec![
        kw(Keyword::Int),
        ident("f"),
        Token::Lparen,
        kw(Keyword::Int),
        ident("a"),
        Token::Comma,
        kw(Keyword::Int),
        Token::Semicolon,
    ]);
    assert_eq!(
        (e.cursor, e.message.as_str()),
        (7, "Invalid function parameter list. Expected identifier after type, got ';'.")
    );
}

#[test]
fn missing_close_paren_in_declarator() {
    let e = error_of(vec![kw(Keyword::Int), ident("f"), Token::Lparen, Token::Semicolon]);
    assert_eq!((e.cursor, e.message.as_str()), (3, "Invalid function declarator. Expected ')', got ';'."));
}

#[test]
fn declaration_without_name() {
    let e = error_of(in_main(vec![kw(Keyword::Int), Token::Semicolon]));
    assert_eq!((e.cursor, e.message.as_str()), (6, "Invalid declaration. Expected an identifier, got ';'."));
}

#[test]
fn declaration_without_semicolon() {
    let e = error_of(in_main(vec![kw(Keyword::Int), ident("x"), Token::IntLiteral(1)]));
    assert_eq!((e.cursor, e.message.as_str()), (7, "Invalid declaration. Expected a final semicolon, got '1'."));
}

#[test]
fn conditional_without_colon() {
    let e = error_of(in_main(vec![ident("a"), Token::QuestionMark, ident("b"), Token::Semicolon]));
    assert_eq!((e.cursor, e.message.as_str()), (8, "Invalid conditional statement. Expected ':', got ';'."));
}

#[test]
fn if_without_paren() {
    let e = error_of(in_main(vec![kw(Keyword::If), ident("a")]));
    assert_eq!((e.cursor, e.message.as_str()), (6, "Invalid if statement. Expected '(', got 'a'."));
}

#[test]
fn while_without_close_paren() {
    let e = error_of(in_main(vec![kw(Keyword::While), Token::Lparen, ident("a"), Token::Semicolon]));
    assert_eq!(
        (e.cursor, e.message.as_str()),
        (8, "Invalid while statement. Expected ')' after condition expression, got ';'.")
    );
}

#[test]
fn do_without_while() {
    let e = error_of(in_main(vec![kw(Keyword::Do), Token::Semicolon, kw(Keyword::For)]));
    assert_eq!((e.cursor, e.message.as_str()), (7, "Invalid do-while statement. Expected 'while', got 'for'."));
}

#[test]
fn for_without_paren() {
    let e = error_of(in_main(vec![kw(Keyword::For), Token::Semicolon]));
    assert_eq!((e.cursor, e.message.as_str()), (6, "Invalid For/ForDecl statement. Expected '(', got ';'."));
}

#[test]
fn for_condition_without_semicolon() {
    let e = error_of(in_main(vec![
        kw(Keyword::For),
        Token::Lparen,
        Token::Semicolon,
        ident("a"),
        Token::Rparen,
    ]));
    assert_eq!(
        (e.cursor, e.message.as_str()),
        (9, "Invalid condition expression for ForDecl statement. Expected a final semicolon, got ')'.")
    );
}

#[test]
fn break_without_semicolon() {
    let e = error_of(in_main(vec![kw(Keyword::Break), Token::Rbrace]));
    assert_eq!((e.cursor, e.message.as_str()), (6, "Invalid break statement. Expected a final semicolon, got '}'."));
}

#[test]
fn call_without_close_paren() {
    let e = error_of(in_main(vec![ident("f"), Token::Lparen, Token::IntLiteral(1), Token::Semicolon]));
    assert_eq!(
        (e.cursor, e.message.as_str()),
        (8, "Missing closing parenthesis function arguments, got ';'.")
    );
}

#[test]
fn decrement_needs_a_variable() {
    let e = error_of(in_main(vec![Token::Decrement, ident("f"), Token::Lparen, Token::Rparen, Token::Semicolon]));
    assert_eq!(
        (e.cursor, e.message.as_str()),
        (6, "Invalid prefix expression. Expected variable identifier after prefix increment/decrement")
    );
}

#[test]
fn decrement_of_parenthesized_variable() {
    let toks = located(in_main(vec![Token::Decrement, Token::Lparen, ident("x"), Token::Rparen, Token::Semicolon]));
    assert_eq!(
        format!("{:?}", parse(&toks)),
        "Ok(Prog([Definition(\"main\", [], [Stmt(Expr(PrefixOp(Dec, \"x\")))])]))"
    );
}

#[test]
fn if_without_else_at_end_of_tokens_is_incomplete() {
    let toks = located(vec![
        kw(Keyword::Int),
        ident("main"),
        Token::Lparen,
        Token::Rparen,
        Token::Lbrace,
        kw(Keyword::If),
        Token::Lparen,
        ident("a"),
        Token::Rparen,
        Token::Semicolon,
    ]);
    assert!(try_parse(&toks).is_none());
}
