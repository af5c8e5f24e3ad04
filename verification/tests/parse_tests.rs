use cparser::ast::{BlockItem, Expression, Function, Program, Statement};
use cparser::token::{Keyword, TokNLoc, Token};
use cparser::{mkperr, parse, try_parse, ParseError};

fn located(tokens: Vec<Token>) -> Vec<TokNLoc> {
    tokens
        .into_iter()
        .enumerate()
        .map(|(i, token)| TokNLoc { token, location: 10 * i })
        .collect()
}

fn ident(s: &str) -> Token {
    Token::Identifier(s.to_string())
}

fn int_kw() -> Token {
    Token::Keyword(Keyword::Int)
}

/// `int main() { <body> }`
fn main_with(body: Vec<Token>) -> Vec<Token> {
    let mut t = vec![int_kw(), ident("main"), Token::Lparen, Token::Rparen, Token::Lbrace];
    t.extend(body);
    t.push(Token::Rbrace);
    t
}

fn debug_of(p: &Result<Program, ParseError>) -> String {
    format!("{:?}", p)
}

fn expect_error(tokens: Vec<Token>) -> ParseError {
    match parse(&located(tokens)) {
        Err(e) => e,
        Ok(p) => panic!("expected an error, got {:?}", p),
    }
}

#[test]
fn empty_token_list_is_empty_program() {
    let r = parse(&[]);
    assert_eq!(debug_of(&r), "Ok(Prog([]))");
}

#[test]
fn return_constant() {
    let toks = main_with(vec![Token::Keyword(Keyword::Return), Token::IntLiteral(2), Token::Semicolon]);
    let r = parse(&located(toks));
    assert_eq!(
        debug_of(&r),
        "Ok(Prog([Definition(\"main\", [], [Stmt(Return(Constant(2)))])]))"
    );
}

#[test]
fn multiplication_binds_tighter_than_addition() {
    let toks = main_with(vec![
        Token::Keyword(Keyword::Return),
        Token::IntLiteral(1),
        Token::Plus,
        Token::IntLiteral(2),
        Token::Multiplication,
        Token::IntLiteral(3),
        Token::Semicolon,
    ]);
    let r = parse(&located(toks));
    assert_eq!(
        debug_of(&r),
        "Ok(Prog([Definition(\"main\", [], [Stmt(Return(BinaryOp(Addition, Constant(1), BinaryOp(Multiplication, Constant(2), Constant(3)))))])]))"
    );
}

#[test]
fn subtraction_groups_from_the_left() {
    let toks = main_with(vec![
        Token::Keyword(Keyword::Return),
        ident("a"),
        Token::Minus,
        ident("b"),
        Token::Minus,
        ident("c"),
        Token::Semicolon,
    ]);
    let r = parse(&located(toks));
    assert_eq!(
        debug_of(&r),
        "Ok(Prog([Definition(\"main\", [], [Stmt(Return(BinaryOp(Subtraction, BinaryOp(Subtraction, Variable(\"a\"), Variable(\"b\")), Variable(\"c\"))))])]))"
    );
}

#[test]
fn assignment_groups_from_the_right() {
    let toks = main_with(vec![
        ident("a"),
        Token::Assignment,
        ident("b"),
        Token::AdditionAssignment,
        Token::IntLiteral(4),
        Token::Semicolon,
    ]);
    let r = parse(&located(toks));
    assert_eq!(
        debug_of(&r),
        "Ok(Prog([Definition(\"main\", [], [Stmt(Expr(Assign(Write, \"a\", Assign(Add, \"b\", Constant(4)))))])]))"
    );
}

#[test]
fn else_binds_to_nearest_if() {
    let toks = main_with(vec![
        Token::Keyword(Keyword::If),
        Token::Lparen,
        ident("a"),
        Token::Rparen,
        Token::Keyword(Keyword::If),
        Token::Lparen,
        ident("b"),
        Token::Rparen,
        Token::Keyword(Keyword::Return),
        Token::IntLiteral(1),
        Token::Semicolon,
        Token::Keyword(Keyword::Else),
        Token::Keyword(Keyword::Return),
        Token::IntLiteral(2),
        Token::Semicolon,
    ]);
    let r = parse(&located(toks));
    match r {
        Ok(Program::Prog(fs)) => match &fs[0] {
            Function::Definition(_, _, body) => match &body[0] {
                BlockItem::Stmt(Statement::If(_, inner, None)) => {
                    assert!(matches!(**inner, Statement::If(_, _, Some(_))));
                }
                other => panic!("unexpected {:?}", other),
            },
            other => panic!("unexpected {:?}", other),
        },
        other => panic!("unexpected {:?}", other),
    }
}

#[test]
fn conditional_and_calls() {
    let toks = main_with(vec![
        Token::Keyword(Keyword::Return),
        ident("c"),
        Token::QuestionMark,
        ident("f"),
        Token::Lparen,
        Token::IntLiteral(1),
        Token::Comma,
        ident("x"),
        Token::Increment,
        Token::Rparen,
        Token::Colon,
        ident("g"),
        Token::Lparen,
        Token::Rparen,
        Token::Semicolon,
    ]);
    let r = parse(&located(toks));
    assert_eq!(
        debug_of(&r),
        "Ok(Prog([Definition(\"main\", [], [Stmt(Return(Conditional(Variable(\"c\"), FunctionCall(\"f\", [Constant(1), PostfixOp(Inc, \"x\")]), FunctionCall(\"g\", []))))])]))"
    );
}

#[test]
fn unary_and_prefix_operators() {
    let toks = main_with(vec![
        Token::Keyword(Keyword::Return),
        Token::Minus,
        Token::Not,
        Token::Complement,
        Token::Increment,
        ident("x"),
        Token::Semicolon,
    ]);
    let r = parse(&located(toks));
    assert_eq!(
        debug_of(&r),
        "Ok(Prog([Definition(\"main\", [], [Stmt(Return(UnaryOp(Negate, UnaryOp(Not, UnaryOp(Complement, PrefixOp(Inc, \"x\"))))))])]))"
    );
}

#[test]
fn declarations_and_parameters() {
    let toks = vec![
        int_kw(),
        ident("f"),
        Token::Lparen,
        int_kw(),
        ident("a"),
        Token::Comma,
        int_kw(),
        ident("b"),
        Token::Rparen,
        Token::Semicolon,
        int_kw(),
        ident("g"),
        Token::Lparen,
        Token::Rparen,
        Token::Lbrace,
        int_kw(),
        ident("x"),
        Token::Semicolon,
        int_kw(),
        ident("y"),
        Token::Assignment,
        Token::IntLiteral(7),
        Token::Semicolon,
        Token::Semicolon,
        Token::Rbrace,
    ];
    let r = parse(&located(toks));
    assert_eq!(
        debug_of(&r),
        "Ok(Prog([Declaration(\"f\", [\"a\", \"b\"]), Definition(\"g\", [], [Decl(Declaration { id: \"x\", init: None }), Decl(Declaration { id: \"y\", init: Some(Constant(7)) }), Stmt(Null)])]))"
    );
}

#[test]
fn loops() {
    let toks = main_with(vec![
        Token::Keyword(Keyword::For),
        Token::Lparen,
        int_kw(),
        ident("i"),
        Token::Assignment,
        Token::IntLiteral(0),
        Token::Semicolon,
        Token::Semicolon,
        Token::Rparen,
        Token::Keyword(Keyword::Break),
        Token::Semicolon,
        Token::Keyword(Keyword::For),
        Token::Lparen,
        Token::Semicolon,
        ident("i"),
        Token::Less,
        Token::IntLiteral(3),
        Token::Semicolon,
        ident("i"),
        Token::Increment,
        Token::Rparen,
        Token::Keyword(Keyword::Continue),
        Token::Semicolon,
        Token::Keyword(Keyword::While),
        Token::Lparen,
        ident("i"),
        Token::Rparen,
        Token::Semicolon,
        Token::Keyword(Keyword::Do),
        Token::Lbrace,
        Token::Rbrace,
        Token::Keyword(Keyword::While),
        Token::Lparen,
        Token::IntLiteral(0),
        Token::Rparen,
        Token::Semicolon,
    ]);
    let r = parse(&located(toks));
    assert_eq!(
        debug_of(&r),
        "Ok(Prog([Definition(\"main\", [], [Stmt(ForDecl(Declaration { id: \"i\", init: Some(Constant(0)) }, Constant(1), None, Break)), Stmt(For(None, BinaryOp(Less, Variable(\"i\"), Constant(3)), Some(PostfixOp(Inc, \"i\")), Continue)), Stmt(While(Variable(\"i\"), Null)), Stmt(DoWhile(Compound([]), Constant(0)))])]))"
    );
}

#[test]
fn error_names_the_unexpected_token() {
    let e = expect_error(vec![int_kw(), Token::IntLiteral(5)]);
    assert_eq!(e.cursor, 10);
    assert_eq!(
        e.message,
        "Invalid function declarator. Expected identifier for function name, got '5'."
    );
    assert_eq!(
        e.to_text(),
        "ParseError 10: Invalid function declarator. Expected identifier for function name, got '5'."
    );
}

#[test]
fn missing_semicolon_error() {
    let toks = main_with(vec![Token::Keyword(Keyword::Return), Token::IntLiteral(1), Token::Rparen]);
    let e = expect_error(toks);
    assert_eq!(e.cursor, 70);
    assert_eq!(e.message, "Invalid return statement. Expected a final semicolon, got ')'.");
}

#[test]
fn prefix_increment_needs_a_variable() {
    let toks = main_with(vec![Token::Increment, Token::IntLiteral(3), Token::Semicolon]);
    let e = expect_error(toks);
    assert_eq!(e.cursor, 60);
    assert_eq!(
        e.message,
        "Invalid prefix expression. Expected variable identifier after prefix increment/decrement"
    );
}

#[test]
fn bad_postfix_expression() {
    let toks = main_with(vec![Token::Keyword(Keyword::Return), Token::Rbrace]);
    let e = expect_error(toks);
    assert_eq!(e.cursor, 60);
    assert_eq!(
        e.message,
        "Invalid postfix expression. Expected int literal, (expr), or identifier possibly with postfix operator, got '}'."
    );
}

#[test]
fn compound_statement_message_keeps_braces() {
    let toks = vec![int_kw(), ident("f"), Token::Lparen, Token::Rparen, Token::Keyword(Keyword::Return)];
    let e = expect_error(toks);
    assert_eq!(e.cursor, 40);
    assert_eq!(e.message, "Invalid compound statement. Expected '{{', got 'return'.");
}

#[test]
fn truncated_input_is_detected() {
    let toks = located(vec![int_kw(), ident("main"), Token::Lparen]);
    assert!(try_parse(&toks).is_none());
    let toks = located(vec![int_kw(), ident("main"), Token::Lparen, Token::Rparen, Token::Semicolon]);
    assert!(matches!(try_parse(&toks), Some(Ok(_))));
}

#[test]
fn token_texts() {
    assert_eq!(Token::IntLiteral(0).to_text(), "0");
    assert_eq!(Token::IntLiteral(1234567890).to_text(), "1234567890");
    assert_eq!(Token::LeftShiftAssignment.to_text(), "<<=");
    assert_eq!(ident("abc").to_text(), "abc");
    assert_eq!(Token::Keyword(Keyword::Continue).to_text(), "continue");
}

#[test]
fn mkperr_formats_message() {
    let e = mkperr(TokNLoc { token: Token::Semicolon, location: 42 }, "Bad");
    assert_eq!(e.cursor, 42);
    assert_eq!(e.message, "Bad, got ';'.");
    let e2 = ParseError::new(3, "m".to_string());
    assert_eq!(e2.to_text(), "ParseError 3: m");
}

#[test]
fn expression_kinds() {
    let toks = main_with(vec![ident("x"), Token::Semicolon]);
    let r = parse(&located(toks));
    match r {
        Ok(Program::Prog(fs)) => match &fs[0] {
            Function::Definition(_, _, body) => {
                assert!(matches!(&body[0], BlockItem::Stmt(Statement::Expr(Expression::Variable(v))) if v == "x"));
            }
            _ => panic!(),
        },
        _ => panic!(),
    }
}
