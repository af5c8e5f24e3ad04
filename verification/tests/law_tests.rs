use cparser::parse;
use cparser::token::{Keyword, TokNLoc, Token};

fn located_from(tokens: Vec<Token>, start: usize) -> Vec<TokNLoc> {
    tokens
        .into_iter()
        .enumerate()
        .map(|(i, token)| TokNLoc { token, location: start + 3 * i })
        .collect()
}

fn ident(s: &str) -> Token {
    Token::Identifier(s.to_string())
}

fn int_kw() -> Token {
    Token::Keyword(Keyword::Int)
}

/// `int f(int a, int b) { return ((a + b) * (- b)); }`
fn program_one() -> Vec<Token> {
    vec![
        int_kw(),
        ident("f"),
        Token::Lparen,
        int_kw(),
        ident("a"),
        Token::Comma,
        int_kw(),
        ident("b"),
        Token::Rparen,
        Token::Lbrace,
        Token::Keyword(Keyword::Return),
        Token::Lparen,
        Token::Lparen,
        ident("a"),
        Token::Plus,
        ident("b"),
        Token::Rparen,
        Token::Multiplication,
        Token::Lparen,
        Token::Minus,
        ident("b"),
        Token::Rparen,
        Token::Rparen,
        Token::Semicolon,
        Token::Rbrace,
    ]
}

/// `int g();`
fn program_two() -> Vec<Token> {
    vec![int_kw(), ident("g"), Token::Lparen, Token::Rparen, Token::Semicolon]
}

#[test]
fn concatenated_programs_parse_to_concatenated_functions() {
    let one = format!("{:?}", parse(&located_from(program_one(), 0)));
    let two = format!("{:?}", parse(&located_from(program_two(), 0)));
    let mut both_tokens = program_one();
    both_tokens.extend(program_two());
    let both = format!("{:?}", parse(&located_from(both_tokens, 0)));
    let one_fns = one.strip_prefix("Ok(Prog([").unwrap().strip_suffix("]))").unwrap();
    let two_fns = two.strip_prefix("Ok(Prog([").unwrap().strip_suffix("]))").unwrap();
    assert_eq!(both, format!("Ok(Prog([{}, {}]))", one_fns, two_fns));
}

#[test]
fn each_function_piece_parses_alone() {
    let alone = |toks: Vec<Token>| {
        let text = format!("{:?}", parse(&located_from(toks, 0)));
        text.strip_prefix("Ok(Prog([")
            .unwrap()
            .strip_suffix("]))")
            .unwrap()
            .to_string()
    };
    let mut all = program_two();
    all.extend(program_one());
    all.extend(program_two());
    let whole = format!("{:?}", parse(&located_from(all, 0)));
    assert_eq!(
        whole,
        format!(
            "Ok(Prog([{}, {}, {}]))",
            alone(program_two()),
            alone(program_one()),
            alone(program_two())
        )
    );
}

#[test]
fn error_is_kept_whatever_follows() {
    let bad = vec![int_kw(), Token::Semicolon];
    let e1 = parse(&located_from(bad.clone(), 0)).unwrap_err();
    let mut more = bad;
    more.extend(program_one());
    let e2 = parse(&located_from(more, 0)).unwrap_err();
    assert_eq!(e1.cursor, e2.cursor);
    assert_eq!(e1.message, e2.message);
    assert_eq!(e1.message, "Invalid function declarator. Expected identifier for function name, got ';'.");
}

#[test]
fn parsed_program_then_failing_tokens_gives_their_error() {
    let bad = vec![int_kw(), ident("h"), Token::Lparen, Token::Semicolon];
    let alone = parse(&located_from(bad.clone(), 0)).unwrap_err();
    let mut both_tokens = program_one();
    let shift = both_tokens.len();
    both_tokens.extend(bad);
    let both = parse(&located_from(both_tokens, 0)).unwrap_err();
    assert_eq!(both.cursor, alone.cursor + 3 * shift);
    assert_eq!(both.message, alone.message);
}

#[test]
fn error_cursor_is_a_token_location() {
    let mut toks = program_one();
    toks[14] = Token::Colon; // `(a : b)` inside the return expression
    let located = located_from(toks, 100);
    let e = parse(&located).unwrap_err();
    assert!(located.iter().any(|t| t.location == e.cursor));
    assert_eq!(e.cursor, 100 + 3 * 14);
    assert_eq!(e.message, "Missing closing parenthesis after expression, got ':'.");
}

#[test]
fn printed_program_parses_back() {
    let r = parse(&located_from(program_one(), 7));
    assert_eq!(
        format!("{:?}", r),
        "Ok(Prog([Definition(\"f\", [\"a\", \"b\"], [Stmt(Return(BinaryOp(Multiplication, BinaryOp(Addition, Variable(\"a\"), Variable(\"b\")), UnaryOp(Negate, Variable(\"b\")))))])]))"
    );
}

#[test]
fn printed_conditional_and_assignment_parse_back() {
    // int h() { x = (c ? (y += 1) : f(1, (2 - 3))); }
    let toks = vec![
        int_kw(),
        ident("h"),
        Token::Lparen,
        Token::Rparen,
        Token::Lbrace,
        Token::Lparen,
        ident("x"),
        Token::Assignment,
        Token::Lparen,
        ident("c"),
        Token::QuestionMark,
        Token::Lparen,
        ident("y"),
        Token::AdditionAssignment,
        Token::IntLiteral(1),
        Token::Rparen,
        Token::Colon,
        ident("f"),
        Token::Lparen,
        Token::IntLiteral(1),
        Token::Comma,
        Token::Lparen,
        Token::IntLiteral(2),
        Token::Minus,
        Token::IntLiteral(3),
        Token::Rparen,
        Token::Rparen,
        Token::Rparen,
        Token::Rparen,
        Token::Semicolon,
        Token::Rbrace,
    ];
    let r = parse(&located_from(toks, 0));
    assert_eq!(
        format!("{:?}", r),
        "Ok(Prog([Definition(\"h\", [], [Stmt(Expr(Assign(Write, \"x\", Conditional(Variable(\"c\"), Assign(Add, \"y\", Constant(1)), FunctionCall(\"f\", [Constant(1), BinaryOp(Subtraction, Constant(2), Constant(3))])))))])]))"
    );
}

#[test]
fn dangling_else_is_where_the_printed_law_does_not_hold() {
    // If(a, If(b, x;, None), Some(y;)) prints as `if (a) if (b) x; else y;`,
    // which parses with the `else` on the inner `if`.
    let toks = vec![
        int_kw(),
        ident("m"),
        Token::Lparen,
        Token::Rparen,
        Token::Lbrace,
        Token::Keyword(Keyword::If),
        Token::Lparen,
        ident("a"),
        Token::Rparen,
        Token::Keyword(Keyword::If),
        Token::Lparen,
        ident("b"),
        Token::Rparen,
        ident("x"),
        Token::Semicolon,
        Token::Keyword(Keyword::Else),
        ident("y"),
        Token::Semicolon,
        Token::Rbrace,
    ];
    let r = parse(&located_from(toks, 0));
    assert_eq!(
        format!("{:?}", r),
        "Ok(Prog([Definition(\"m\", [], [Stmt(If(Variable(\"a\"), If(Variable(\"b\"), Expr(Variable(\"x\")), Some(Expr(Variable(\"y\")))), None))])]))"
    );
}

#[test]
fn each_statement_takes_its_tokens() {
    let mut toks = vec![int_kw(), ident("k"), Token::Lparen, Token::Rparen, Token::Lbrace];
    for _ in 0..5 {
        toks.push(Token::Semicolon);
    }
    toks.push(Token::Rbrace);
    let r = parse(&located_from(toks, 0));
    assert_eq!(
        format!("{:?}", r),
        "Ok(Prog([Definition(\"k\", [], [Stmt(Null), Stmt(Null), Stmt(Null), Stmt(Null), Stmt(Null)])]))"
    );
}
