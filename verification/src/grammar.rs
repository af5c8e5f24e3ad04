use vstd::prelude::*;
use crate::ast::{
    AssignmentKind, BinaryOp, FixOp, UnaryOp, SpecExpression, SpecDeclaration, SpecStatement,
    SpecBlockItem, SpecFunction,
};
use crate::error::{ErrorView, error_at};
use crate::token::{Keyword, Token, TokNLoc};

verus! {

// ------------------------------------------------------------------
// The grammar, as a function from the tokens still to read to an outcome
//
// Each phrase is parsed from the front of the tokens still to read. Where the
// definitions below go on from what a sub-phrase left, they first compare its
// length with that of their own input: that makes the recursion well-founded.
// Every phrase that is parsed takes at least one token, so the comparison
// always holds (`laws::law_phrases_take_tokens`); the parser, which makes no
// such comparison, is verified against these definitions on every input.
// ------------------------------------------------------------------

/// What parsing a phrase from the front of a token sequence gives:
/// the phrase and the tokens after it; an error and the tokens left after
/// the token that was read when it was found; or the end of the tokens
/// reached where a token was needed.
pub enum Outcome<T> {
    Parsed(T, Seq<TokNLoc>),
    Failed(ErrorView, Seq<TokNLoc>),
    Exhausted,
}

impl<T> Outcome<T> {
    /// The same failure, for a phrase of another type (used where `self` did not parse).
    pub open spec fn failure<U>(self) -> Outcome<U> {
        match self {
            Outcome::Failed(e, r) => Outcome::Failed(e, r),
            _ => Outcome::Exhausted,
        }
    }
}

/// Whether `t` is a token of the same kind as `e`: the same keyword, or
/// otherwise the same variant (whatever name or value it carries).
pub open spec fn same_kind(t: Token, e: Token) -> bool {
    match e {
        Token::Keyword(k) => t matches Token::Keyword(k2) && k2 == k,
        Token::Identifier(_) => t is Identifier,
        Token::IntLiteral(_) => t is IntLiteral,
        Token::Lbrace => t is Lbrace,
        Token::Rbrace => t is Rbrace,
        Token::Lparen => t is Lparen,
        Token::Rparen => t is Rparen,
        Token::Semicolon => t is Semicolon,
        Token::Comma => t is Comma,
        Token::Colon => t is Colon,
        Token::QuestionMark => t is QuestionMark,
        Token::Minus => t is Minus,
        Token::Plus => t is Plus,
        Token::Not => t is Not,
        Token::Complement => t is Complement,
        Token::Increment => t is Increment,
        Token::Decrement => t is Decrement,
        Token::Multiplication => t is Multiplication,
        Token::Division => t is Division,
        Token::Remainder => t is Remainder,
        Token::LeftShift => t is LeftShift,
        Token::RightShift => t is RightShift,
        Token::Less => t is Less,
        Token::Greater => t is Greater,
        Token::LessEqual => t is LessEqual,
        Token::GreaterEqual => t is GreaterEqual,
        Token::Equal => t is Equal,
        Token::NotEqual => t is NotEqual,
        Token::BitwiseAnd => t is BitwiseAnd,
        Token::BitwiseXor => t is BitwiseXor,
        Token::BitwiseOr => t is BitwiseOr,
        Token::LogicalAnd => t is LogicalAnd,
        Token::LogicalOr => t is LogicalOr,
        Token::Assignment => t is Assignment,
        Token::AdditionAssignment => t is AdditionAssignment,
        Token::SubtractionAssignment => t is SubtractionAssignment,
        Token::MultiplicationAssignment => t is MultiplicationAssignment,
        Token::DivisionAssignment => t is DivisionAssignment,
        Token::RemainderAssignment => t is RemainderAssignment,
        Token::BitwiseXorAssignment => t is BitwiseXorAssignment,
        Token::BitwiseOrAssignment => t is BitwiseOrAssignment,
        Token::BitwiseAndAssignment => t is BitwiseAndAssignment,
        Token::LeftShiftAssignment => t is LeftShiftAssignment,
        Token::RightShiftAssignment => t is RightShiftAssignment,
    }
}

/// Decides `same_kind`.
pub fn is_same_kind(t: &Token, e: &Token) -> (b: bool)
    ensures
        b == same_kind(*t, *e),
{
    match e {
        Token::Keyword(k) => match t {
            Token::Keyword(k2) => *k2 == *k,
            _ => false,
        },
        Token::Identifier(_) => matches!(t, Token::Identifier(_)),
        Token::IntLiteral(_) => matches!(t, Token::IntLiteral(_)),
        Token::Lbrace => matches!(t, Token::Lbrace),
        Token::Rbrace => matches!(t, Token::Rbrace),
        Token::Lparen => matches!(t, Token::Lparen),
        Token::Rparen => matches!(t, Token::Rparen),
        Token::Semicolon => matches!(t, Token::Semicolon),
        Token::Comma => matches!(t, Token::Comma),
        Token::Colon => matches!(t, Token::Colon),
        Token::QuestionMark => matches!(t, Token::QuestionMark),
        Token::Minus => matches!(t, Token::Minus),
        Token::Plus => matches!(t, Token::Plus),
        Token::Not => matches!(t, Token::Not),
        Token::Complement => matches!(t, Token::Complement),
        Token::Increment => matches!(t, Token::Increment),
        Token::Decrement => matches!(t, Token::Decrement),
        Token::Multiplication => matches!(t, Token::Multiplication),
        Token::Division => matches!(t, Token::Division),
        Token::Remainder => matches!(t, Token::Remainder),
        Token::LeftShift => matches!(t, Token::LeftShift),
        Token::RightShift => matches!(t, Token::RightShift),
        Token::Less => matches!(t, Token::Less),
        Token::Greater => matches!(t, Token::Greater),
        Token::LessEqual => matches!(t, Token::LessEqual),
        Token::GreaterEqual => matches!(t, Token::GreaterEqual),
        Token::Equal => matches!(t, Token::Equal),
        Token::NotEqual => matches!(t, Token::NotEqual),
        Token::BitwiseAnd => matches!(t, Token::BitwiseAnd),
        Token::BitwiseXor => matches!(t, Token::BitwiseXor),
        Token::BitwiseOr => matches!(t, Token::BitwiseOr),
        Token::LogicalAnd => matches!(t, Token::LogicalAnd),
        Token::LogicalOr => matches!(t, Token::LogicalOr),
        Token::Assignment => matches!(t, Token::Assignment),
        Token::AdditionAssignment => matches!(t, Token::AdditionAssignment),
        Token::SubtractionAssignment => matches!(t, Token::SubtractionAssignment),
        Token::MultiplicationAssignment => matches!(t, Token::MultiplicationAssignment),
        Token::DivisionAssignment => matches!(t, Token::DivisionAssignment),
        Token::RemainderAssignment => matches!(t, Token::RemainderAssignment),
        Token::BitwiseXorAssignment => matches!(t, Token::BitwiseXorAssignment),
        Token::BitwiseOrAssignment => matches!(t, Token::BitwiseOrAssignment),
        Token::BitwiseAndAssignment => matches!(t, Token::BitwiseAndAssignment),
        Token::LeftShiftAssignment => matches!(t, Token::LeftShiftAssignment),
        Token::RightShiftAssignment => matches!(t, Token::RightShiftAssignment),
    }
}

/// The `n`-th token (counting from 1) of `s`, if there is one.
pub open spec fn peek_at(s: Seq<TokNLoc>, n: nat) -> Option<TokNLoc> {
    if 1 <= n <= s.len() {
        Some(s[n - 1])
    } else {
        None
    }
}

/// Reads one token of the kind of `e`; any other token is an error with message `msg`.
pub open spec fn expect(s: Seq<TokNLoc>, e: Token, msg: Seq<char>) -> Outcome<()> {
    if s.len() == 0 {
        Outcome::Exhausted
    } else if same_kind(s[0].token, e) {
        Outcome::Parsed((), s.drop_first())
    } else {
        Outcome::Failed(error_at(s[0], msg), s.drop_first())
    }
}

/// Reads the semicolon that ends a construct described by `msg`.
pub open spec fn expect_semicolon(s: Seq<TokNLoc>, msg: Seq<char>) -> Outcome<()> {
    expect(s, Token::Semicolon, msg + ". Expected a final semicolon"@)
}

/// The precedence levels of binary operators, from the tightest binding.
#[derive(Clone, Copy, Debug, PartialEq, Eq, Structural)]
pub enum Level {
    Multiplicative,
    Additive,
    Shift,
    Relational,
    Equality,
    BitwiseAnd,
    BitwiseXor,
    BitwiseOr,
    LogicalAnd,
    LogicalOr,
}

/// The place of a level in the order of precedence, from 0 (tightest).
pub open spec fn level_index(l: Level) -> nat {
    match l {
        Level::Multiplicative => 0,
        Level::Additive => 1,
        Level::Shift => 2,
        Level::Relational => 3,
        Level::Equality => 4,
        Level::BitwiseAnd => 5,
        Level::BitwiseXor => 6,
        Level::BitwiseOr => 7,
        Level::LogicalAnd => 8,
        Level::LogicalOr => 9,
    }
}

/// The level just below `l` (binding tighter); the multiplicative level has none
/// and maps to itself.
pub open spec fn lower(l: Level) -> Level {
    match l {
        Level::Multiplicative => Level::Multiplicative,
        Level::Additive => Level::Multiplicative,
        Level::Shift => Level::Additive,
        Level::Relational => Level::Shift,
        Level::Equality => Level::Relational,
        Level::BitwiseAnd => Level::Equality,
        Level::BitwiseXor => Level::BitwiseAnd,
        Level::BitwiseOr => Level::BitwiseXor,
        Level::LogicalAnd => Level::BitwiseOr,
        Level::LogicalOr => Level::LogicalAnd,
    }
}

/// The binary operator that token `t` stands for at level `l`, if any.
pub open spec fn binary_op_of(l: Level, t: Token) -> Option<BinaryOp> {
    match l {
        Level::Multiplicative => match t {
            Token::Multiplication => Some(BinaryOp::Multiplication),
            Token::Division => Some(BinaryOp::Division),
            Token::Remainder => Some(BinaryOp::Remainder),
            _ => None,
        },
        Level::Additive => match t {
            Token::Minus => Some(BinaryOp::Subtraction),
            Token::Plus => Some(BinaryOp::Addition),
            _ => None,
        },
        Level::Shift => match t {
            Token::LeftShift => Some(BinaryOp::LeftShift),
            Token::RightShift => Some(BinaryOp::RightShift),
            _ => None,
        },
        Level::Relational => match t {
            Token::Greater => Some(BinaryOp::Greater),
            Token::Less => Some(BinaryOp::Less),
            Token::GreaterEqual => Some(BinaryOp::GreaterEqual),
            Token::LessEqual => Some(BinaryOp::LessEqual),
            _ => None,
        },
        Level::Equality => match t {
            Token::Equal => Some(BinaryOp::Equal),
            Token::NotEqual => Some(BinaryOp::NotEqual),
            _ => None,
        },
        Level::BitwiseAnd => match t {
            Token::BitwiseAnd => Some(BinaryOp::BitwiseAnd),
            _ => None,
        },
        Level::BitwiseXor => match t {
            Token::BitwiseXor => Some(BinaryOp::BitwiseXor),
            _ => None,
        },
        Level::BitwiseOr => match t {
            Token::BitwiseOr => Some(BinaryOp::BitwiseOr),
            _ => None,
        },
        Level::LogicalAnd => match t {
            Token::LogicalAnd => Some(BinaryOp::LogicalAnd),
            _ => None,
        },
        Level::LogicalOr => match t {
            Token::LogicalOr => Some(BinaryOp::LogicalOr),
            _ => None,
        },
    }
}

/// The assignment that token `t` stands for after an identifier, if any.
pub open spec fn assignment_of(t: Token) -> Option<AssignmentKind> {
    match t {
        Token::Assignment => Some(AssignmentKind::Write),
        Token::AdditionAssignment => Some(AssignmentKind::Add),
        Token::SubtractionAssignment => Some(AssignmentKind::Subtract),
        Token::MultiplicationAssignment => Some(AssignmentKind::Multiply),
        Token::DivisionAssignment => Some(AssignmentKind::Divide),
        Token::RemainderAssignment => Some(AssignmentKind::Remainder),
        Token::BitwiseXorAssignment => Some(AssignmentKind::BitwiseXor),
        Token::BitwiseOrAssignment => Some(AssignmentKind::BitwiseOr),
        Token::BitwiseAndAssignment => Some(AssignmentKind::BitwiseAnd),
        Token::LeftShiftAssignment => Some(AssignmentKind::LeftShift),
        Token::RightShiftAssignment => Some(AssignmentKind::RightShift),
        _ => None,
    }
}

pub open spec fn unary(op: UnaryOp, o: Outcome<SpecExpression>) -> Outcome<SpecExpression> {
    match o {
        Outcome::Parsed(e, t) => Outcome::Parsed(SpecExpression::UnaryOp(op, Box::new(e)), t),
        _ => o.failure(),
    }
}

pub open spec fn postfix_message() -> Seq<char> {
    "Invalid postfix expression. Expected int literal, (expr), or identifier possibly with postfix operator"@
}

pub open spec fn prefix_message() -> Seq<char> {
    "Invalid prefix expression. Expected variable identifier after prefix increment/decrement"@
}

/// A postfix expression: `( expr )`, a constant, a variable, `id++`, `id--`
/// or a call `id(args)`.
pub open spec fn postfix(s: Seq<TokNLoc>) -> Outcome<SpecExpression>
    decreases s.len(), 1nat,
{
    if s.len() == 0 {
        Outcome::Exhausted
    } else {
        let r = s.drop_first();
        match s[0].token {
            Token::Lparen => match expression(r) {
                Outcome::Parsed(e, t) => match expect(
                    t,
                    Token::Rparen,
                    "Missing closing parenthesis after expression"@,
                ) {
                    Outcome::Parsed(_, u) => Outcome::Parsed(e, u),
                    o => o.failure(),
                },
                o => o.failure(),
            },
            Token::Identifier(id) => if r.len() == 0 {
                Outcome::Exhausted
            } else {
                match r[0].token {
                    Token::Increment => Outcome::Parsed(
                        SpecExpression::PostfixOp(FixOp::Inc, id@),
                        r.drop_first(),
                    ),
                    Token::Decrement => Outcome::Parsed(
                        SpecExpression::PostfixOp(FixOp::Dec, id@),
                        r.drop_first(),
                    ),
                    Token::Lparen => {
                        let t = r.drop_first();
                        let args = if t.len() == 0 {
                            Outcome::Exhausted
                        } else if t[0].token is Rparen {
                            Outcome::Parsed(Seq::empty(), t)
                        } else {
                            call_args(t, Seq::empty())
                        };
                        match args {
                            Outcome::Parsed(a, u) => match expect(
                                u,
                                Token::Rparen,
                                "Missing closing parenthesis function arguments"@,
                            ) {
                                Outcome::Parsed(_, w) => Outcome::Parsed(
                                    SpecExpression::FunctionCall(id@, a),
                                    w,
                                ),
                                o => o.failure(),
                            },
                            o => o.failure(),
                        }
                    },
                    _ => Outcome::Parsed(SpecExpression::Variable(id@), r),
                }
            },
            Token::IntLiteral(v) => Outcome::Parsed(SpecExpression::Constant(v), r),
            _ => Outcome::Failed(error_at(s[0], postfix_message()), r),
        }
    }
}

/// The arguments of a call, after `acc`: expressions separated by commas.
pub open spec fn call_args(t: Seq<TokNLoc>, acc: Seq<SpecExpression>) -> Outcome<
    Seq<SpecExpression>,
>
    decreases t.len(), 25nat,
{
    match expression(t) {
        Outcome::Parsed(e, u) => if u.len() == 0 {
            Outcome::Exhausted
        } else if u[0].token is Comma {
            if u.len() < t.len() {
                call_args(u.drop_first(), acc.push(e))
            } else {
                Outcome::Exhausted
            }
        } else {
            Outcome::Parsed(acc.push(e), u)
        },
        o => o.failure(),
    }
}

/// A prefix expression: `-`, `!` or `~` before a prefix expression, `++` or `--`
/// before a variable, or a postfix expression.
pub open spec fn prefix(s: Seq<TokNLoc>) -> Outcome<SpecExpression>
    decreases s.len(), 2nat,
{
    if s.len() == 0 {
        Outcome::Exhausted
    } else {
        let r = s.drop_first();
        match s[0].token {
            Token::Minus => unary(UnaryOp::Negate, prefix(r)),
            Token::Not => unary(UnaryOp::Not, prefix(r)),
            Token::Complement => unary(UnaryOp::Complement, prefix(r)),
            Token::Increment => if r.len() == 0 {
                Outcome::Exhausted
            } else {
                match postfix(r) {
                    Outcome::Parsed(SpecExpression::Variable(id), t) => Outcome::Parsed(
                        SpecExpression::PrefixOp(FixOp::Inc, id),
                        t,
                    ),
                    Outcome::Parsed(_, t) => Outcome::Failed(
                        ErrorView { cursor: r[0].location, message: prefix_message() },
                        t,
                    ),
                    o => o.failure(),
                }
            },
            Token::Decrement => if r.len() == 0 {
                Outcome::Exhausted
            } else {
                match postfix(r) {
                    Outcome::Parsed(SpecExpression::Variable(id), t) => Outcome::Parsed(
                        SpecExpression::PrefixOp(FixOp::Dec, id),
                        t,
                    ),
                    Outcome::Parsed(_, t) => Outcome::Failed(
                        ErrorView { cursor: r[0].location, message: prefix_message() },
                        t,
                    ),
                    o => o.failure(),
                }
            },
            _ => postfix(s),
        }
    }
}

/// An operand of a binary operator of level `l`: an expression of the level
/// below, or a prefix expression at the multiplicative level.
pub open spec fn operand(s: Seq<TokNLoc>, l: Level) -> Outcome<SpecExpression>
    decreases s.len(), 2 * level_index(l) + 3,
{
    match l {
        Level::Multiplicative => prefix(s),
        _ => binary(s, lower(l)),
    }
}

/// An expression of level `l`: operands joined by operators of that level,
/// grouped from the left.
pub open spec fn binary(s: Seq<TokNLoc>, l: Level) -> Outcome<SpecExpression>
    decreases s.len(), 2 * level_index(l) + 4,
{
    match operand(s, l) {
        Outcome::Parsed(e, t) => if t.len() < s.len() {
            binary_tail(t, l, e)
        } else {
            Outcome::Exhausted
        },
        o => o.failure(),
    }
}

/// The rest of an expression of level `l` whose operands so far make `lhs`.
pub open spec fn binary_tail(t: Seq<TokNLoc>, l: Level, lhs: SpecExpression) -> Outcome<
    SpecExpression,
>
    decreases t.len(), 2 * level_index(l) + 4,
{
    if t.len() == 0 {
        Outcome::Parsed(lhs, t)
    } else {
        match binary_op_of(l, t[0].token) {
            None => Outcome::Parsed(lhs, t),
            Some(op) => match operand(t.drop_first(), l) {
                Outcome::Parsed(rhs, u) => if u.len() < t.len() {
                    binary_tail(u, l, SpecExpression::BinaryOp(op, Box::new(lhs), Box::new(rhs)))
                } else {
                    Outcome::Exhausted
                },
                o => o.failure(),
            },
        }
    }
}

/// A conditional expression `c ? a : b`, or a logical-or expression.
pub open spec fn conditional(s: Seq<TokNLoc>) -> Outcome<SpecExpression>
    decreases s.len(), 23nat,
{
    match binary(s, Level::LogicalOr) {
        Outcome::Parsed(c, t) => if t.len() == 0 {
            Outcome::Exhausted
        } else if t[0].token is QuestionMark {
            if t.len() < s.len() {
                match expression(t.drop_first()) {
                    Outcome::Parsed(a, u) => match expect(
                        u,
                        Token::Colon,
                        "Invalid conditional statement. Expected ':'"@,
                    ) {
                        Outcome::Parsed(_, w) => if w.len() < s.len() {
                            match conditional(w) {
                                Outcome::Parsed(b, x) => Outcome::Parsed(
                                    SpecExpression::Conditional(
                                        Box::new(c),
                                        Box::new(a),
                                        Box::new(b),
                                    ),
                                    x,
                                ),
                                o => o.failure(),
                            }
                        } else {
                            Outcome::Exhausted
                        },
                        o => o.failure(),
                    },
                    o => o.failure(),
                }
            } else {
                Outcome::Exhausted
            }
        } else {
            Outcome::Parsed(c, t)
        },
        o => o.failure(),
    }
}

/// An expression: an assignment `id op= expr`, or a conditional expression.
pub open spec fn expression(s: Seq<TokNLoc>) -> Outcome<SpecExpression>
    decreases s.len(), 24nat,
{
    if s.len() == 0 {
        Outcome::Exhausted
    } else {
        match s[0].token {
            Token::Identifier(id) => if s.len() < 2 {
                Outcome::Exhausted
            } else {
                match assignment_of(s[1].token) {
                    Some(k) => match expression(s.skip(2)) {
                        Outcome::Parsed(e, t) => Outcome::Parsed(
                            SpecExpression::Assign(k, id@, Box::new(e)),
                            t,
                        ),
                        o => o.failure(),
                    },
                    None => conditional(s),
                }
            },
            _ => conditional(s),
        }
    }
}

/// A declaration `int id;` or `int id = expr;`.
pub open spec fn declaration(s: Seq<TokNLoc>) -> Outcome<SpecDeclaration>
    decreases s.len(), 26nat,
{
    match expect(s, Token::Keyword(Keyword::Int), "Invalid declaration. Expected type specifier"@) {
        Outcome::Parsed(_, t) => if t.len() == 0 {
            Outcome::Exhausted
        } else {
            match t[0].token {
                Token::Identifier(id) => {
                    let u = t.drop_first();
                    if u.len() == 0 {
                        Outcome::Exhausted
                    } else if u[0].token is Assignment {
                        match expression(u.drop_first()) {
                            Outcome::Parsed(e, w) => match expect_semicolon(
                                w,
                                "Invalid declaration"@,
                            ) {
                                Outcome::Parsed(_, x) => Outcome::Parsed(
                                    SpecDeclaration { id: id@, init: Some(e) },
                                    x,
                                ),
                                o => o.failure(),
                            },
                            o => o.failure(),
                        }
                    } else {
                        match expect_semicolon(u, "Invalid declaration"@) {
                            Outcome::Parsed(_, x) => Outcome::Parsed(
                                SpecDeclaration { id: id@, init: None },
                                x,
                            ),
                            o => o.failure(),
                        }
                    }
                },
                _ => Outcome::Failed(
                    error_at(t[0], "Invalid declaration. Expected an identifier"@),
                    t.drop_first(),
                ),
            }
        },
        o => o.failure(),
    }
}

/// The rest of a `return` statement, after the keyword.
pub open spec fn return_rest(r: Seq<TokNLoc>) -> Outcome<SpecStatement>
    decreases r.len(), 27nat,
{
    match expression(r) {
        Outcome::Parsed(e, t) => match expect_semicolon(t, "Invalid return statement"@) {
            Outcome::Parsed(_, u) => Outcome::Parsed(SpecStatement::Return(e), u),
            o => o.failure(),
        },
        o => o.failure(),
    }
}

/// The rest of an `if` statement, after the keyword: `( cond ) stmt`,
/// with `else stmt` if an `else` follows.
pub open spec fn if_rest(r: Seq<TokNLoc>) -> Outcome<SpecStatement>
    decreases r.len(), 27nat,
{
    match expect(r, Token::Lparen, "Invalid if statement. Expected '('"@) {
        Outcome::Parsed(_, t1) => match expression(t1) {
            Outcome::Parsed(c, t2) => match expect(
                t2,
                Token::Rparen,
                "Invalid if statement. Expected ')' after condition expression"@,
            ) {
                Outcome::Parsed(_, t3) => if t3.len() < r.len() {
                    match statement(t3) {
                        Outcome::Parsed(a, t4) => if t4.len() == 0 {
                            Outcome::Exhausted
                        } else if t4[0].token == Token::Keyword(Keyword::Else) {
                            if t4.len() < r.len() {
                                match statement(t4.drop_first()) {
                                    Outcome::Parsed(b, t5) => Outcome::Parsed(
                                        SpecStatement::If(c, Box::new(a), Some(Box::new(b))),
                                        t5,
                                    ),
                                    o => o.failure(),
                                }
                            } else {
                                Outcome::Exhausted
                            }
                        } else {
                            Outcome::Parsed(SpecStatement::If(c, Box::new(a), None), t4)
                        },
                        o => o.failure(),
                    }
                } else {
                    Outcome::Exhausted
                },
                o => o.failure(),
            },
            o => o.failure(),
        },
        o => o.failure(),
    }
}

/// The rest of a `while` statement, after the keyword: `( cond ) stmt`.
pub open spec fn while_rest(r: Seq<TokNLoc>) -> Outcome<SpecStatement>
    decreases r.len(), 27nat,
{
    match expect(r, Token::Lparen, "Invalid while statement. Expected '('"@) {
        Outcome::Parsed(_, t1) => match expression(t1) {
            Outcome::Parsed(c, t2) => match expect(
                t2,
                Token::Rparen,
                "Invalid while statement. Expected ')' after condition expression"@,
            ) {
                Outcome::Parsed(_, t3) => if t3.len() < r.len() {
                    match statement(t3) {
                        Outcome::Parsed(b, t4) => Outcome::Parsed(
                            SpecStatement::While(c, Box::new(b)),
                            t4,
                        ),
                        o => o.failure(),
                    }
                } else {
                    Outcome::Exhausted
                },
                o => o.failure(),
            },
            o => o.failure(),
        },
        o => o.failure(),
    }
}

/// The rest of a `do` statement, after the keyword: `stmt while ( cond ) ;`.
pub open spec fn do_rest(r: Seq<TokNLoc>) -> Outcome<SpecStatement>
    decreases r.len(), 30nat,
{
    match statement(r) {
        Outcome::Parsed(b, t1) => match expect(
            t1,
            Token::Keyword(Keyword::While),
            "Invalid do-while statement. Expected 'while'"@,
        ) {
            Outcome::Parsed(_, t2) => match expect(
                t2,
                Token::Lparen,
                "Invalid do-while statement. Expected '('"@,
            ) {
                Outcome::Parsed(_, t3) => if t3.len() < r.len() {
                    match expression(t3) {
                        Outcome::Parsed(c, t4) => match expect(
                            t4,
                            Token::Rparen,
                            "Invalid do-while statement. Expected ')' after condition expression"@,
                        ) {
                            Outcome::Parsed(_, t5) => match expect_semicolon(
                                t5,
                                "Invalid do-while statement"@,
                            ) {
                                Outcome::Parsed(_, t6) => Outcome::Parsed(
                                    SpecStatement::DoWhile(Box::new(b), c),
                                    t6,
                                ),
                                o => o.failure(),
                            },
                            o => o.failure(),
                        },
                        o => o.failure(),
                    }
                } else {
                    Outcome::Exhausted
                },
                o => o.failure(),
            },
            o => o.failure(),
        },
        o => o.failure(),
    }
}

/// The first clause of a `for` statement, after `(`: a declaration, an empty
/// clause `;`, or an expression followed by `;`.
pub open spec fn for_init(t: Seq<TokNLoc>) -> Outcome<(Option<SpecDeclaration>, Option<SpecExpression>)>
    decreases t.len(), 27nat,
{
    if t.len() == 0 {
        Outcome::Exhausted
    } else if t[0].token == Token::Keyword(Keyword::Int) {
        match declaration(t) {
            Outcome::Parsed(d, u) => Outcome::Parsed((Some(d), None), u),
            o => o.failure(),
        }
    } else if t[0].token is Semicolon {
        Outcome::Parsed((None, None), t.drop_first())
    } else {
        match expression(t) {
            Outcome::Parsed(e, u) => match expect_semicolon(
                u,
                "Invalid initialization expression for For statement"@,
            ) {
                Outcome::Parsed(_, w) => Outcome::Parsed((None, Some(e)), w),
                o => o.failure(),
            },
            o => o.failure(),
        }
    }
}

/// The condition of a `for` statement and its semicolon; a missing condition is the constant 1.
pub open spec fn for_condition(t: Seq<TokNLoc>) -> Outcome<SpecExpression>
    decreases t.len(), 27nat,
{
    if t.len() == 0 {
        Outcome::Exhausted
    } else {
        let c = if t[0].token is Semicolon {
            Outcome::Parsed(SpecExpression::Constant(1), t)
        } else {
            expression(t)
        };
        match c {
            Outcome::Parsed(e, u) => match expect_semicolon(
                u,
                "Invalid condition expression for ForDecl statement"@,
            ) {
                Outcome::Parsed(_, w) => Outcome::Parsed(e, w),
                o => o.failure(),
            },
            o => o.failure(),
        }
    }
}

/// The post expression of a `for` statement, if any, and the `)` after it.
pub open spec fn for_post(t: Seq<TokNLoc>) -> Outcome<Option<SpecExpression>>
    decreases t.len(), 27nat,
{
    if t.len() == 0 {
        Outcome::Exhausted
    } else {
        let p = if t[0].token is Rparen {
            Outcome::Parsed(None, t)
        } else {
            match expression(t) {
                Outcome::Parsed(e, u) => Outcome::Parsed(Some(e), u),
                o => o.failure(),
            }
        };
        match p {
            Outcome::Parsed(e, u) => match expect(
                u,
                Token::Rparen,
                "Invalid For/ForDecl statement. Expected ')' after post expression"@,
            ) {
                Outcome::Parsed(_, w) => Outcome::Parsed(e, w),
                o => o.failure(),
            },
            o => o.failure(),
        }
    }
}

/// The rest of a `for` statement, after the keyword.
pub open spec fn for_rest(r: Seq<TokNLoc>) -> Outcome<SpecStatement>
    decreases r.len(), 28nat,
{
    match expect(r, Token::Lparen, "Invalid For/ForDecl statement. Expected '('"@) {
        Outcome::Parsed(_, t1) => match for_init(t1) {
            Outcome::Parsed(init, t2) => if t2.len() < r.len() {
                match for_condition(t2) {
                    Outcome::Parsed(c, t3) => if t3.len() < r.len() {
                        match for_post(t3) {
                            Outcome::Parsed(post, t4) => if t4.len() < r.len() {
                                match statement(t4) {
                                    Outcome::Parsed(body, t5) => Outcome::Parsed(
                                        match init.0 {
                                            Some(d) => SpecStatement::ForDecl(
                                                d,
                                                c,
                                                post,
                                                Box::new(body),
                                            ),
                                            None => SpecStatement::For(
                                                init.1,
                                                c,
                                                post,
                                                Box::new(body),
                                            ),
                                        },
                                        t5,
                                    ),
                                    o => o.failure(),
                                }
                            } else {
                                Outcome::Exhausted
                            },
                            o => o.failure(),
                        }
                    } else {
                        Outcome::Exhausted
                    },
                    o => o.failure(),
                }
            } else {
                Outcome::Exhausted
            },
            o => o.failure(),
        },
        o => o.failure(),
    }
}

/// A statement.
pub open spec fn statement(s: Seq<TokNLoc>) -> Outcome<SpecStatement>
    decreases s.len(), 29nat,
{
    if s.len() == 0 {
        Outcome::Exhausted
    } else {
        let r = s.drop_first();
        match s[0].token {
            Token::Lbrace => match compound(s) {
                Outcome::Parsed(items, t) => Outcome::Parsed(SpecStatement::Compound(items), t),
                o => o.failure(),
            },
            Token::Keyword(Keyword::Return) => return_rest(r),
            Token::Keyword(Keyword::Continue) => match expect_semicolon(
                r,
                "Invalid continue statement"@,
            ) {
                Outcome::Parsed(_, t) => Outcome::Parsed(SpecStatement::Continue, t),
                o => o.failure(),
            },
            Token::Keyword(Keyword::Break) => match expect_semicolon(r, "Invalid break statement"@) {
                Outcome::Parsed(_, t) => Outcome::Parsed(SpecStatement::Break, t),
                o => o.failure(),
            },
            Token::Keyword(Keyword::If) => if_rest(r),
            Token::Keyword(Keyword::While) => while_rest(r),
            Token::Keyword(Keyword::Do) => do_rest(r),
            Token::Keyword(Keyword::For) => for_rest(r),
            Token::Semicolon => Outcome::Parsed(SpecStatement::Null, r),
            _ => match expression(s) {
                Outcome::Parsed(e, t) => match expect_semicolon(t, "Invalid expression statement"@) {
                    Outcome::Parsed(_, u) => Outcome::Parsed(SpecStatement::Expr(e), u),
                    o => o.failure(),
                },
                o => o.failure(),
            },
        }
    }
}

/// A compound statement `{ items }`.
pub open spec fn compound(s: Seq<TokNLoc>) -> Outcome<Seq<SpecBlockItem>>
    decreases s.len(), 28nat,
{
    match expect(s, Token::Lbrace, "Invalid compound statement. Expected '{{'"@) {
        Outcome::Parsed(_, t) => block_items(t, Seq::empty()),
        o => o.failure(),
    }
}

/// The block items of a compound statement after `acc`, up to and including the `}`.
pub open spec fn block_items(t: Seq<TokNLoc>, acc: Seq<SpecBlockItem>) -> Outcome<
    Seq<SpecBlockItem>,
>
    decreases t.len(), 31nat,
{
    if t.len() == 0 {
        Outcome::Exhausted
    } else if t[0].token is Rbrace {
        Outcome::Parsed(acc, t.drop_first())
    } else {
        match block_item(t) {
            Outcome::Parsed(b, u) => if u.len() < t.len() {
                block_items(u, acc.push(b))
            } else {
                Outcome::Exhausted
            },
            o => o.failure(),
        }
    }
}

/// A block item: a declaration (starting with `int`) or a statement.
pub open spec fn block_item(t: Seq<TokNLoc>) -> Outcome<SpecBlockItem>
    decreases t.len(), 30nat,
{
    if t.len() == 0 {
        Outcome::Exhausted
    } else if t[0].token == Token::Keyword(Keyword::Int) {
        match declaration(t) {
            Outcome::Parsed(d, u) => Outcome::Parsed(SpecBlockItem::Decl(d), u),
            o => o.failure(),
        }
    } else {
        match statement(t) {
            Outcome::Parsed(st, u) => Outcome::Parsed(SpecBlockItem::Stmt(st), u),
            o => o.failure(),
        }
    }
}

/// The parameters of a function after the first: `, int id` repeated, after `acc`.
pub open spec fn more_params(t: Seq<TokNLoc>, acc: Seq<Seq<char>>) -> Outcome<Seq<Seq<char>>>
    decreases t.len(),
{
    if t.len() == 0 {
        Outcome::Exhausted
    } else if t[0].token is Comma {
        match expect(
            t.drop_first(),
            Token::Keyword(Keyword::Int),
            "Invalid function declarator. Expected type after comma"@,
        ) {
            Outcome::Parsed(_, u) => if u.len() == 0 {
                Outcome::Exhausted
            } else {
                match u[0].token {
                    Token::Identifier(id) => more_params(u.drop_first(), acc.push(id@)),
                    _ => Outcome::Failed(
                        error_at(
                            u[0],
                            "Invalid function parameter list. Expected identifier after type"@,
                        ),
                        u.drop_first(),
                    ),
                }
            },
            o => o.failure(),
        }
    } else {
        Outcome::Parsed(acc, t)
    }
}

/// The parameter list of a function, after `(`: empty, or `int id` then more parameters.
pub open spec fn params(w: Seq<TokNLoc>) -> Outcome<Seq<Seq<char>>> {
    if w.len() == 0 {
        Outcome::Exhausted
    } else if w[0].token == Token::Keyword(Keyword::Int) {
        let v = w.drop_first();
        if v.len() == 0 {
            Outcome::Exhausted
        } else {
            match v[0].token {
                Token::Identifier(id) => more_params(v.drop_first(), seq![id@]),
                _ => Outcome::Failed(
                    error_at(v[0], "Invalid function declarator. Expected identifier"@),
                    v.drop_first(),
                ),
            }
        }
    } else {
        Outcome::Parsed(Seq::empty(), w)
    }
}

/// A function: `int name ( params )` followed by `;` or by a compound statement.
pub open spec fn function(s: Seq<TokNLoc>) -> Outcome<SpecFunction> {
    match expect(
        s,
        Token::Keyword(Keyword::Int),
        "Invalid function declarator. Expected return type"@,
    ) {
        Outcome::Parsed(_, t) => if t.len() == 0 {
            Outcome::Exhausted
        } else {
            match t[0].token {
                Token::Identifier(name) => match expect(
                    t.drop_first(),
                    Token::Lparen,
                    "Invalid function declarator. Expected '('"@,
                ) {
                    Outcome::Parsed(_, w) => match params(w) {
                        Outcome::Parsed(ps, x) => match expect(
                            x,
                            Token::Rparen,
                            "Invalid function declarator. Expected ')'"@,
                        ) {
                            Outcome::Parsed(_, y) => if y.len() == 0 {
                                Outcome::Exhausted
                            } else if y[0].token is Semicolon {
                                Outcome::Parsed(
                                    SpecFunction::Declaration(name@, ps),
                                    y.drop_first(),
                                )
                            } else {
                                match compound(y) {
                                    Outcome::Parsed(body, z) => Outcome::Parsed(
                                        SpecFunction::Definition(name@, ps, body),
                                        z,
                                    ),
                                    o => o.failure(),
                                }
                            },
                            o => o.failure(),
                        },
                        o => o.failure(),
                    },
                    o => o.failure(),
                },
                _ => Outcome::Failed(
                    error_at(
                        t[0],
                        "Invalid function declarator. Expected identifier for function name"@,
                    ),
                    t.drop_first(),
                ),
            }
        },
        o => o.failure(),
    }
}

/// The functions of a program after `acc`, up to the end of the tokens.
pub open spec fn functions(s: Seq<TokNLoc>, acc: Seq<SpecFunction>) -> Outcome<Seq<SpecFunction>>
    decreases s.len(),
{
    if s.len() == 0 {
        Outcome::Parsed(acc, s)
    } else {
        match function(s) {
            Outcome::Parsed(f, t) => if t.len() < s.len() {
                functions(t, acc.push(f))
            } else {
                Outcome::Exhausted
            },
            o => o.failure(),
        }
    }
}

/// What parsing a whole token sequence gives: the program's functions, an
/// error, or `Exhausted` where the tokens end in the middle of a function.
pub open spec fn program(tokens: Seq<TokNLoc>) -> Outcome<Seq<SpecFunction>> {
    functions(tokens, Seq::empty())
}

} // verus!
