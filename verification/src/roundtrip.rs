use vstd::prelude::*;
use crate::ast::{
    AssignmentKind, BinaryOp, FixOp, UnaryOp, Expression, SpecExpression, expr_view, exprs_view,
};
use crate::grammar::{
    Outcome, Level, level_index, lower, binary_op_of, assignment_of, postfix, call_args, prefix,
    operand, binary, binary_tail, conditional, expression,
};
use crate::token::{Token, TokNLoc};

verus! {

// ------------------------------------------------------------------
// Printing expressions as tokens, and parsing them back
// ------------------------------------------------------------------

/// The tokens of a token sequence, without their locations.
pub open spec fn tokens_of(s: Seq<TokNLoc>) -> Seq<Token> {
    s.map_values(|t: TokNLoc| t.token)
}

pub open spec fn fix_token(op: FixOp) -> Token {
    match op {
        FixOp::Inc => Token::Increment,
        FixOp::Dec => Token::Decrement,
    }
}

pub open spec fn unary_token(op: UnaryOp) -> Token {
    match op {
        UnaryOp::Negate => Token::Minus,
        UnaryOp::Not => Token::Not,
        UnaryOp::Complement => Token::Complement,
    }
}

pub open spec fn binary_token(op: BinaryOp) -> Token {
    match op {
        BinaryOp::Multiplication => Token::Multiplication,
        BinaryOp::Division => Token::Division,
        BinaryOp::Remainder => Token::Remainder,
        BinaryOp::Addition => Token::Plus,
        BinaryOp::Subtraction => Token::Minus,
        BinaryOp::LeftShift => Token::LeftShift,
        BinaryOp::RightShift => Token::RightShift,
        BinaryOp::Less => Token::Less,
        BinaryOp::Greater => Token::Greater,
        BinaryOp::LessEqual => Token::LessEqual,
        BinaryOp::GreaterEqual => Token::GreaterEqual,
        BinaryOp::Equal => Token::Equal,
        BinaryOp::NotEqual => Token::NotEqual,
        BinaryOp::BitwiseAnd => Token::BitwiseAnd,
        BinaryOp::BitwiseXor => Token::BitwiseXor,
        BinaryOp::BitwiseOr => Token::BitwiseOr,
        BinaryOp::LogicalAnd => Token::LogicalAnd,
        BinaryOp::LogicalOr => Token::LogicalOr,
    }
}

pub open spec fn assign_token(k: AssignmentKind) -> Token {
    match k {
        AssignmentKind::Write => Token::Assignment,
        AssignmentKind::Add => Token::AdditionAssignment,
        AssignmentKind::Subtract => Token::SubtractionAssignment,
        AssignmentKind::Multiply => Token::MultiplicationAssignment,
        AssignmentKind::Divide => Token::DivisionAssignment,
        AssignmentKind::Remainder => Token::RemainderAssignment,
        AssignmentKind::BitwiseXor => Token::BitwiseXorAssignment,
        AssignmentKind::BitwiseOr => Token::BitwiseOrAssignment,
        AssignmentKind::BitwiseAnd => Token::BitwiseAndAssignment,
        AssignmentKind::LeftShift => Token::LeftShiftAssignment,
        AssignmentKind::RightShift => Token::RightShiftAssignment,
    }
}

/// The place in the order of precedence of the level whose operator token `t`
/// is; 10 (above every level) for a token that is no binary operator.
pub open spec fn token_level(t: Token) -> nat {
    match t {
        Token::Multiplication | Token::Division | Token::Remainder => 0,
        Token::Plus | Token::Minus => 1,
        Token::LeftShift | Token::RightShift => 2,
        Token::Less | Token::Greater | Token::LessEqual | Token::GreaterEqual => 3,
        Token::Equal | Token::NotEqual => 4,
        Token::BitwiseAnd => 5,
        Token::BitwiseXor => 6,
        Token::BitwiseOr => 7,
        Token::LogicalAnd => 8,
        Token::LogicalOr => 9,
        _ => 10,
    }
}

/// The tokens of an expression, with every expression that is not a
/// constant, a variable, a call or an increment/decrement in parentheses,
/// and the arguments of a call separated by commas.
pub open spec fn print_expr(e: Expression) -> Seq<Token>
    decreases e,
{
    match e {
        Expression::Constant(v) => seq![Token::IntLiteral(v)],
        Expression::Variable(x) => seq![Token::Identifier(x)],
        Expression::PostfixOp(op, x) => seq![Token::Identifier(x), fix_token(op)],
        Expression::PrefixOp(op, x) => seq![fix_token(op), Token::Identifier(x)],
        Expression::UnaryOp(op, a) => seq![Token::Lparen, unary_token(op)] + print_expr(*a) + seq![
            Token::Rparen,
        ],
        Expression::BinaryOp(op, a, b) => seq![Token::Lparen] + print_expr(*a) + seq![
            binary_token(op),
        ] + print_expr(*b) + seq![Token::Rparen],
        Expression::Assign(k, x, a) => seq![Token::Lparen, Token::Identifier(x), assign_token(k)]
            + print_expr(*a) + seq![Token::Rparen],
        Expression::Conditional(c, a, b) => seq![Token::Lparen] + print_expr(*c) + seq![
            Token::QuestionMark,
        ] + print_expr(*a) + seq![Token::Colon] + print_expr(*b) + seq![Token::Rparen],
        Expression::FunctionCall(f, args) => seq![Token::Identifier(f), Token::Lparen]
            + print_args(args@) + seq![Token::Rparen],
    }
}

/// The tokens of a list of arguments: their expressions separated by commas.
pub open spec fn print_args(args: Seq<Expression>) -> Seq<Token>
    decreases args,
{
    if args.len() == 0 {
        Seq::empty()
    } else if args.len() == 1 {
        print_expr(args[0])
    } else {
        print_expr(args[0]) + seq![Token::Comma] + print_args(args.subrange(1, args.len() as int))
    }
}

/// Whether a token could continue a postfix expression (`++`, `--`, or `(` of a call).
pub open spec fn continues_postfix(t: Token) -> bool {
    t is Increment || t is Decrement || t is Lparen
}

/// The tokens that may follow a complete expression: `)`, `,`, `:` and `;`.
pub open spec fn ends_expression(t: Token) -> bool {
    t is Rparen || t is Comma || t is Colon || t is Semicolon
}

proof fn lemma_token_level(l: Level, t: Token)
    ensures
        binary_op_of(l, t) is Some <==> level_index(l) == token_level(t),
{
}

proof fn lemma_binary_token(op: BinaryOp)
    ensures
        token_level(binary_token(op)) < 10,
        binary_op_of(level_of(op), binary_token(op)) == Some(op),
        token_level(binary_token(op)) == level_index(level_of(op)),
        !continues_postfix(binary_token(op)),
{
}

/// The level of a binary operator.
pub open spec fn level_of(op: BinaryOp) -> Level {
    match op {
        BinaryOp::Multiplication | BinaryOp::Division | BinaryOp::Remainder => Level::Multiplicative,
        BinaryOp::Addition | BinaryOp::Subtraction => Level::Additive,
        BinaryOp::LeftShift | BinaryOp::RightShift => Level::Shift,
        BinaryOp::Less | BinaryOp::Greater | BinaryOp::LessEqual | BinaryOp::GreaterEqual => Level::Relational,
        BinaryOp::Equal | BinaryOp::NotEqual => Level::Equality,
        BinaryOp::BitwiseAnd => Level::BitwiseAnd,
        BinaryOp::BitwiseXor => Level::BitwiseXor,
        BinaryOp::BitwiseOr => Level::BitwiseOr,
        BinaryOp::LogicalAnd => Level::LogicalAnd,
        BinaryOp::LogicalOr => Level::LogicalOr,
    }
}

/// A prefix expression followed by a token that is no operator at level `l`
/// or below is, at level `l`, that expression alone.
proof fn lemma_binary_of_prefix(s: Seq<TokNLoc>, l: Level, v: SpecExpression, r: Seq<TokNLoc>)
    requires
        prefix(s) == Outcome::Parsed(v, r),
        0 < r.len() < s.len(),
        token_level(r[0].token) > level_index(l),
    ensures
        binary(s, l) == Outcome::Parsed(v, r),
    decreases level_index(l),
{
    lemma_token_level(l, r[0].token);
    if l != Level::Multiplicative {
        lemma_binary_of_prefix(s, lower(l), v, r);
    }
}

/// An expression of the lowest level followed by a token other than `?` is a
/// conditional expression.
proof fn lemma_conditional_of_binary(s: Seq<TokNLoc>, v: SpecExpression, r: Seq<TokNLoc>)
    requires
        binary(s, Level::LogicalOr) == Outcome::Parsed(v, r),
        r.len() > 0,
        !(r[0].token is QuestionMark),
    ensures
        conditional(s) == Outcome::Parsed(v, r),
{
}

/// Where no assignment starts a token sequence, an expression is a conditional expression.
proof fn lemma_expression_of_conditional(s: Seq<TokNLoc>)
    requires
        s.len() > 0,
        s[0].token is Identifier ==> s.len() >= 2 && assignment_of(s[1].token) is None,
    ensures
        expression(s) == conditional(s),
{
}

/// The tokens of an expression are never empty, and where they start with a
/// name, a single name or a name followed by `++`, `--` or `(`.
pub(crate) proof fn lemma_print_shape(e: Expression)
    ensures
        print_expr(e).len() > 0,
        print_expr(e)[0] is Identifier ==> print_expr(e).len() == 1 || continues_postfix(
            print_expr(e)[1],
        ),
        !(print_expr(e)[0] is Rparen),
        print_expr(e)[0] is IntLiteral || print_expr(e)[0] is Identifier || print_expr(e)[0] is Increment
            || print_expr(e)[0] is Decrement || print_expr(e)[0] is Lparen,
{
    match e {
        Expression::FunctionCall(f, args) => {
            assert((seq![Token::Identifier(f), Token::Lparen] + print_args(args@) + seq![Token::Rparen])[1]
                == Token::Lparen);
        },
        Expression::UnaryOp(op, a) => {},
        Expression::BinaryOp(op, a, b) => {},
        Expression::Assign(k, x, a) => {},
        Expression::Conditional(c, a, b) => {},
        _ => {},
    }
}

/// Where `s` starts with the tokens of `e`, which `r` follows, no assignment starts `s`.
proof fn lemma_no_assignment_start(e: Expression, p: Seq<TokNLoc>, r: Seq<TokNLoc>)
    requires
        tokens_of(p) == print_expr(e),
        r.len() > 0,
        assignment_of(r[0].token) is None,
    ensures
        (p + r)[0].token is Identifier ==> (p + r).len() >= 2 && assignment_of(
            (p + r)[1].token,
        ) is None,
{
    lemma_print_shape(e);
    assert(p[0].token == tokens_of(p)[0]);
    if p.len() > 1 {
        assert(p[1].token == tokens_of(p)[1]);
    }
}

/// A prefix expression followed by a token that is no operator below level
/// `l` is an operand at level `l`.
proof fn lemma_operand_of_prefix(s: Seq<TokNLoc>, l: Level, v: SpecExpression, r: Seq<TokNLoc>)
    requires
        prefix(s) == Outcome::Parsed(v, r),
        0 < r.len() < s.len(),
        token_level(r[0].token) >= level_index(l),
    ensures
        operand(s, l) == Outcome::Parsed(v, r),
{
    if l != Level::Multiplicative {
        lemma_binary_of_prefix(s, lower(l), v, r);
    }
}

/// An expression of level `l0`, followed by a token that is no operator at
/// level `l` or below, is also the expression of level `l`, for `l` above `l0`.
proof fn lemma_binary_above(s: Seq<TokNLoc>, l0: Level, l: Level, v: SpecExpression, r: Seq<TokNLoc>)
    requires
        binary(s, l0) == Outcome::Parsed(v, r),
        0 < r.len() < s.len(),
        level_index(l0) <= level_index(l) < token_level(r[0].token),
    ensures
        binary(s, l) == Outcome::Parsed(v, r),
    decreases level_index(l),
{
    lemma_token_level(l, r[0].token);
    if level_index(l0) < level_index(l) {
        lemma_binary_above(s, l0, lower(l), v, r);
    } else {
        assert(l0 == l);
    }
}

/// An expression of some level followed by a token that ends expressions,
/// where no assignment starts it, is a whole expression.
proof fn lemma_expression_of_binary(s: Seq<TokNLoc>, l0: Level, v: SpecExpression, r: Seq<TokNLoc>)
    requires
        binary(s, l0) == Outcome::Parsed(v, r),
        0 < r.len() < s.len(),
        ends_expression(r[0].token),
        s[0].token is Identifier ==> s.len() >= 2 && assignment_of(s[1].token) is None,
    ensures
        conditional(s) == Outcome::Parsed(v, r),
        expression(s) == Outcome::Parsed(v, r),
{
    lemma_binary_above(s, l0, Level::LogicalOr, v, r);
    lemma_conditional_of_binary(s, v, r);
    lemma_expression_of_conditional(s);
}

/// A parenthesized expression: `(` and `)` around tokens that parse as the
/// expression `v` up to the `)`.
proof fn lemma_parenthesized(p: Seq<TokNLoc>, q: Seq<TokNLoc>, v: SpecExpression)
    requires
        p.len() >= 2,
        p[0].token is Lparen,
        p[p.len() - 1].token is Rparen,
        expression(p.drop_first() + q) == Outcome::Parsed(v, seq![p[p.len() - 1]] + q),
    ensures
        prefix(p + q) == Outcome::Parsed(v, q),
{
    let s = p + q;
    assert(s.drop_first() =~= p.drop_first() + q);
    let z = seq![p[p.len() - 1]] + q;
    assert(z.drop_first() =~= q);
    assert(z[0].token is Rparen);
    assert(s[0].token is Lparen);
    assert(postfix(s) == Outcome::Parsed(v, q));
}

/// The models of a list of expressions: the model of the first, then those of the rest.
proof fn lemma_exprs_view_front(es: Seq<Expression>)
    requires
        es.len() > 0,
    ensures
        exprs_view(es) == seq![expr_view(es[0])] + exprs_view(es.subrange(1, es.len() as int)),
    decreases es.len(),
{
    let n = es.len() as int;
    if n == 1 {
        assert(exprs_view(Seq::<Expression>::empty()) =~= Seq::<SpecExpression>::empty());
        assert(es.subrange(0, 0) =~= Seq::<Expression>::empty());
        assert(es.subrange(1, 1) =~= Seq::<Expression>::empty());
        assert(exprs_view(es) =~= seq![expr_view(es[0])]);
        assert(exprs_view(es.subrange(1, n)) =~= Seq::<SpecExpression>::empty());
    } else {
        let init = es.subrange(0, n - 1);
        let tail = es.subrange(1, n);
        lemma_exprs_view_front(init);
        assert(tail.subrange(0, n - 2) =~= init.subrange(1, n - 1));
        assert(tail[n - 2] == es[n - 1]);
        assert(init[0] == es[0]);
        assert(exprs_view(tail) == exprs_view(tail.subrange(0, n - 2)).push(expr_view(tail[n - 2])));
        assert(exprs_view(es) =~= seq![expr_view(es[0])] + exprs_view(tail));
    }
}

/// The tokens of a part of a token sequence are that part of its tokens.
pub(crate) proof fn lemma_tokens_subrange(p: Seq<TokNLoc>, ts: Seq<Token>, lo: int, hi: int)
    requires
        tokens_of(p) == ts,
        0 <= lo <= hi <= ts.len(),
    ensures
        tokens_of(p.subrange(lo, hi)) == ts.subrange(lo, hi),
        forall|i: int| lo <= i < hi ==> #[trigger] p[i].token == ts[i],
{
    assert(p.len() == ts.len());
    assert forall|i: int| lo <= i < hi implies #[trigger] p[i].token == ts[i] by {
        assert(tokens_of(p)[i] == p[i].token);
    }
    assert(tokens_of(p.subrange(lo, hi)) =~= ts.subrange(lo, hi));
}

/// Tokens that print an expression, followed by a token that cannot continue
/// a postfix expression, parse back to the expression as a prefix expression.
proof fn lemma_print_prefix(e: Expression, p: Seq<TokNLoc>, q: Seq<TokNLoc>)
    requires
        tokens_of(p) == print_expr(e),
        q.len() > 0,
        !continues_postfix(q[0].token),
    ensures
        prefix(p + q) == Outcome::Parsed(expr_view(e), q),
    decreases e, 1nat,
{
    match e {
        Expression::UnaryOp(..) => lemma_print_unary(e, p, q),
        Expression::BinaryOp(..) => lemma_print_binary(e, p, q),
        Expression::Assign(..) => lemma_print_assign(e, p, q),
        Expression::Conditional(..) => lemma_print_conditional(e, p, q),
        Expression::FunctionCall(..) => lemma_print_call(e, p, q),
        _ => lemma_print_atom(e, p, q),
    }
}

proof fn lemma_print_atom(e: Expression, p: Seq<TokNLoc>, q: Seq<TokNLoc>)
    requires
        tokens_of(p) == print_expr(e),
        q.len() > 0,
        !continues_postfix(q[0].token),
        e is Constant || e is Variable || e is PostfixOp || e is PrefixOp,
    ensures
        prefix(p + q) == Outcome::Parsed(expr_view(e), q),
{
    let ts = print_expr(e);
    lemma_tokens_subrange(p, ts, 0, ts.len() as int);
    match e {
        Expression::Constant(v) => lemma_print_constant(v, p, q),
        Expression::Variable(x) => lemma_print_variable(x, p, q),
        Expression::PostfixOp(op, x) => lemma_print_postfix_op(op, x, p, q),
        Expression::PrefixOp(op, x) => lemma_print_prefix_op(op, x, p, q),
        _ => {},
    }
}

proof fn lemma_print_constant(v: u64, p: Seq<TokNLoc>, q: Seq<TokNLoc>)
    requires
        p.len() == 1,
        p[0].token == Token::IntLiteral(v),
        q.len() > 0,
    ensures
        prefix(p + q) == Outcome::Parsed(SpecExpression::Constant(v), q),
{
    let s = p + q;
    assert(s[0] == p[0]);
    assert(s.drop_first() =~= q);
    assert(postfix(s) == Outcome::Parsed(SpecExpression::Constant(v), q));
}

proof fn lemma_print_variable(x: String, p: Seq<TokNLoc>, q: Seq<TokNLoc>)
    requires
        p.len() == 1,
        p[0].token == Token::Identifier(x),
        q.len() > 0,
        !continues_postfix(q[0].token),
    ensures
        prefix(p + q) == Outcome::Parsed(SpecExpression::Variable(x@), q),
{
    let s = p + q;
    assert(s[0] == p[0]);
    assert(s.drop_first() =~= q);
    assert(postfix(s) == Outcome::Parsed(SpecExpression::Variable(x@), q));
}

proof fn lemma_print_postfix_op(op: FixOp, x: String, p: Seq<TokNLoc>, q: Seq<TokNLoc>)
    requires
        p.len() == 2,
        p[0].token == Token::Identifier(x),
        p[1].token == fix_token(op),
    ensures
        prefix(p + q) == Outcome::Parsed(SpecExpression::PostfixOp(op, x@), q),
{
    let s = p + q;
    assert(s[0] == p[0]);
    assert(s.drop_first()[0] == p[1]);
    assert(s.drop_first().drop_first() =~= q);
    assert(postfix(s) == Outcome::Parsed(SpecExpression::PostfixOp(op, x@), q));
}

proof fn lemma_print_prefix_op(op: FixOp, x: String, p: Seq<TokNLoc>, q: Seq<TokNLoc>)
    requires
        p.len() == 2,
        p[0].token == fix_token(op),
        p[1].token == Token::Identifier(x),
        q.len() > 0,
        !continues_postfix(q[0].token),
    ensures
        prefix(p + q) == Outcome::Parsed(SpecExpression::PrefixOp(op, x@), q),
{
    let s = p + q;
    let r = s.drop_first();
    assert(s[0] == p[0]);
    assert(r[0] == p[1]);
    assert(r.drop_first() =~= q);
    assert(postfix(r) == Outcome::Parsed(SpecExpression::Variable(x@), q));
}

proof fn lemma_print_unary(e: Expression, p: Seq<TokNLoc>, q: Seq<TokNLoc>)
    requires
        tokens_of(p) == print_expr(e),
        q.len() > 0,
        e is UnaryOp,
    ensures
        prefix(p + q) == Outcome::Parsed(expr_view(e), q),
    decreases e, 0nat,
{
    if let Expression::UnaryOp(op, a) = e {
        let ts = print_expr(e);
        let n = ts.len() as int;
        let na = print_expr(*a).len() as int;
        lemma_tokens_subrange(p, ts, 0, n);
        lemma_tokens_subrange(p, ts, 2, 2 + na);
        assert(ts.subrange(2, 2 + na) =~= print_expr(*a));
        let pa = p.subrange(2, 2 + na);
        let z = seq![p[n - 1]] + q;
        let inner = p.drop_first() + q;
        assert(inner.drop_first() =~= pa + z);
        lemma_print_prefix(*a, pa, z);
        let v = expr_view(e);
        assert(prefix(inner) == Outcome::Parsed(v, z));
        lemma_binary_of_prefix(inner, Level::LogicalOr, v, z);
        lemma_expression_of_binary(inner, Level::LogicalOr, v, z);
        lemma_parenthesized(p, q, v);
    }
}

proof fn lemma_print_binary(e: Expression, p: Seq<TokNLoc>, q: Seq<TokNLoc>)
    requires
        tokens_of(p) == print_expr(e),
        q.len() > 0,
        e is BinaryOp,
    ensures
        prefix(p + q) == Outcome::Parsed(expr_view(e), q),
    decreases e, 0nat,
{
    if let Expression::BinaryOp(op, a, b) = e {
        let ts = print_expr(e);
        let n = ts.len() as int;
        let na = print_expr(*a).len() as int;
        let nb = print_expr(*b).len() as int;
        lemma_print_shape(*a);
        lemma_print_shape(*b);
        lemma_tokens_subrange(p, ts, 0, n);
        lemma_tokens_subrange(p, ts, 1, 1 + na);
        lemma_tokens_subrange(p, ts, 2 + na, 2 + na + nb);
        assert(ts.subrange(1, 1 + na) =~= print_expr(*a));
        assert(ts.subrange(2 + na, 2 + na + nb) =~= print_expr(*b));
        assert(ts[1 + na] == binary_token(op));
        let pa = p.subrange(1, 1 + na);
        let pb = p.subrange(2 + na, 2 + na + nb);
        let z = seq![p[n - 1]] + q;
        let y = pb + z;
        let x = seq![p[1 + na]] + y;
        let inner = p.drop_first() + q;
        assert(inner =~= pa + x);
        assert(x.drop_first() =~= y);
        lemma_binary_token(op);
        let l = level_of(op);
        lemma_print_prefix(*a, pa, x);
        lemma_operand_of_prefix(inner, l, expr_view(*a), x);
        lemma_print_prefix(*b, pb, z);
        lemma_operand_of_prefix(y, l, expr_view(*b), z);
        lemma_token_level(l, z[0].token);
        let v = expr_view(e);
        assert(ts[n - 1] == Token::Rparen);
        assert(z[0].token is Rparen);
        assert(x[0].token == binary_token(op));
        assert(binary_tail(z, l, v) == Outcome::Parsed(v, z));
        assert(operand(x.drop_first(), l) == Outcome::Parsed(expr_view(*b), z));
        assert(binary_tail(x, l, expr_view(*a)) == Outcome::Parsed(v, z));
        assert(binary(inner, l) == Outcome::Parsed(v, z));
        lemma_no_assignment_start(*a, pa, x);
        lemma_expression_of_binary(inner, l, v, z);
        lemma_parenthesized(p, q, v);
    }
}

proof fn lemma_print_assign(e: Expression, p: Seq<TokNLoc>, q: Seq<TokNLoc>)
    requires
        tokens_of(p) == print_expr(e),
        q.len() > 0,
        e is Assign,
    ensures
        prefix(p + q) == Outcome::Parsed(expr_view(e), q),
    decreases e, 0nat,
{
    if let Expression::Assign(k, x, a) = e {
        let ts = print_expr(e);
        let n = ts.len() as int;
        let na = print_expr(*a).len() as int;
        lemma_tokens_subrange(p, ts, 0, n);
        lemma_tokens_subrange(p, ts, 3, 3 + na);
        assert(ts.subrange(3, 3 + na) =~= print_expr(*a));
        let pa = p.subrange(3, 3 + na);
        let z = seq![p[n - 1]] + q;
        let inner = p.drop_first() + q;
        assert(inner.skip(2) =~= pa + z);
        lemma_print_expression(*a, pa, z);
        let v = expr_view(e);
        assert(expression(inner) == Outcome::Parsed(v, z));
        lemma_parenthesized(p, q, v);
    }
}

proof fn lemma_print_conditional(e: Expression, p: Seq<TokNLoc>, q: Seq<TokNLoc>)
    requires
        tokens_of(p) == print_expr(e),
        q.len() > 0,
        e is Conditional,
    ensures
        prefix(p + q) == Outcome::Parsed(expr_view(e), q),
    decreases e, 0nat,
{
    if let Expression::Conditional(c, a, b) = e {
        let ts = print_expr(e);
        let n = ts.len() as int;
        let nc = print_expr(*c).len() as int;
        let na = print_expr(*a).len() as int;
        let nb = print_expr(*b).len() as int;
        lemma_print_shape(*c);
        lemma_print_shape(*a);
        lemma_print_shape(*b);
        lemma_tokens_subrange(p, ts, 0, n);
        lemma_tokens_subrange(p, ts, 1, 1 + nc);
        lemma_tokens_subrange(p, ts, 2 + nc, 2 + nc + na);
        lemma_tokens_subrange(p, ts, 3 + nc + na, 3 + nc + na + nb);
        assert(ts.subrange(1, 1 + nc) =~= print_expr(*c));
        assert(ts.subrange(2 + nc, 2 + nc + na) =~= print_expr(*a));
        assert(ts.subrange(3 + nc + na, 3 + nc + na + nb) =~= print_expr(*b));
        assert(ts[1 + nc] == Token::QuestionMark);
        assert(ts[2 + nc + na] == Token::Colon);
        let pc = p.subrange(1, 1 + nc);
        let pa = p.subrange(2 + nc, 2 + nc + na);
        let pb = p.subrange(3 + nc + na, 3 + nc + na + nb);
        let z = seq![p[n - 1]] + q;
        let w = pb + z;
        let u = seq![p[2 + nc + na]] + w;
        let ya = pa + u;
        let t = seq![p[1 + nc]] + ya;
        let inner = p.drop_first() + q;
        assert(inner =~= pc + t);
        assert(t.drop_first() =~= ya);
        assert(u.drop_first() =~= w);
        lemma_print_prefix(*c, pc, t);
        lemma_binary_of_prefix(inner, Level::LogicalOr, expr_view(*c), t);
        lemma_print_expression(*a, pa, u);
        lemma_print_expression(*b, pb, z);
        let v = expr_view(e);
        assert(conditional(inner) == Outcome::Parsed(v, z));
        lemma_no_assignment_start(*c, pc, t);
        lemma_expression_of_conditional(inner);
        lemma_parenthesized(p, q, v);
    }
}

proof fn lemma_print_call(e: Expression, p: Seq<TokNLoc>, q: Seq<TokNLoc>)
    requires
        tokens_of(p) == print_expr(e),
        q.len() > 0,
        e is FunctionCall,
    ensures
        prefix(p + q) == Outcome::Parsed(expr_view(e), q),
    decreases e, 0nat,
{
    if let Expression::FunctionCall(f, args) = e {
        let ts = print_expr(e);
        let n = ts.len() as int;
        let m = print_args(args@).len() as int;
        lemma_tokens_subrange(p, ts, 0, n);
        lemma_tokens_subrange(p, ts, 2, 2 + m);
        assert(ts.subrange(2, 2 + m) =~= print_args(args@));
        let s = p + q;
        let r = s.drop_first();
        let t = r.drop_first();
        let z = seq![p[n - 1]] + q;
        let pargs = p.subrange(2, 2 + m);
        assert(t =~= pargs + z);
        assert(z.drop_first() =~= q);
        if args@.len() == 0 {
            assert(pargs =~= Seq::<TokNLoc>::empty());
            assert(t =~= z);
            assert(exprs_view(args@) =~= Seq::<SpecExpression>::empty());
        } else {
            lemma_print_args(args@, pargs, z, Seq::empty());
            assert(Seq::<SpecExpression>::empty() + exprs_view(args@) =~= exprs_view(args@));
            lemma_print_args_start(args@);
            assert(ts[2] == print_args(args@)[0]);
            assert(!(t[0].token is Rparen));
        }
        assert(s[0] == p[0]);
        assert(r[0] == p[1]);
        assert(ts[1] == Token::Lparen);
        assert(ts[n - 1] == Token::Rparen);
        assert(z[0].token is Rparen);
        assert(postfix(s) == Outcome::Parsed(expr_view(e), q));
    }
}

/// Where a list of arguments is not empty, its tokens start with the tokens of the first.
proof fn lemma_print_args_start(args: Seq<Expression>)
    requires
        args.len() > 0,
    ensures
        print_args(args).len() > 0,
        print_args(args)[0] == print_expr(args[0])[0],
        !(print_args(args)[0] is Rparen),
{
    lemma_print_shape(args[0]);
}

/// Tokens that print an expression, followed by a token that ends
/// expressions, parse back to the expression.
pub(crate) proof fn lemma_print_expression(e: Expression, p: Seq<TokNLoc>, q: Seq<TokNLoc>)
    requires
        tokens_of(p) == print_expr(e),
        q.len() > 0,
        ends_expression(q[0].token),
    ensures
        conditional(p + q) == Outcome::Parsed(expr_view(e), q),
        expression(p + q) == Outcome::Parsed(expr_view(e), q),
    decreases e, 2nat,
{
    lemma_print_prefix(e, p, q);
    lemma_print_shape(e);
    assert(p.len() == print_expr(e).len());
    lemma_binary_of_prefix(p + q, Level::Multiplicative, expr_view(e), q);
    lemma_no_assignment_start(e, p, q);
    lemma_expression_of_binary(p + q, Level::Multiplicative, expr_view(e), q);
}

/// Tokens that print a non-empty list of arguments, followed by `)`, parse
/// back to the arguments.
proof fn lemma_print_args(
    args: Seq<Expression>,
    p: Seq<TokNLoc>,
    z: Seq<TokNLoc>,
    acc: Seq<SpecExpression>,
)
    requires
        args.len() > 0,
        tokens_of(p) == print_args(args),
        z.len() > 0,
        z[0].token is Rparen,
    ensures
        call_args(p + z, acc) == Outcome::Parsed(acc + exprs_view(args), z),
    decreases args, 3nat,
{
    lemma_exprs_view_front(args);
    let rest = args.subrange(1, args.len() as int);
    if args.len() == 1 {
        assert(rest =~= Seq::<Expression>::empty());
        assert(exprs_view(rest) =~= Seq::<SpecExpression>::empty());
        lemma_print_expression(args[0], p, z);
        assert(acc.push(expr_view(args[0])) =~= acc + exprs_view(args));
    } else {
        let ts = print_args(args);
        let n = ts.len() as int;
        let n0 = print_expr(args[0]).len() as int;
        assert(ts == print_expr(args[0]) + seq![Token::Comma] + print_args(rest));
        lemma_tokens_subrange(p, ts, 0, n0);
        lemma_tokens_subrange(p, ts, n0, n);
        assert(ts.subrange(0, n0) =~= print_expr(args[0]));
        assert(ts.subrange(n0 + 1, n) =~= print_args(rest));
        lemma_tokens_subrange(p, ts, n0 + 1, n);
        let p0 = p.subrange(0, n0);
        let prest = p.subrange(n0 + 1, n);
        let u = seq![p[n0]] + (prest + z);
        assert(p + z =~= p0 + u);
        assert(u.drop_first() =~= prest + z);
        lemma_print_shape(args[0]);
        lemma_print_expression(args[0], p0, u);
        lemma_print_args(rest, prest, z, acc.push(expr_view(args[0])));
        assert(acc.push(expr_view(args[0])) + exprs_view(rest) =~= acc + exprs_view(args));
    }
}

/// Parsing printed tokens gives back the expression: whatever their locations,
/// tokens that print an expression `e`, followed by `)`, `,`, `:` or `;`,
/// parse as the expression `e`, up to that token.
pub proof fn law_printed_expression_parses_back(e: Expression, p: Seq<TokNLoc>, q: Seq<TokNLoc>)
    requires
        tokens_of(p) == print_expr(e),
        q.len() > 0,
        ends_expression(q[0].token),
    ensures
        expression(p + q) == Outcome::Parsed(expr_view(e), q),
{
    lemma_print_expression(e, p, q);
}

} // verus!
