use vstd::prelude::*;
use core::slice::Iter;
use itertools::MultiPeek;
use crate::ast::{
    AssignmentKind, BinaryOp, FixOp, UnaryOp, Expression, SpecExpression, Declaration, Statement,
    BlockItem, SpecBlockItem, exprs_view, items_view, opt_expr_view, lemma_exprs_view_push,
    lemma_items_view_push, opt_decl_view, names_view, Function, Program, SpecFunction,
    function_view,
};
use crate::error::{ParseError, mkperr};
use crate::grammar::{
    Outcome, Level, is_same_kind, peek_at, expect, expect_semicolon, level_index, lower,
    binary_op_of, assignment_of, postfix, call_args, prefix, operand, binary, binary_tail,
    conditional, expression, declaration, return_rest, if_rest, while_rest, do_rest, for_init,
    for_condition, for_post, for_rest, compound, statement, block_item, params, more_params,
    function, program,
};
use crate::lookahead::{
    pending_tokens, peek_cursor, multipeek_tokens, multipeek_next, multipeek_peek, multipeek_reset,
};
use crate::token::{Keyword, Token, TokNLoc};

verus! {

/// Why parsing stopped short of a result: a parse error, or the end of the
/// tokens where another token was needed.
pub enum Halt {
    Error(ParseError),
    OutOfTokens,
}

/// `res`, with values seen through `view`, is what outcome `o` describes, and
/// `rest` is the tokens that `o` leaves, after a parse or after an error.
pub open spec fn agrees_with<T, V>(
    res: Result<T, Halt>,
    o: Outcome<V>,
    rest: Seq<TokNLoc>,
    view: spec_fn(T) -> V,
) -> bool {
    match o {
        Outcome::Parsed(v, r) => res matches Ok(x) && view(x) == v && rest == r,
        Outcome::Failed(e, r) => res matches Err(Halt::Error(x)) && x@ == e && rest == r,
        Outcome::Exhausted => res matches Err(Halt::OutOfTokens),
    }
}

/// `agrees_with` for a type with a view.
pub open spec fn agrees<T: View>(res: Result<T, Halt>, o: Outcome<T::V>, rest: Seq<TokNLoc>) -> bool {
    agrees_with(res, o, rest, |x: T| x@)
}

/// A recursive-descent parser over a token slice, with unbounded lookahead.
pub struct Parser<'a> {
    tokiter: MultiPeek<Iter<'a, TokNLoc>>,
}

fn lower_level(l: Level) -> (r: Level)
    ensures
        r == lower(l),
{
    match l {
        Level::Multiplicative => Level::Multiplicative,
        Level::Additive => Level::Multiplicative,
        Level::Shift => Level::Additive,
        Level::Relational => Level::Shift,
        Level::Equality => Level::Relational,
        Level::BitwiseAnd => Level::Equality,
        Level::BitwiseXor => Level::BitwiseAnd,
        Level::BitwiseOr => Level::BitwiseXor,
        Level::LogicalAnd => Level::BitwiseOr,
        Level::LogicalOr => Level::LogicalAnd,
    }
}

/// The binary operator that token `t` stands for at level `l`, if any.
fn token_to_operation(l: Level, t: &Token) -> (r: Option<BinaryOp>)
    ensures
        r == binary_op_of(l, *t),
{
    match l {
        Level::Multiplicative => match t {
            Token::Multiplication => Some(BinaryOp::Multiplication),
            Token::Division => Some(BinaryOp::Division),
            Token::Remainder => Some(BinaryOp::Remainder),
            _ => None,
        },
        Level::Additive => match t {
            Token::Minus => Some(BinaryOp::Subtraction),
            Token::Plus => Some(BinaryOp::Addition),
            _ => None,
        },
        Level::Shift => match t {
            Token::LeftShift => Some(BinaryOp::LeftShift),
            Token::RightShift => Some(BinaryOp::RightShift),
            _ => None,
        },
        Level::Relational => match t {
            Token::Greater => Some(BinaryOp::Greater),
            Token::Less => Some(BinaryOp::Less),
            Token::GreaterEqual => Some(BinaryOp::GreaterEqual),
            Token::LessEqual => Some(BinaryOp::LessEqual),
            _ => None,
        },
        Level::Equality => match t {
            Token::Equal => Some(BinaryOp::Equal),
            Token::NotEqual => Some(BinaryOp::NotEqual),
            _ => None,
        },
        Level::BitwiseAnd => match t {
            Token::BitwiseAnd => Some(BinaryOp::BitwiseAnd),
            _ => None,
        },
        Level::BitwiseXor => match t {
            Token::BitwiseXor => Some(BinaryOp::BitwiseXor),
            _ => None,
        },
        Level::BitwiseOr => match t {
            Token::BitwiseOr => Some(BinaryOp::BitwiseOr),
            _ => None,
        },
        Level::LogicalAnd => match t {
            Token::LogicalAnd => Some(BinaryOp::LogicalAnd),
            _ => None,
        },
        Level::LogicalOr => match t {
            Token::LogicalOr => Some(BinaryOp::LogicalOr),
            _ => None,
        },
    }
}

/// The assignment that token `t` stands for after an identifier, if any.
fn token_to_assignment(t: &Token) -> (r: Option<AssignmentKind>)
    ensures
        r == assignment_of(*t),
{
    match t {
        Token::Assignment => Some(AssignmentKind::Write),
        Token::AdditionAssignment => Some(AssignmentKind::Add),
        Token::SubtractionAssignment => Some(AssignmentKind::Subtract),
        Token::MultiplicationAssignment => Some(AssignmentKind::Multiply),
        Token::DivisionAssignment => Some(AssignmentKind::Divide),
        Token::RemainderAssignment => Some(AssignmentKind::Remainder),
        Token::BitwiseXorAssignment => Some(AssignmentKind::BitwiseXor),
        Token::BitwiseOrAssignment => Some(AssignmentKind::BitwiseOr),
        Token::BitwiseAndAssignment => Some(AssignmentKind::BitwiseAnd),
        Token::LeftShiftAssignment => Some(AssignmentKind::LeftShift),
        Token::RightShiftAssignment => Some(AssignmentKind::RightShift),
        _ => None,
    }
}

impl<'a> Parser<'a> {
    /// The tokens not yet consumed.
    pub closed spec fn toks(&self) -> Seq<TokNLoc> {
        pending_tokens(self.tokiter)
    }

    /// Between calls the peek cursor is at the first pending token.
    pub closed spec fn wf(&self) -> bool {
        peek_cursor(self.tokiter) == 0
    }

    fn new(tokens: &'a [TokNLoc]) -> (p: Parser<'a>)
        ensures
            p.wf(),
            p.toks() == tokens@,
    {
        Parser { tokiter: multipeek_tokens(tokens) }
    }

    fn next(&mut self) -> (res: Option<TokNLoc>)
        requires
            old(self).wf(),
        ensures
            final(self).wf(),
            old(self).toks().len() == 0 ==> res is None && final(self).toks() == old(self).toks(),
            old(self).toks().len() > 0 ==> res == Some(old(self).toks()[0]) && final(self).toks()
                == old(self).toks().drop_first(),
    {
        let r = multipeek_next(&mut self.tokiter);
        proof {
            if old(self).toks().len() == 0 {
                assert(self.toks() =~= old(self).toks());
            }
        }
        r
    }

    fn peek_n(&mut self, n: u8) -> (res: Option<TokNLoc>)
        requires
            old(self).wf(),
        ensures
            final(self).wf(),
            final(self).toks() == old(self).toks(),
            res == peek_at(old(self).toks(), n as nat),
    {
        let ghost s = self.toks();
        let mut p: Option<TokNLoc> = None;
        for i in 0..n
            invariant
                self.toks() == s,
                peek_cursor(self.tokiter) == (if i <= s.len() { i as nat } else { s.len() }),
                p == (if i == 0 { None } else { peek_at(s, i as nat) }),
        {
            p = multipeek_peek(&mut self.tokiter);
        }
        multipeek_reset(&mut self.tokiter);
        p
    }

    fn peek(&mut self) -> (res: Option<TokNLoc>)
        requires
            old(self).wf(),
        ensures
            final(self).wf(),
            final(self).toks() == old(self).toks(),
            res == peek_at(old(self).toks(), 1),
    {
        self.peek_n(1)
    }

    fn assert_next_token(&mut self, expected: Token, msg: &str) -> (res: Result<(), Halt>)
        requires
            old(self).wf(),
        ensures
            final(self).wf(),
            agrees(res, expect(old(self).toks(), expected, msg@), final(self).toks()),
            res is Ok ==> final(self).toks().len() < old(self).toks().len(),
    {
        let tok = match self.next() {
            Some(t) => t,
            None => return Err(Halt::OutOfTokens),
        };
        if is_same_kind(&tok.token, &expected) {
            Ok(())
        } else {
            Err(Halt::Error(mkperr(tok, msg)))
        }
    }

    fn ensure_semicolon(&mut self, msg: &str) -> (res: Result<(), Halt>)
        requires
            old(self).wf(),
        ensures
            final(self).wf(),
            agrees(res, expect_semicolon(old(self).toks(), msg@), final(self).toks()),
            res is Ok ==> final(self).toks().len() < old(self).toks().len(),
    {
        let mut m = String::from_str(msg);
        m.append(". Expected a final semicolon");
        self.assert_next_token(Token::Semicolon, m.as_str())
    }
}

impl<'a> Parser<'a> {
    fn parse_postfix_expression(&mut self) -> (res: Result<Expression, Halt>)
        requires
            old(self).wf(),
        ensures
            final(self).wf(),
            agrees(res, postfix(old(self).toks()), final(self).toks()),
            res is Ok ==> final(self).toks().len() < old(self).toks().len(),
        decreases old(self).toks().len(), 1nat,
    {
        let ghost s = self.toks();
        let tok = match self.next() {
            Some(t) => t,
            None => return Err(Halt::OutOfTokens),
        };
        match tok.token {
            Token::Lparen => {
                let subexpr = self.parse_expression()?;
                self.assert_next_token(Token::Rparen, "Missing closing parenthesis after expression")?;
                Ok(subexpr)
            },
            Token::Identifier(id) => {
                let following = match self.peek() {
                    Some(t) => t,
                    None => return Err(Halt::OutOfTokens),
                };
                match following.token {
                    Token::Increment => {
                        self.next();  // consume
                        Ok(Expression::PostfixOp(FixOp::Inc, id))
                    },
                    Token::Decrement => {
                        self.next();  // consume
                        Ok(Expression::PostfixOp(FixOp::Dec, id))
                    },
                    Token::Lparen => {
                        self.next();  // consume
                        let first = match self.peek() {
                            Some(t) => t,
                            None => return Err(Halt::OutOfTokens),
                        };
                        let args = if !matches!(first.token, Token::Rparen) {
                            self.parse_call_args()?
                        } else {
                            let v: Vec<Expression> = Vec::new();
                            assert(exprs_view(v@) =~= Seq::<SpecExpression>::empty());
                            v
                        };
                        self.assert_next_token(
                            Token::Rparen,
                            "Missing closing parenthesis function arguments",
                        )?;
                        Ok(Expression::FunctionCall(id, args))
                    },
                    _ => Ok(Expression::Variable(id)),
                }
            },
            Token::IntLiteral(v) => Ok(Expression::Constant(v)),
            _ => Err(
                Halt::Error(
                    mkperr(
                        tok,
                        "Invalid postfix expression. Expected int literal, (expr), or identifier possibly with postfix operator",
                    ),
                ),
            ),
        }
    }

    /// The arguments of a call, separated by commas, up to (not including) the `)`.
    fn parse_call_args(&mut self) -> (res: Result<Vec<Expression>, Halt>)
        requires
            old(self).wf(),
        ensures
            final(self).wf(),
            agrees_with(
                res,
                call_args(old(self).toks(), Seq::empty()),
                final(self).toks(),
                |v: Vec<Expression>| exprs_view(v@),
            ),
            res is Ok ==> final(self).toks().len() < old(self).toks().len(),
        decreases old(self).toks().len(), 42nat,
    {
        let ghost s = self.toks();
        let mut args: Vec<Expression> = Vec::new();
        assert(exprs_view(args@) =~= Seq::<SpecExpression>::empty());
        loop
            invariant
                self.wf(),
                s == old(self).toks(),
                self.toks().len() <= s.len(),
                args.len() > 0 ==> self.toks().len() < s.len(),
                call_args(s, Seq::empty()) == call_args(self.toks(), exprs_view(args@)),
            decreases self.toks().len(),
        {
            let ghost cur = self.toks();
            let ghost acc = exprs_view(args@);
            let e = self.parse_expression()?;
            proof {
                lemma_exprs_view_push(args@, e);
            }
            args.push(e);
            let tok = match self.peek() {
                Some(t) => t,
                None => return Err(Halt::OutOfTokens),
            };
            match tok.token {
                Token::Comma => {
                    self.next();  // consume
                },
                _ => return Ok(args),
            }
        }
    }

    fn parse_prefix_expression(&mut self) -> (res: Result<Expression, Halt>)
        requires
            old(self).wf(),
        ensures
            final(self).wf(),
            agrees(res, prefix(old(self).toks()), final(self).toks()),
            res is Ok ==> final(self).toks().len() < old(self).toks().len(),
        decreases old(self).toks().len(), 2nat,
    {
        let tok = match self.peek() {
            Some(t) => t,
            None => return Err(Halt::OutOfTokens),
        };
        match tok.token {
            Token::Minus => {
                self.next();  // consume
                let operand = self.parse_prefix_expression()?;
                Ok(Expression::UnaryOp(UnaryOp::Negate, Box::new(operand)))
            },
            Token::Not => {
                self.next();  // consume
                let operand = self.parse_prefix_expression()?;
                Ok(Expression::UnaryOp(UnaryOp::Not, Box::new(operand)))
            },
            Token::Complement => {
                self.next();  // consume
                let operand = self.parse_prefix_expression()?;
                Ok(Expression::UnaryOp(UnaryOp::Complement, Box::new(operand)))
            },
            Token::Increment => {
                self.next();  // consume
                let next_loc = match self.peek() {
                    Some(t) => t.location,
                    None => return Err(Halt::OutOfTokens),
                };
                let operand = self.parse_postfix_expression()?;
                if let Expression::Variable(id) = operand {
                    Ok(Expression::PrefixOp(FixOp::Inc, id))
                } else {
                    Err(
                        Halt::Error(
                            ParseError::new(
                                next_loc,
                                String::from_str(
                                    "Invalid prefix expression. Expected variable identifier after prefix increment/decrement",
                                ),
                            ),
                        ),
                    )
                }
            },
            Token::Decrement => {
                self.next();  // consume
                let next_loc = match self.peek() {
                    Some(t) => t.location,
                    None => return Err(Halt::OutOfTokens),
                };
                let operand = self.parse_postfix_expression()?;
                if let Expression::Variable(id) = operand {
                    Ok(Expression::PrefixOp(FixOp::Dec, id))
                } else {
                    Err(
                        Halt::Error(
                            ParseError::new(
                                next_loc,
                                String::from_str(
                                    "Invalid prefix expression. Expected variable identifier after prefix increment/decrement",
                                ),
                            ),
                        ),
                    )
                }
            },
            _ => self.parse_postfix_expression(),
        }
    }

    /// An operand of a binary operator of level `level`.
    fn parse_operand(&mut self, level: Level) -> (res: Result<Expression, Halt>)
        requires
            old(self).wf(),
        ensures
            final(self).wf(),
            agrees(res, operand(old(self).toks(), level), final(self).toks()),
            res is Ok ==> final(self).toks().len() < old(self).toks().len(),
        decreases old(self).toks().len(), 3 * level_index(level) + 3,
    {
        match level {
            Level::Multiplicative => self.parse_prefix_expression(),
            Level::Additive => self.parse_multiplicative_expression(),
            Level::Shift => self.parse_additive_expression(),
            Level::Relational => self.parse_shift_expression(),
            Level::Equality => self.parse_relational_expression(),
            Level::BitwiseAnd => self.parse_equality_expression(),
            Level::BitwiseXor => self.parse_bitwise_and_expression(),
            Level::BitwiseOr => self.parse_bitwise_xor_expression(),
            Level::LogicalAnd => self.parse_bitwise_or_expression(),
            Level::LogicalOr => self.parse_logical_and_expression(),
        }
    }

    /// Operands of level `level` joined by that level's operators, grouped from the left.
    fn parse_binary_expression(&mut self, level: Level) -> (res: Result<Expression, Halt>)
        requires
            old(self).wf(),
        ensures
            final(self).wf(),
            agrees(res, binary(old(self).toks(), level), final(self).toks()),
            res is Ok ==> final(self).toks().len() < old(self).toks().len(),
        decreases old(self).toks().len(), 3 * level_index(level) + 4,
    {
        let ghost s = self.toks();
        let mut operand = self.parse_operand(level)?;
        loop
            invariant
                self.wf(),
                s == old(self).toks(),
                self.toks().len() < s.len(),
                binary(s, level) == binary_tail(self.toks(), level, operand@),
            decreases self.toks().len(),
        {
            let tok = match self.peek() {
                Some(t) => t,
                None => return Ok(operand),
            };
            let optop = token_to_operation(level, &tok.token);
            if let Some(op) = optop {
                self.next();  // consume
                let next_operand = self.parse_operand(level)?;
                operand = Expression::BinaryOp(op, Box::new(operand), Box::new(next_operand));
            } else {
                return Ok(operand);
            }
        }
    }

    fn parse_multiplicative_expression(&mut self) -> (res: Result<Expression, Halt>)
        requires
            old(self).wf(),
        ensures
            final(self).wf(),
            agrees(res, binary(old(self).toks(), Level::Multiplicative), final(self).toks()),
            res is Ok ==> final(self).toks().len() < old(self).toks().len(),
        decreases old(self).toks().len(), 5nat,
    {
        self.parse_binary_expression(Level::Multiplicative)
    }

    fn parse_additive_expression(&mut self) -> (res: Result<Expression, Halt>)
        requires
            old(self).wf(),
        ensures
            final(self).wf(),
            agrees(res, binary(old(self).toks(), Level::Additive), final(self).toks()),
            res is Ok ==> final(self).toks().len() < old(self).toks().len(),
        decreases old(self).toks().len(), 8nat,
    {
        self.parse_binary_expression(Level::Additive)
    }

    fn parse_shift_expression(&mut self) -> (res: Result<Expression, Halt>)
        requires
            old(self).wf(),
        ensures
            final(self).wf(),
            agrees(res, binary(old(self).toks(), Level::Shift), final(self).toks()),
            res is Ok ==> final(self).toks().len() < old(self).toks().len(),
        decreases old(self).toks().len(), 11nat,
    {
        self.parse_binary_expression(Level::Shift)
    }

    fn parse_relational_expression(&mut self) -> (res: Result<Expression, Halt>)
        requires
            old(self).wf(),
        ensures
            final(self).wf(),
            agrees(res, binary(old(self).toks(), Level::Relational), final(self).toks()),
            res is Ok ==> final(self).toks().len() < old(self).toks().len(),
        decreases old(self).toks().len(), 14nat,
    {
        self.parse_binary_expression(Level::Relational)
    }

    fn parse_equality_expression(&mut self) -> (res: Result<Expression, Halt>)
        requires
            old(self).wf(),
        ensures
            final(self).wf(),
            agrees(res, binary(old(self).toks(), Level::Equality), final(self).toks()),
            res is Ok ==> final(self).toks().len() < old(self).toks().len(),
        decreases old(self).toks().len(), 17nat,
    {
        self.parse_binary_expression(Level::Equality)
    }

    fn parse_bitwise_and_expression(&mut self) -> (res: Result<Expression, Halt>)
        requires
            old(self).wf(),
        ensures
            final(self).wf(),
            agrees(res, binary(old(self).toks(), Level::BitwiseAnd), final(self).toks()),
            res is Ok ==> final(self).toks().len() < old(self).toks().len(),
        decreases old(self).toks().len(), 20nat,
    {
        self.parse_binary_expression(Level::BitwiseAnd)
    }

    fn parse_bitwise_xor_expression(&mut self) -> (res: Result<Expression, Halt>)
        requires
            old(self).wf(),
        ensures
            final(self).wf(),
            agrees(res, binary(old(self).toks(), Level::BitwiseXor), final(self).toks()),
            res is Ok ==> final(self).toks().len() < old(self).toks().len(),
        decreases old(self).toks().len(), 23nat,
    {
        self.parse_binary_expression(Level::BitwiseXor)
    }

    fn parse_bitwise_or_expression(&mut self) -> (res: Result<Expression, Halt>)
        requires
            old(self).wf(),
        ensures
            final(self).wf(),
            agrees(res, binary(old(self).toks(), Level::BitwiseOr), final(self).toks()),
            res is Ok ==> final(self).toks().len() < old(self).toks().len(),
        decreases old(self).toks().len(), 26nat,
    {
        self.parse_binary_expression(Level::BitwiseOr)
    }

    fn parse_logical_and_expression(&mut self) -> (res: Result<Expression, Halt>)
        requires
            old(self).wf(),
        ensures
            final(self).wf(),
            agrees(res, binary(old(self).toks(), Level::LogicalAnd), final(self).toks()),
            res is Ok ==> final(self).toks().len() < old(self).toks().len(),
        decreases old(self).toks().len(), 29nat,
    {
        self.parse_binary_expression(Level::LogicalAnd)
    }

    fn parse_logical_or_expression(&mut self) -> (res: Result<Expression, Halt>)
        requires
            old(self).wf(),
        ensures
            final(self).wf(),
            agrees(res, binary(old(self).toks(), Level::LogicalOr), final(self).toks()),
            res is Ok ==> final(self).toks().len() < old(self).toks().len(),
        decreases old(self).toks().len(), 32nat,
    {
        self.parse_binary_expression(Level::LogicalOr)
    }

    fn parse_conditional_expression(&mut self) -> (res: Result<Expression, Halt>)
        requires
            old(self).wf(),
        ensures
            final(self).wf(),
            agrees(res, conditional(old(self).toks()), final(self).toks()),
            res is Ok ==> final(self).toks().len() < old(self).toks().len(),
        decreases old(self).toks().len(), 40nat,
    {
        let loexpr = self.parse_logical_or_expression()?;
        let tok = match self.peek() {
            Some(t) => t,
            None => return Err(Halt::OutOfTokens),
        };
        if let Token::QuestionMark = tok.token {
            self.next();  // consume
            let ifexpr = self.parse_expression()?;
            self.assert_next_token(Token::Colon, "Invalid conditional statement. Expected ':'")?;
            let elseexpr = self.parse_conditional_expression()?;
            Ok(Expression::Conditional(Box::new(loexpr), Box::new(ifexpr), Box::new(elseexpr)))
        } else {
            Ok(loexpr)
        }
    }

    fn parse_expression(&mut self) -> (res: Result<Expression, Halt>)
        requires
            old(self).wf(),
        ensures
            final(self).wf(),
            agrees(res, expression(old(self).toks()), final(self).toks()),
            res is Ok ==> final(self).toks().len() < old(self).toks().len(),
        decreases old(self).toks().len(), 41nat,
    {
        let ghost s = self.toks();
        let tok = match self.peek() {
            Some(t) => t,
            None => return Err(Halt::OutOfTokens),
        };
        if let Token::Identifier(id) = tok.token {
            let second = match self.peek_n(2) {
                Some(t) => t,
                None => return Err(Halt::OutOfTokens),
            };
            let ass = token_to_assignment(&second.token);
            if let Some(asskind) = ass {
                self.next();  // consume twice
                self.next();
                assert(self.toks() =~= s.skip(2));
                let expr = self.parse_expression()?;
                return Ok(Expression::Assign(asskind, id, Box::new(expr)));
            }
        }
        self.parse_conditional_expression()
    }
}

impl<'a> Parser<'a> {
    fn parse_declaration(&mut self) -> (res: Result<Declaration, Halt>)
        requires
            old(self).wf(),
        ensures
            final(self).wf(),
            agrees(res, declaration(old(self).toks()), final(self).toks()),
            res is Ok ==> final(self).toks().len() < old(self).toks().len(),
        decreases old(self).toks().len(), 43nat,
    {
        // ensure we got a type (i.e. 'int')
        self.assert_next_token(
            Token::Keyword(Keyword::Int),
            "Invalid declaration. Expected type specifier",
        )?;
        let tok = match self.next() {
            Some(t) => t,
            None => return Err(Halt::OutOfTokens),
        };
        let id = match tok.token {
            Token::Identifier(n) => n,
            _ => {
                return Err(Halt::Error(mkperr(tok, "Invalid declaration. Expected an identifier")));
            },
        };
        // parse initialization if next token is an assignment (equals sign)
        let tok = match self.peek() {
            Some(t) => t,
            None => return Err(Halt::OutOfTokens),
        };
        let init = match tok.token {
            Token::Assignment => {
                self.next();  // consume
                Some(self.parse_expression()?)
            },
            _ => None,
        };
        // ensure last token is a semicolon
        self.ensure_semicolon("Invalid declaration")?;
        Ok(Declaration { id, init })
    }

    /// The rest of a `return` statement, after the keyword.
    fn parse_return_statement(&mut self) -> (res: Result<Statement, Halt>)
        requires
            old(self).wf(),
        ensures
            final(self).wf(),
            agrees(res, return_rest(old(self).toks()), final(self).toks()),
            res is Ok ==> final(self).toks().len() < old(self).toks().len(),
        decreases old(self).toks().len(), 44nat,
    {
        let expr = self.parse_expression()?;
        self.ensure_semicolon("Invalid return statement")?;
        Ok(Statement::Return(expr))
    }

    /// The rest of an `if` statement, after the keyword.
    fn parse_if_statement(&mut self) -> (res: Result<Statement, Halt>)
        requires
            old(self).wf(),
        ensures
            final(self).wf(),
            agrees(res, if_rest(old(self).toks()), final(self).toks()),
            res is Ok ==> final(self).toks().len() < old(self).toks().len(),
        decreases old(self).toks().len(), 44nat,
    {
        // ensure next token is '('
        self.assert_next_token(Token::Lparen, "Invalid if statement. Expected '('")?;
        let cond_expr = self.parse_expression()?;
        // ensure next token is ')'
        self.assert_next_token(
            Token::Rparen,
            "Invalid if statement. Expected ')' after condition expression",
        )?;
        let if_stmnt = self.parse_statement()?;
        let tok = match self.peek() {
            Some(t) => t,
            None => return Err(Halt::OutOfTokens),
        };
        if let Token::Keyword(Keyword::Else) = tok.token {
            self.next();  // consume
            let else_stmnt = self.parse_statement()?;
            Ok(Statement::If(cond_expr, Box::new(if_stmnt), Some(Box::new(else_stmnt))))
        } else {
            Ok(Statement::If(cond_expr, Box::new(if_stmnt), None))
        }
    }

    /// The rest of a `while` statement, after the keyword.
    fn parse_while_statement(&mut self) -> (res: Result<Statement, Halt>)
        requires
            old(self).wf(),
        ensures
            final(self).wf(),
            agrees(res, while_rest(old(self).toks()), final(self).toks()),
            res is Ok ==> final(self).toks().len() < old(self).toks().len(),
        decreases old(self).toks().len(), 44nat,
    {
        // ensure next token is '('
        self.assert_next_token(Token::Lparen, "Invalid while statement. Expected '('")?;
        let cond_expr = self.parse_expression()?;
        // ensure next token is ')'
        self.assert_next_token(
            Token::Rparen,
            "Invalid while statement. Expected ')' after condition expression",
        )?;
        let body = self.parse_statement()?;
        Ok(Statement::While(cond_expr, Box::new(body)))
    }

    /// The rest of a `do` statement, after the keyword.
    fn parse_do_statement(&mut self) -> (res: Result<Statement, Halt>)
        requires
            old(self).wf(),
        ensures
            final(self).wf(),
            agrees(res, do_rest(old(self).toks()), final(self).toks()),
            res is Ok ==> final(self).toks().len() < old(self).toks().len(),
        decreases old(self).toks().len(), 47nat,
    {
        let body = self.parse_statement()?;
        // ensure next token is 'while'
        self.assert_next_token(
            Token::Keyword(Keyword::While),
            "Invalid do-while statement. Expected 'while'",
        )?;
        // ensure next token is '('
        self.assert_next_token(Token::Lparen, "Invalid do-while statement. Expected '('")?;
        let cond_expr = self.parse_expression()?;
        // ensure next token is ')'
        self.assert_next_token(
            Token::Rparen,
            "Invalid do-while statement. Expected ')' after condition expression",
        )?;
        self.ensure_semicolon("Invalid do-while statement")?;
        Ok(Statement::DoWhile(Box::new(body), cond_expr))
    }

    /// The first clause of a `for` statement: a declaration, an empty clause, or an expression.
    fn parse_for_init(&mut self) -> (res: Result<(Option<Declaration>, Option<Expression>), Halt>)
        requires
            old(self).wf(),
        ensures
            final(self).wf(),
            agrees_with(
                res,
                for_init(old(self).toks()),
                final(self).toks(),
                |p: (Option<Declaration>, Option<Expression>)|
                    (opt_decl_view(p.0), opt_expr_view(p.1)),
            ),
            res is Ok ==> final(self).toks().len() < old(self).toks().len(),
        decreases old(self).toks().len(), 44nat,
    {
        let mut init_decl: Option<Declaration> = None;
        let mut init_expr: Option<Expression> = None;
        let tok = match self.peek() {
            Some(t) => t,
            None => return Err(Halt::OutOfTokens),
        };
        match tok.token {
            Token::Keyword(Keyword::Int) => {
                init_decl = Some(self.parse_declaration()?);
                // no need to look for ';', it is included in declaration
            },
            Token::Semicolon => {
                self.next();  // consume
            },
            _ => {
                init_expr = Some(self.parse_expression()?);
                self.ensure_semicolon("Invalid initialization expression for For statement")?;
            },
        }
        Ok((init_decl, init_expr))
    }

    /// The condition of a `for` statement and the semicolon after it.
    fn parse_for_condition(&mut self) -> (res: Result<Expression, Halt>)
        requires
            old(self).wf(),
        ensures
            final(self).wf(),
            agrees(res, for_condition(old(self).toks()), final(self).toks()),
            res is Ok ==> final(self).toks().len() < old(self).toks().len(),
        decreases old(self).toks().len(), 44nat,
    {
        let tok = match self.peek() {
            Some(t) => t,
            None => return Err(Halt::OutOfTokens),
        };
        let cond_expr = if let Token::Semicolon = tok.token {
            // no conditional expression - generate a constant '1'
            Expression::Constant(1)
        } else {
            self.parse_expression()?
        };
        self.ensure_semicolon("Invalid condition expression for ForDecl statement")?;
        Ok(cond_expr)
    }

    /// The post expression of a `for` statement, if any, and the `)` after it.
    fn parse_for_post(&mut self) -> (res: Result<Option<Expression>, Halt>)
        requires
            old(self).wf(),
        ensures
            final(self).wf(),
            agrees_with(
                res,
                for_post(old(self).toks()),
                final(self).toks(),
                |p: Option<Expression>| opt_expr_view(p),
            ),
            res is Ok ==> final(self).toks().len() < old(self).toks().len(),
        decreases old(self).toks().len(), 44nat,
    {
        let tok = match self.peek() {
            Some(t) => t,
            None => return Err(Halt::OutOfTokens),
        };
        let post_expr = if let Token::Rparen = tok.token {
            // no post_expr, Rparen read below
            None
        } else {
            let pexpr = self.parse_expression()?;
            Some(pexpr)
        };
        // ensure next token is ')'
        self.assert_next_token(
            Token::Rparen,
            "Invalid For/ForDecl statement. Expected ')' after post expression",
        )?;
        Ok(post_expr)
    }

    /// The rest of a `for` statement, after the keyword.
    fn parse_for_statement(&mut self) -> (res: Result<Statement, Halt>)
        requires
            old(self).wf(),
        ensures
            final(self).wf(),
            agrees(res, for_rest(old(self).toks()), final(self).toks()),
            res is Ok ==> final(self).toks().len() < old(self).toks().len(),
        decreases old(self).toks().len(), 45nat,
    {
        // ensure next token is '('
        self.assert_next_token(Token::Lparen, "Invalid For/ForDecl statement. Expected '('")?;
        let (init_decl, init_expr) = self.parse_for_init()?;
        let cond_expr = self.parse_for_condition()?;
        let post_expr = self.parse_for_post()?;
        let body = self.parse_statement()?;
        if let Some(decl) = init_decl {
            Ok(Statement::ForDecl(decl, cond_expr, post_expr, Box::new(body)))
        } else {
            Ok(Statement::For(init_expr, cond_expr, post_expr, Box::new(body)))
        }
    }

    fn parse_compound_statement(&mut self) -> (res: Result<Vec<BlockItem>, Halt>)
        requires
            old(self).wf(),
        ensures
            final(self).wf(),
            agrees_with(
                res,
                compound(old(self).toks()),
                final(self).toks(),
                |v: Vec<BlockItem>| items_view(v@),
            ),
            res is Ok ==> final(self).toks().len() < old(self).toks().len(),
        decreases old(self).toks().len(), 45nat,
    {
        let ghost s = self.toks();
        // ensure next token is '{'
        self.assert_next_token(Token::Lbrace, "Invalid compound statement. Expected '{{'")?;
        // parse block items
        let mut block_items: Vec<BlockItem> = Vec::new();
        assert(items_view(block_items@) =~= Seq::<SpecBlockItem>::empty());
        loop
            invariant
                self.wf(),
                s == old(self).toks(),
                self.toks().len() < s.len(),
                compound(s) == crate::grammar::block_items(self.toks(), items_view(block_items@)),
            decreases self.toks().len(),
        {
            let tok = match self.peek() {
                Some(t) => t,
                None => return Err(Halt::OutOfTokens),
            };
            if let Token::Rbrace = tok.token {
                // we know next token is '}'
                // simply consume
                self.next();
                return Ok(block_items);
            }
            let item = self.parse_block_item()?;
            proof {
                lemma_items_view_push(block_items@, item);
            }
            block_items.push(item);
        }
    }

    fn parse_statement(&mut self) -> (res: Result<Statement, Halt>)
        requires
            old(self).wf(),
        ensures
            final(self).wf(),
            agrees(res, statement(old(self).toks()), final(self).toks()),
            res is Ok ==> final(self).toks().len() < old(self).toks().len(),
        decreases old(self).toks().len(), 46nat,
    {
        let tok = match self.peek() {
            Some(t) => t,
            None => return Err(Halt::OutOfTokens),
        };
        let stmt = match tok.token {
            Token::Lbrace => {
                let comp = self.parse_compound_statement()?;
                Statement::Compound(comp)
            },
            Token::Keyword(Keyword::Return) => {
                self.next();  // consume
                self.parse_return_statement()?
            },
            Token::Keyword(Keyword::Continue) => {
                self.next();  // consume
                self.ensure_semicolon("Invalid continue statement")?;
                Statement::Continue
            },
            Token::Keyword(Keyword::Break) => {
                self.next();  // consume
                self.ensure_semicolon("Invalid break statement")?;
                Statement::Break
            },
            Token::Keyword(Keyword::If) => {
                self.next();  // consume
                self.parse_if_statement()?
            },
            Token::Keyword(Keyword::While) => {
                self.next();  // consume
                self.parse_while_statement()?
            },
            Token::Keyword(Keyword::Do) => {
                self.next();  // consume
                self.parse_do_statement()?
            },
            Token::Keyword(Keyword::For) => {
                self.next();  // consume
                self.parse_for_statement()?
            },
            Token::Semicolon => {
                self.next();  // consume
                Statement::Null
            },
            _ => {
                // then we have an expression to parse
                let expr = self.parse_expression()?;
                self.ensure_semicolon("Invalid expression statement")?;
                Statement::Expr(expr)
            },
        };
        Ok(stmt)
    }

    fn parse_block_item(&mut self) -> (res: Result<BlockItem, Halt>)
        requires
            old(self).wf(),
        ensures
            final(self).wf(),
            agrees(res, block_item(old(self).toks()), final(self).toks()),
            res is Ok ==> final(self).toks().len() < old(self).toks().len(),
        decreases old(self).toks().len(), 48nat,
    {
        let tok = match self.peek() {
            Some(t) => t,
            None => return Err(Halt::OutOfTokens),
        };
        let bkitem = match tok.token {
            Token::Keyword(Keyword::Int) => {
                let declaration = self.parse_declaration()?;
                BlockItem::Decl(declaration)
            },
            _ => {
                // then we have a statement to parse
                BlockItem::Stmt(self.parse_statement()?)
            },
        };
        Ok(bkitem)
    }
}

impl<'a> Parser<'a> {
    /// The parameter list of a function, after `(`.
    fn parse_parameters(&mut self) -> (res: Result<Vec<String>, Halt>)
        requires
            old(self).wf(),
        ensures
            final(self).wf(),
            agrees_with(
                res,
                params(old(self).toks()),
                final(self).toks(),
                |v: Vec<String>| names_view(v@),
            ),
            res is Ok ==> final(self).toks().len() <= old(self).toks().len(),
    {
        let ghost s = self.toks();
        let mut parameter_list: Vec<String> = Vec::new();
        let tok = match self.peek() {
            Some(t) => t,
            None => return Err(Halt::OutOfTokens),
        };
        if let Token::Keyword(Keyword::Int) = tok.token {
            self.next();  // consume parameter type (int)
            // read parameter id
            let tok = match self.next() {
                Some(t) => t,
                None => return Err(Halt::OutOfTokens),
            };
            match tok.token {
                Token::Identifier(id) => parameter_list.push(id),
                _ => {
                    return Err(
                        Halt::Error(mkperr(tok, "Invalid function declarator. Expected identifier")),
                    )
                },
            }
            assert(names_view(parameter_list@) =~= seq![parameter_list@[0]@]);
            loop
                invariant
                    self.wf(),
                    s == old(self).toks(),
                    self.toks().len() <= s.len(),
                    params(s) == more_params(self.toks(), names_view(parameter_list@)),
                decreases self.toks().len(),
            {
                let tok = match self.peek() {
                    Some(t) => t,
                    None => return Err(Halt::OutOfTokens),
                };
                if let Token::Comma = tok.token {
                    self.next();  // consume comma
                    // ensure next token is 'int'
                    self.assert_next_token(
                        Token::Keyword(Keyword::Int),
                        "Invalid function declarator. Expected type after comma",
                    )?;
                    let tok = match self.next() {
                        Some(t) => t,
                        None => return Err(Halt::OutOfTokens),
                    };
                    match tok.token {
                        Token::Identifier(id) => {
                            let ghost before = parameter_list@;
                            parameter_list.push(id);
                            assert(names_view(parameter_list@) =~= names_view(before).push(id@));
                        },
                        _ => {
                            return Err(
                                Halt::Error(
                                    mkperr(
                                        tok,
                                        "Invalid function parameter list. Expected identifier after type",
                                    ),
                                ),
                            );
                        },
                    }
                } else {
                    return Ok(parameter_list);
                }
            }
        } else {
            assert(names_view(parameter_list@) =~= Seq::<Seq<char>>::empty());
            Ok(parameter_list)
        }
    }

    fn parse_function(&mut self) -> (res: Result<Function, Halt>)
        requires
            old(self).wf(),
        ensures
            final(self).wf(),
            agrees(res, function(old(self).toks()), final(self).toks()),
            res is Ok ==> final(self).toks().len() < old(self).toks().len(),
    {
        // ensure first token is an Int keyword
        self.assert_next_token(
            Token::Keyword(Keyword::Int),
            "Invalid function declarator. Expected return type",
        )?;
        // next token should be an identifier
        let tok = match self.next() {
            Some(t) => t,
            None => return Err(Halt::OutOfTokens),
        };
        let function_name = match tok.token {
            Token::Identifier(ident) => ident,
            _ => {
                return Err(
                    Halt::Error(
                        mkperr(
                            tok,
                            "Invalid function declarator. Expected identifier for function name",
                        ),
                    ),
                );
            },
        };
        // ensure next token is '('
        self.assert_next_token(Token::Lparen, "Invalid function declarator. Expected '('")?;
        // parse the parameter ids
        let parameter_list = self.parse_parameters()?;
        // ensure next token is ')'
        self.assert_next_token(Token::Rparen, "Invalid function declarator. Expected ')'")?;
        let tok = match self.peek() {
            Some(t) => t,
            None => return Err(Halt::OutOfTokens),
        };
        if let Token::Semicolon = tok.token {
            self.next();  // consume semicolon
            Ok(Function::Declaration(function_name, parameter_list))
        } else {
            // parse body
            let body = self.parse_compound_statement()?;
            Ok(Function::Definition(function_name, parameter_list, body))
        }
    }

    fn parse_program(&mut self) -> (res: Result<Program, Halt>)
        requires
            old(self).wf(),
        ensures
            final(self).wf(),
            agrees(res, program(old(self).toks()), final(self).toks()),
    {
        let ghost s = self.toks();
        let mut functions: Vec<Function> = Vec::new();
        assert(functions@.map_values(|f: Function| function_view(f)) =~= Seq::<SpecFunction>::empty());
        loop
            invariant
                self.wf(),
                s == old(self).toks(),
                program(s) == crate::grammar::functions(
                    self.toks(),
                    functions@.map_values(|f: Function| function_view(f)),
                ),
            decreases self.toks().len(),
        {
            if self.peek().is_none() {
                return Ok(Program::Prog(functions));
            }
            let f = self.parse_function()?;
            let ghost before = functions@;
            functions.push(f);
            assert(functions@.map_values(|f: Function| function_view(f)) =~= before.map_values(
                |f: Function| function_view(f),
            ).push(function_view(f)));
        }
    }
}

/// How the result of `parse` follows the outcome `o` of the grammar.
pub open spec fn parse_agrees(res: Result<Program, ParseError>, o: Outcome<Seq<SpecFunction>>) -> bool {
    match o {
        Outcome::Parsed(p, _) => res matches Ok(x) && x@ == p,
        Outcome::Failed(e, _) => res matches Err(x) && x@ == e,
        Outcome::Exhausted => false,
    }
}

/// Parses a whole token sequence, as `parse` does, where the tokens are enough
/// for it: `None` where they end in the middle of a function (where `parse`
/// cannot go on).
pub fn try_parse(tokens: &[TokNLoc]) -> (res: Option<Result<Program, ParseError>>)
    ensures
        res is None <==> program(tokens@) is Exhausted,
        res matches Some(r) ==> parse_agrees(r, program(tokens@)),
{
    let mut parser = Parser::new(tokens);
    match parser.parse_program() {
        Ok(p) => Some(Ok(p)),
        Err(Halt::Error(e)) => Some(Err(e)),
        Err(Halt::OutOfTokens) => None,
    }
}

/// Parses a token sequence into a program: its functions in order, or the
/// first parse error. The tokens must not end in the middle of a function.
pub fn parse(tokens: &[TokNLoc]) -> (res: Result<Program, ParseError>)
    requires
        !(program(tokens@) is Exhausted),
    ensures
        parse_agrees(res, program(tokens@)),
{
    match try_parse(tokens) {
        Some(r) => r,
        None => {
            assert(false);
            Err(ParseError::new(0, String::new()))
        },
    }
}

} // verus!
