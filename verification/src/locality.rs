use vstd::prelude::*;
use crate::ast::{SpecBlockItem, SpecExpression};
use crate::grammar::{
    Outcome, Level, postfix, call_args, prefix, operand, binary, binary_tail, conditional,
    expression, binary_op_of, lower, declaration, return_rest, if_rest, while_rest, do_rest,
    for_init, for_condition, for_post, for_rest, statement, compound, block_items, block_item,
    more_params, params, function, program,
};
use crate::laws::{
    is_suffix, lemma_points_postfix, lemma_points_call_args, lemma_points_prefix,
    lemma_points_operand, lemma_points_binary, lemma_points_binary_tail, lemma_points_conditional,
    lemma_points_expression, lemma_points_declaration, lemma_points_return_rest,
    lemma_points_if_rest, lemma_points_while_rest, lemma_points_do_rest, lemma_points_for_init,
    lemma_points_for_condition, lemma_points_for_post, lemma_points_for_rest,
    lemma_points_statement, lemma_points_compound, lemma_points_block_items,
    lemma_points_block_item, lemma_points_more_params, lemma_points_params, lemma_points_function,
    law_program_splits_into_functions, later_pieces,
};
use crate::token::{Keyword, Token, TokNLoc};

verus! {

// ------------------------------------------------------------------
// A phrase's parse depends only on its own tokens and, for most phrases,
// on the one token after them (the token that tells the phrase has ended).
//
// Tokens `u` that end with `t` are written `retail(u, t, q)` once their tail
// `t` is replaced by `q`. Each lemma below says: where a phrase parses from
// `s` (which ends with `t`) and leaves `u` (which still ends with `t`), it
// parses the same way from `s` with its tail replaced by `q`, and leaves `u`
// with its tail replaced by `q` — provided, for phrases that look one token
// past their end, that the token after the phrase is the same in both.
// ------------------------------------------------------------------

/// `u` with its last `t.len()` tokens replaced by `q`.
pub open spec fn retail(u: Seq<TokNLoc>, t: Seq<TokNLoc>, q: Seq<TokNLoc>) -> Seq<TokNLoc> {
    u.take(u.len() - t.len()) + q
}

/// `a` and `b` both end here, or both go on with the same token.
pub open spec fn near(a: Seq<TokNLoc>, b: Seq<TokNLoc>) -> bool {
    &&& (a.len() == 0) == (b.len() == 0)
    &&& a.len() > 0 ==> a[0] == b[0]
}

/// Outcome `o2` is what outcome `o` becomes when the tail `t` of the input is
/// replaced by `q`: where `o` parsed and left tokens that still end with `t`
/// (and, if `peeks`, the token after the phrase is kept), `o2` is the same
/// phrase, leaving those tokens with the tail replaced.
pub open spec fn cuts<T>(t: Seq<TokNLoc>, q: Seq<TokNLoc>, o: Outcome<T>, o2: Outcome<T>, peeks: bool) -> bool {
    match o {
        Outcome::Parsed(x, u) => (t.len() <= u.len() && (peeks ==> near(u, retail(u, t, q))))
            ==> o2 == Outcome::Parsed(x, retail(u, t, q)),
        _ => true,
    }
}

/// What replacing the tail does to the front of a sequence that ends with `t`.
pub(crate) proof fn lemma_retail(v: Seq<TokNLoc>, t: Seq<TokNLoc>, q: Seq<TokNLoc>)
    ensures
        is_suffix(t, v) ==> {
            &&& retail(v, t, q).len() == v.len() - t.len() + q.len()
            &&& v.len() == t.len() ==> v == t && retail(v, t, q) == q
            &&& v.len() > t.len() ==> {
                &&& retail(v, t, q)[0] == v[0]
                &&& retail(v, t, q).drop_first() == retail(v.drop_first(), t, q)
                &&& is_suffix(t, v.drop_first())
                &&& near(v, retail(v, t, q))
            }
            &&& v.len() == t.len() + 1 ==> v.drop_first() == t
            &&& v.len() > t.len() + 1 ==> {
                &&& retail(v, t, q)[1] == v[1]
                &&& retail(v, t, q).skip(2) == retail(v.skip(2), t, q)
                &&& is_suffix(t, v.skip(2))
            }
            &&& (v.len() == t.len() + 1 && q.len() > 0) ==> retail(v, t, q).len() >= 2
                && retail(v, t, q)[1] == q[0]
            &&& (v.len() == t.len() + 1 && t.len() > 0) ==> v[1] == t[0]
        },
{
    if is_suffix(t, v) {
        let k = v.len() - t.len();
        assert(v =~= v.take(k) + t);
        if v.len() == t.len() {
            assert(retail(v, t, q) =~= q);
        }
        if v.len() > t.len() {
            assert(retail(v, t, q).drop_first() =~= retail(v.drop_first(), t, q));
            assert(t =~= v.drop_first().skip(v.drop_first().len() - t.len()));
        }
        if v.len() == t.len() + 1 {
            assert(v.drop_first() =~= t);
        }
        if v.len() > t.len() + 1 {
            assert(retail(v, t, q).skip(2) =~= retail(v.skip(2), t, q));
            assert(t =~= v.skip(2).skip(v.skip(2).len() - t.len()));
        }
    }
}

/// A tail of `r` that is no longer than a tail `v` of `r` is a tail of `v`.
pub(crate) proof fn lemma_between(t: Seq<TokNLoc>, v: Seq<TokNLoc>, r: Seq<TokNLoc>)
    ensures
        (is_suffix(t, r) && is_suffix(v, r) && t.len() <= v.len()) ==> is_suffix(t, v),
{
    if is_suffix(t, r) && is_suffix(v, r) && t.len() <= v.len() {
        assert(t =~= v.skip(v.len() - t.len()));
    }
}

proof fn lemma_cut_postfix(s: Seq<TokNLoc>, t: Seq<TokNLoc>, q: Seq<TokNLoc>)
    ensures
        is_suffix(t, s) ==> cuts(t, q, postfix(s), postfix(retail(s, t, q)), true),
    decreases s.len(), 1nat,
{
    lemma_points_postfix(s);
    lemma_retail(s, t, q);
    lemma_retail(t, t, q);
    if is_suffix(t, s) && s.len() > t.len() {
        let r = s.drop_first();
        lemma_retail(r, t, q);
        match s[0].token {
            Token::Lparen => {
                lemma_points_expression(r);
                lemma_cut_expression(r, t, q);
                if let Outcome::Parsed(e, v) = expression(r) {
                    lemma_between(t, v, r);
                    lemma_retail(v, t, q);
                }
            },
            Token::Identifier(id) => {
                if r.len() > 0 && r[0].token is Lparen {
                    let w = r.drop_first();
                    lemma_retail(w, t, q);
                    if w.len() > 0 && !(w[0].token is Rparen) {
                        lemma_points_call_args(w, Seq::empty());
                        lemma_cut_call_args(w, Seq::empty(), t, q);
                        if let Outcome::Parsed(a, v) = call_args(w, Seq::empty()) {
                            lemma_between(t, v, w);
                            lemma_retail(v, t, q);
                        }
                    }
                }
            },
            _ => {},
        }
    }
}

proof fn lemma_cut_call_args(
    w: Seq<TokNLoc>,
    acc: Seq<SpecExpression>,
    t: Seq<TokNLoc>,
    q: Seq<TokNLoc>,
)
    ensures
        is_suffix(t, w) ==> cuts(t, q, call_args(w, acc), call_args(retail(w, t, q), acc), true),
    decreases w.len(), 25nat,
{
    lemma_retail(t, t, q);
    lemma_points_expression(w);
    lemma_cut_expression(w, t, q);
    if is_suffix(t, w) {
        if let Outcome::Parsed(e, v) = expression(w) {
            if v.len() > 0 && v[0].token is Comma && v.len() < w.len() {
                let n = v.drop_first();
                lemma_points_call_args(n, acc.push(e));
                lemma_between(t, v, w);
                lemma_retail(v, t, q);
                lemma_cut_call_args(n, acc.push(e), t, q);
            } else {
                lemma_between(t, v, w);
                lemma_retail(v, t, q);
            }
        }
    }
}

proof fn lemma_cut_prefix(s: Seq<TokNLoc>, t: Seq<TokNLoc>, q: Seq<TokNLoc>)
    ensures
        is_suffix(t, s) ==> cuts(t, q, prefix(s), prefix(retail(s, t, q)), true),
    decreases s.len(), 2nat,
{
    lemma_points_prefix(s);
    lemma_retail(s, t, q);
    lemma_retail(t, t, q);
    if is_suffix(t, s) && s.len() > t.len() {
        let r = s.drop_first();
        lemma_retail(r, t, q);
        match s[0].token {
            Token::Minus => lemma_cut_prefix(r, t, q),
            Token::Not => lemma_cut_prefix(r, t, q),
            Token::Complement => lemma_cut_prefix(r, t, q),
            Token::Increment => {
                lemma_points_postfix(r);
                lemma_cut_postfix(r, t, q);
            },
            Token::Decrement => {
                lemma_points_postfix(r);
                lemma_cut_postfix(r, t, q);
            },
            _ => lemma_cut_postfix(s, t, q),
        }
    }
}

proof fn lemma_cut_operand(s: Seq<TokNLoc>, l: Level, t: Seq<TokNLoc>, q: Seq<TokNLoc>)
    ensures
        is_suffix(t, s) ==> cuts(t, q, operand(s, l), operand(retail(s, t, q), l), true),
    decreases s.len(), 2 * crate::grammar::level_index(l) + 3,
{
    match l {
        Level::Multiplicative => lemma_cut_prefix(s, t, q),
        _ => lemma_cut_binary(s, lower(l), t, q),
    }
}

proof fn lemma_cut_binary(s: Seq<TokNLoc>, l: Level, t: Seq<TokNLoc>, q: Seq<TokNLoc>)
    ensures
        is_suffix(t, s) ==> cuts(t, q, binary(s, l), binary(retail(s, t, q), l), true),
    decreases s.len(), 2 * crate::grammar::level_index(l) + 4,
{
    lemma_retail(s, t, q);
    lemma_retail(t, t, q);
    lemma_points_operand(s, l);
    lemma_cut_operand(s, l, t, q);
    if is_suffix(t, s) {
        if let Outcome::Parsed(e, v) = operand(s, l) {
            if v.len() < s.len() {
                lemma_between(t, v, s);
                lemma_retail(v, t, q);
                lemma_points_binary_tail(v, l, e);
                lemma_cut_binary_tail(v, l, e, t, q);
            }
        }
    }
}

proof fn lemma_cut_binary_tail(
    v: Seq<TokNLoc>,
    l: Level,
    lhs: SpecExpression,
    t: Seq<TokNLoc>,
    q: Seq<TokNLoc>,
)
    ensures
        is_suffix(t, v) ==> cuts(
            t,
            q,
            binary_tail(v, l, lhs),
            binary_tail(retail(v, t, q), l, lhs),
            true,
        ),
    decreases v.len(), 2 * crate::grammar::level_index(l) + 4,
{
    lemma_retail(v, t, q);
    lemma_retail(t, t, q);
    if is_suffix(t, v) && v.len() > 0 {
        if let Some(op) = binary_op_of(l, v[0].token) {
            let r = v.drop_first();
            lemma_points_operand(r, l);
            if v.len() > t.len() {
                lemma_retail(r, t, q);
                lemma_cut_operand(r, l, t, q);
            }
            if let Outcome::Parsed(rhs, u) = operand(r, l) {
                if u.len() < v.len() {
                    let next = SpecExpression::BinaryOp(op, Box::new(lhs), Box::new(rhs));
                    lemma_points_binary_tail(u, l, next);
                    if v.len() > t.len() {
                        lemma_between(t, u, r);
                        lemma_retail(u, t, q);
                        lemma_cut_binary_tail(u, l, next, t, q);
                    }
                }
            }
        }
    }
}

proof fn lemma_cut_conditional(s: Seq<TokNLoc>, t: Seq<TokNLoc>, q: Seq<TokNLoc>)
    ensures
        is_suffix(t, s) ==> cuts(t, q, conditional(s), conditional(retail(s, t, q)), true),
    decreases s.len(), 23nat,
{
    lemma_retail(s, t, q);
    lemma_retail(t, t, q);
    lemma_points_binary(s, Level::LogicalOr);
    lemma_cut_binary(s, Level::LogicalOr, t, q);
    if is_suffix(t, s) {
        if let Outcome::Parsed(c, v) = binary(s, Level::LogicalOr) {
            lemma_between(t, v, s);
            lemma_retail(v, t, q);
            if v.len() > 0 && v[0].token is QuestionMark && v.len() < s.len() {
                let w1 = v.drop_first();
                lemma_points_expression(w1);
                if let Outcome::Parsed(a, w2) = expression(w1) {
                    if w2.len() > 0 && w2[0].token is Colon {
                        let w3 = w2.drop_first();
                        if w3.len() < s.len() {
                            lemma_points_conditional(w3);
                            lemma_between(t, v, s);
                            lemma_retail(v, t, q);
                            lemma_retail(w1, t, q);
                            lemma_cut_expression(w1, t, q);
                            lemma_between(t, w2, w1);
                            lemma_retail(w2, t, q);
                            lemma_retail(w3, t, q);
                            lemma_cut_conditional(w3, t, q);
                        }
                    }
                }
            }
        }
    }
}

proof fn lemma_cut_expression(s: Seq<TokNLoc>, t: Seq<TokNLoc>, q: Seq<TokNLoc>)
    ensures
        is_suffix(t, s) ==> cuts(t, q, expression(s), expression(retail(s, t, q)), true),
    decreases s.len(), 24nat,
{
    lemma_retail(s, t, q);
    lemma_retail(t, t, q);
    lemma_points_expression(s);
    if is_suffix(t, s) && s.len() > 0 {
        if s[0].token is Identifier && s.len() >= 2 {
            if s.len() > t.len() + 1 {
                lemma_points_expression(s.skip(2));
                lemma_cut_expression(s.skip(2), t, q);
            } else {
                lemma_points_expression(s.skip(2));
            }
        }
        lemma_cut_conditional(s, t, q);
    }
}

/// An expression followed by more tokens, parsed from `v`: where the
/// expression leaves `w`, `w` and its replaced form are as the lemmas need.
proof fn lemma_cut_expression_then(v: Seq<TokNLoc>, t: Seq<TokNLoc>, q: Seq<TokNLoc>)
    ensures
        is_suffix(t, v) ==> cuts(t, q, expression(v), expression(retail(v, t, q)), true),
        expression(v) is Parsed ==> expression(v)->Parsed_1.len() < v.len(),
        is_suffix(t, v) && expression(v) is Parsed ==> {
            let w = expression(v)->Parsed_1;
            t.len() <= w.len() ==> is_suffix(t, w)
        },
{
    lemma_points_expression(v);
    lemma_cut_expression(v, t, q);
    if let Outcome::Parsed(e, w) = expression(v) {
        lemma_between(t, w, v);
    }
}

proof fn lemma_cut_declaration(s: Seq<TokNLoc>, t: Seq<TokNLoc>, q: Seq<TokNLoc>)
    ensures
        is_suffix(t, s) ==> cuts(t, q, declaration(s), declaration(retail(s, t, q)), true),
    decreases s.len(), 26nat,
{
    lemma_points_declaration(s);
    lemma_retail(s, t, q);
    lemma_retail(t, t, q);
    if is_suffix(t, s) && s.len() > 0 && s[0].token == Token::Keyword(Keyword::Int) {
        let t1 = s.drop_first();
        lemma_retail(t1, t, q);
        if t1.len() > 0 && t1[0].token is Identifier {
            let u1 = t1.drop_first();
            lemma_retail(u1, t, q);
            if u1.len() > 0 && u1[0].token is Assignment {
                let w0 = u1.drop_first();
                lemma_retail(w0, t, q);
                lemma_cut_expression_then(w0, t, q);
                if let Outcome::Parsed(e, w) = expression(w0) {
                    lemma_retail(w, t, q);
                }
            }
        }
    }
}

proof fn lemma_cut_return_rest(r: Seq<TokNLoc>, t: Seq<TokNLoc>, q: Seq<TokNLoc>)
    ensures
        is_suffix(t, r) ==> cuts(t, q, return_rest(r), return_rest(retail(r, t, q)), true),
    decreases r.len(), 27nat,
{
    lemma_retail(t, t, q);
    lemma_cut_expression_then(r, t, q);
    if let Outcome::Parsed(e, v) = expression(r) {
        lemma_retail(v, t, q);
    }
}

proof fn lemma_cut_if_rest(r: Seq<TokNLoc>, t: Seq<TokNLoc>, q: Seq<TokNLoc>)
    ensures
        is_suffix(t, r) ==> cuts(t, q, if_rest(r), if_rest(retail(r, t, q)), true),
    decreases r.len(), 27nat,
{
    lemma_points_if_rest(r);
    lemma_retail(r, t, q);
    lemma_retail(t, t, q);
    if is_suffix(t, r) && r.len() > 0 && r[0].token is Lparen {
        let t1 = r.drop_first();
        lemma_retail(t1, t, q);
        lemma_cut_expression_then(t1, t, q);
        if let Outcome::Parsed(c, v2) = expression(t1) {
            lemma_retail(v2, t, q);
            if v2.len() > 0 && v2[0].token is Rparen {
                let t3 = v2.drop_first();
                if t3.len() < r.len() {
                    lemma_retail(t3, t, q);
                    lemma_points_statement(t3);
                    lemma_cut_statement(t3, t, q);
                    if let Outcome::Parsed(a, t4) = statement(t3) {
                        lemma_between(t, t4, t3);
                        lemma_retail(t4, t, q);
                        if t4.len() > 0 && t4[0].token == Token::Keyword(Keyword::Else) && t4.len()
                            < r.len() {
                            let t5 = t4.drop_first();
                            lemma_retail(t5, t, q);
                            lemma_points_statement(t5);
                            lemma_cut_statement(t5, t, q);
                        }
                    }
                }
            }
        }
    }
}

proof fn lemma_cut_while_rest(r: Seq<TokNLoc>, t: Seq<TokNLoc>, q: Seq<TokNLoc>)
    ensures
        is_suffix(t, r) ==> cuts(t, q, while_rest(r), while_rest(retail(r, t, q)), true),
    decreases r.len(), 27nat,
{
    lemma_points_while_rest(r);
    lemma_retail(r, t, q);
    lemma_retail(t, t, q);
    if is_suffix(t, r) && r.len() > 0 && r[0].token is Lparen {
        let t1 = r.drop_first();
        lemma_retail(t1, t, q);
        lemma_cut_expression_then(t1, t, q);
        if let Outcome::Parsed(c, v2) = expression(t1) {
            lemma_retail(v2, t, q);
            if v2.len() > 0 && v2[0].token is Rparen {
                let t3 = v2.drop_first();
                if t3.len() < r.len() {
                    lemma_retail(t3, t, q);
                    lemma_points_statement(t3);
                    lemma_cut_statement(t3, t, q);
                }
            }
        }
    }
}

proof fn lemma_cut_do_rest(r: Seq<TokNLoc>, t: Seq<TokNLoc>, q: Seq<TokNLoc>)
    ensures
        is_suffix(t, r) ==> cuts(t, q, do_rest(r), do_rest(retail(r, t, q)), true),
    decreases r.len(), 30nat,
{
    lemma_points_do_rest(r);
    lemma_retail(r, t, q);
    lemma_retail(t, t, q);
    if is_suffix(t, r) {
        lemma_points_statement(r);
        lemma_cut_statement(r, t, q);
        if let Outcome::Parsed(b, t1) = statement(r) {
            lemma_between(t, t1, r);
            lemma_retail(t1, t, q);
            if t1.len() > 1 && t1[0].token == Token::Keyword(Keyword::While) {
                let t2 = t1.drop_first();
                lemma_retail(t2, t, q);
                let t3 = t2.drop_first();
                if t2[0].token is Lparen && t3.len() < r.len() {
                    lemma_retail(t3, t, q);
                    lemma_cut_expression_then(t3, t, q);
                    if let Outcome::Parsed(c, t4) = expression(t3) {
                        lemma_retail(t4, t, q);
                        if t4.len() > 0 {
                            lemma_retail(t4.drop_first(), t, q);
                        }
                    }
                }
            }
        }
    }
}

proof fn lemma_cut_for_init(v: Seq<TokNLoc>, t: Seq<TokNLoc>, q: Seq<TokNLoc>)
    ensures
        is_suffix(t, v) ==> cuts(t, q, for_init(v), for_init(retail(v, t, q)), true),
    decreases v.len(), 27nat,
{
    lemma_points_for_init(v);
    lemma_retail(v, t, q);
    lemma_retail(t, t, q);
    if is_suffix(t, v) && v.len() > 0 {
        if v[0].token == Token::Keyword(Keyword::Int) {
            lemma_cut_declaration(v, t, q);
        } else if !(v[0].token is Semicolon) {
            lemma_cut_expression_then(v, t, q);
            if let Outcome::Parsed(e, w) = expression(v) {
                lemma_retail(w, t, q);
            }
        }
    }
}

proof fn lemma_cut_for_condition(v: Seq<TokNLoc>, t: Seq<TokNLoc>, q: Seq<TokNLoc>)
    ensures
        is_suffix(t, v) ==> cuts(t, q, for_condition(v), for_condition(retail(v, t, q)), true),
    decreases v.len(), 27nat,
{
    lemma_points_for_condition(v);
    lemma_retail(v, t, q);
    lemma_retail(t, t, q);
    if is_suffix(t, v) && v.len() > 0 && !(v[0].token is Semicolon) {
        lemma_cut_expression_then(v, t, q);
        if let Outcome::Parsed(e, w) = expression(v) {
            lemma_retail(w, t, q);
        }
    }
}

proof fn lemma_cut_for_post(v: Seq<TokNLoc>, t: Seq<TokNLoc>, q: Seq<TokNLoc>)
    ensures
        is_suffix(t, v) ==> cuts(t, q, for_post(v), for_post(retail(v, t, q)), true),
    decreases v.len(), 27nat,
{
    lemma_points_for_post(v);
    lemma_retail(v, t, q);
    lemma_retail(t, t, q);
    if is_suffix(t, v) && v.len() > 0 && !(v[0].token is Rparen) {
        lemma_cut_expression_then(v, t, q);
        if let Outcome::Parsed(e, w) = expression(v) {
            lemma_retail(w, t, q);
        }
    }
}

proof fn lemma_cut_for_rest(r: Seq<TokNLoc>, t: Seq<TokNLoc>, q: Seq<TokNLoc>)
    ensures
        is_suffix(t, r) ==> cuts(t, q, for_rest(r), for_rest(retail(r, t, q)), true),
    decreases r.len(), 28nat,
{
    lemma_points_for_rest(r);
    lemma_retail(r, t, q);
    lemma_retail(t, t, q);
    if is_suffix(t, r) && r.len() > 0 && r[0].token is Lparen {
        let t1 = r.drop_first();
        lemma_retail(t1, t, q);
        lemma_points_for_init(t1);
        lemma_cut_for_init(t1, t, q);
        if let Outcome::Parsed(init, t2) = for_init(t1) {
            if t2.len() < r.len() {
                lemma_between(t, t2, t1);
                lemma_retail(t2, t, q);
                lemma_points_for_condition(t2);
                lemma_cut_for_condition(t2, t, q);
                if let Outcome::Parsed(c, t3) = for_condition(t2) {
                    if t3.len() < r.len() {
                        lemma_between(t, t3, t2);
                        lemma_retail(t3, t, q);
                        lemma_points_for_post(t3);
                        lemma_cut_for_post(t3, t, q);
                        if let Outcome::Parsed(post, t4) = for_post(t3) {
                            if t4.len() < r.len() {
                                lemma_between(t, t4, t3);
                                lemma_retail(t4, t, q);
                                lemma_points_statement(t4);
                                lemma_cut_statement(t4, t, q);
                            }
                        }
                    }
                }
            }
        }
    }
}

proof fn lemma_cut_statement(s: Seq<TokNLoc>, t: Seq<TokNLoc>, q: Seq<TokNLoc>)
    ensures
        is_suffix(t, s) ==> cuts(t, q, statement(s), statement(retail(s, t, q)), true),
    decreases s.len(), 29nat,
{
    lemma_points_statement(s);
    lemma_retail(s, t, q);
    lemma_retail(t, t, q);
    if is_suffix(t, s) && s.len() > 0 {
        let r = s.drop_first();
        lemma_retail(r, t, q);
        match s[0].token {
            Token::Lbrace => lemma_cut_compound(s, t, q),
            Token::Keyword(Keyword::Return) => lemma_cut_return_rest(r, t, q),
            Token::Keyword(Keyword::If) => lemma_cut_if_rest(r, t, q),
            Token::Keyword(Keyword::While) => lemma_cut_while_rest(r, t, q),
            Token::Keyword(Keyword::Do) => lemma_cut_do_rest(r, t, q),
            Token::Keyword(Keyword::For) => lemma_cut_for_rest(r, t, q),
            Token::Keyword(Keyword::Continue) => {},
            Token::Keyword(Keyword::Break) => {},
            Token::Semicolon => {},
            _ => {
                lemma_cut_expression_then(s, t, q);
                if let Outcome::Parsed(e, w) = expression(s) {
                    lemma_retail(w, t, q);
                }
            },
        }
    }
}

proof fn lemma_cut_compound(s: Seq<TokNLoc>, t: Seq<TokNLoc>, q: Seq<TokNLoc>)
    ensures
        is_suffix(t, s) ==> cuts(t, q, compound(s), compound(retail(s, t, q)), false),
    decreases s.len(), 28nat,
{
    lemma_points_compound(s);
    lemma_retail(s, t, q);
    if is_suffix(t, s) && s.len() > 0 && s[0].token is Lbrace {
        let r = s.drop_first();
        lemma_retail(r, t, q);
        lemma_cut_block_items(r, Seq::empty(), t, q);
    }
}

proof fn lemma_cut_block_items(
    v: Seq<TokNLoc>,
    acc: Seq<SpecBlockItem>,
    t: Seq<TokNLoc>,
    q: Seq<TokNLoc>,
)
    ensures
        is_suffix(t, v) ==> cuts(t, q, block_items(v, acc), block_items(retail(v, t, q), acc), false),
    decreases v.len(), 31nat,
{
    lemma_points_block_items(v, acc);
    lemma_retail(v, t, q);
    if is_suffix(t, v) && v.len() > 0 && !(v[0].token is Rbrace) {
        lemma_points_block_item(v);
        lemma_cut_block_item(v, t, q);
        if let Outcome::Parsed(b, w) = block_item(v) {
            if w.len() < v.len() {
                lemma_points_block_items(w, acc.push(b));
                lemma_between(t, w, v);
                lemma_retail(w, t, q);
                lemma_cut_block_items(w, acc.push(b), t, q);
            }
        }
    }
}

proof fn lemma_cut_block_item(v: Seq<TokNLoc>, t: Seq<TokNLoc>, q: Seq<TokNLoc>)
    ensures
        is_suffix(t, v) ==> cuts(t, q, block_item(v), block_item(retail(v, t, q)), true),
    decreases v.len(), 30nat,
{
    lemma_points_block_item(v);
    lemma_retail(v, t, q);
    if is_suffix(t, v) && v.len() > 0 {
        if v[0].token == Token::Keyword(Keyword::Int) {
            lemma_cut_declaration(v, t, q);
        } else {
            lemma_cut_statement(v, t, q);
        }
    }
}

proof fn lemma_cut_more_params(v: Seq<TokNLoc>, acc: Seq<Seq<char>>, t: Seq<TokNLoc>, q: Seq<TokNLoc>)
    ensures
        is_suffix(t, v) ==> cuts(t, q, more_params(v, acc), more_params(retail(v, t, q), acc), true),
    decreases v.len(),
{
    lemma_points_more_params(v, acc);
    lemma_retail(v, t, q);
    lemma_retail(t, t, q);
    if is_suffix(t, v) && v.len() > 0 && v[0].token is Comma {
        let r = v.drop_first();
        lemma_retail(r, t, q);
        if r.len() > 0 && r[0].token == Token::Keyword(Keyword::Int) {
            let u1 = r.drop_first();
            lemma_retail(u1, t, q);
            if u1.len() > 0 {
                if let Token::Identifier(id) = u1[0].token {
                    let n = u1.drop_first();
                    lemma_retail(n, t, q);
                    lemma_points_more_params(n, acc.push(id@));
                    lemma_cut_more_params(n, acc.push(id@), t, q);
                }
            }
        }
    }
}

proof fn lemma_cut_params(w: Seq<TokNLoc>, t: Seq<TokNLoc>, q: Seq<TokNLoc>)
    ensures
        is_suffix(t, w) ==> cuts(t, q, params(w), params(retail(w, t, q)), true),
{
    lemma_points_params(w);
    lemma_retail(w, t, q);
    lemma_retail(t, t, q);
    if is_suffix(t, w) && w.len() > 0 && w[0].token == Token::Keyword(Keyword::Int) {
        let v = w.drop_first();
        lemma_retail(v, t, q);
        if v.len() > 0 {
            if let Token::Identifier(id) = v[0].token {
                let n = v.drop_first();
                lemma_retail(n, t, q);
                lemma_points_more_params(n, seq![id@]);
                lemma_cut_more_params(n, seq![id@], t, q);
            }
        }
    }
}

proof fn lemma_cut_function(s: Seq<TokNLoc>, t: Seq<TokNLoc>, q: Seq<TokNLoc>)
    ensures
        is_suffix(t, s) ==> cuts(t, q, function(s), function(retail(s, t, q)), false),
{
    lemma_points_function(s);
    lemma_retail(s, t, q);
    if is_suffix(t, s) && s.len() > 0 && s[0].token == Token::Keyword(Keyword::Int) {
        let t1 = s.drop_first();
        lemma_retail(t1, t, q);
        if t1.len() > 0 && t1[0].token is Identifier {
            let w0 = t1.drop_first();
            lemma_retail(w0, t, q);
            if w0.len() > 0 && w0[0].token is Lparen {
                let w = w0.drop_first();
                lemma_retail(w, t, q);
                lemma_points_params(w);
                if let Outcome::Parsed(ps, x) = params(w) {
                    if x.len() > 0 && x[0].token is Rparen {
                        let y = x.drop_first();
                        if y.len() > 0 && !(y[0].token is Semicolon) {
                            lemma_points_compound(y);
                        }
                        lemma_between(t, x, w);
                        lemma_retail(x, t, q);
                        lemma_cut_params(w, t, q);
                        lemma_retail(y, t, q);
                        if y.len() > 0 && !(y[0].token is Semicolon) {
                            lemma_cut_compound(y, t, q);
                        }
                    }
                }
            }
        }
    }
}

/// A function's parse never looks past its last token: where tokens `c`
/// followed by `t` parse as a function that leaves exactly `t`, `c` followed
/// by any other tokens `q` parses as the same function and leaves `q`.
pub proof fn law_function_ignores_what_follows(c: Seq<TokNLoc>, t: Seq<TokNLoc>, q: Seq<TokNLoc>)
    requires
        function(c + t) matches Outcome::Parsed(_, r) && r == t,
    ensures
        function(c + q) == Outcome::Parsed(function(c + t)->Parsed_0, q),
{
    let s = c + t;
    assert(t =~= s.skip(s.len() - t.len()));
    lemma_cut_function(s, t, q);
    lemma_retail(t, t, q);
    assert(retail(s, t, q) =~= c + q);
}

/// A program that parses splits into consecutive pieces of its tokens, one
/// for each of its functions and in their order, and each piece, taken alone,
/// parses as its function and uses all its tokens.
pub proof fn law_program_pieces_parse_alone(tokens: Seq<TokNLoc>) -> (pieces: Seq<Seq<TokNLoc>>)
    requires
        program(tokens) is Parsed,
    ensures
        pieces.len() == program(tokens)->Parsed_0.len(),
        pieces.flatten() == tokens,
        forall|k: int| 0 <= k < pieces.len() ==> #[trigger] function(pieces[k]) == Outcome::Parsed(
            program(tokens)->Parsed_0[k],
            Seq::<TokNLoc>::empty(),
        ),
{
    let pieces = law_program_splits_into_functions(tokens);
    assert forall|k: int| 0 <= k < pieces.len() implies #[trigger] function(pieces[k])
        == Outcome::Parsed(program(tokens)->Parsed_0[k], Seq::<TokNLoc>::empty()) by {
        law_function_ignores_what_follows(pieces[k], later_pieces(pieces, k), Seq::empty());
        assert(pieces[k] + Seq::<TokNLoc>::empty() =~= pieces[k]);
    }
    pieces
}

} // verus!
