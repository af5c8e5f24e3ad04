use vstd::prelude::*;
use crate::ast::{SpecBlockItem, SpecExpression, SpecFunction};
use crate::grammar::{
    Outcome, Level, postfix, call_args, prefix, operand, binary, binary_tail, conditional,
    expression, declaration, return_rest, if_rest, while_rest, do_rest, for_init, for_condition,
    for_post, for_rest, statement, compound, block_items, block_item, more_params, params,
    function, functions, program, binary_op_of, lower, expect,
};
use crate::token::{Keyword, Token, TokNLoc};

verus! {

// ------------------------------------------------------------------
// Appending tokens after a phrase
// ------------------------------------------------------------------

/// Dropping the first token of a concatenation drops it from the first part.
pub broadcast proof fn lemma_drop_first_of_concat(a: Seq<TokNLoc>, b: Seq<TokNLoc>)
    requires
        a.len() > 0,
    ensures
        #[trigger] (a + b).drop_first() == a.drop_first() + b,
{
    assert((a + b).drop_first() =~= a.drop_first() + b);
}

/// Skipping two tokens of a concatenation skips them in the first part.
pub broadcast proof fn lemma_skip_two_of_concat(a: Seq<TokNLoc>, b: Seq<TokNLoc>)
    requires
        a.len() >= 2,
    ensures
        #[trigger] (a + b).skip(2) == a.skip(2) + b,
{
    assert((a + b).skip(2) =~= a.skip(2) + b);
}

/// `o2` is what outcome `o1` becomes when the tokens `q` are appended to the
/// input: the same error with the tokens left extended with `q`, or (where the phrase did not end at the end of the
/// input, or `closed` says that it never needs to look past its end) the same
/// phrase followed by the rest extended with `q`.
pub open spec fn extends<T>(o1: Outcome<T>, o2: Outcome<T>, q: Seq<TokNLoc>, closed: bool) -> bool {
    match o1 {
        Outcome::Parsed(v, r) => (closed || r.len() > 0) ==> o2 == Outcome::Parsed(v, r + q),
        Outcome::Failed(e, r) => o2 == Outcome::<T>::Failed(e, r + q),
        Outcome::Exhausted => true,
    }
}

proof fn lemma_extend_postfix(s: Seq<TokNLoc>, q: Seq<TokNLoc>)
    ensures
        extends(postfix(s), postfix(s + q), q, true),
    decreases s.len(), 1nat,
{
    broadcast use lemma_drop_first_of_concat;

    if s.len() > 0 {
        let r = s.drop_first();
        match s[0].token {
            Token::Lparen => {
                lemma_extend_expression(r, q);
            },
            Token::Identifier(id) => {
                if r.len() > 0 {
                    if r[0].token is Lparen {
                        let t = r.drop_first();
                        if t.len() > 0 && !(t[0].token is Rparen) {
                            lemma_extend_call_args(t, Seq::empty(), q);
                        }
                    }
                }
            },
            _ => {},
        }
    }
}

proof fn lemma_extend_call_args(t: Seq<TokNLoc>, acc: Seq<SpecExpression>, q: Seq<TokNLoc>)
    ensures
        extends(call_args(t, acc), call_args(t + q, acc), q, true),
    decreases t.len(), 25nat,
{
    broadcast use lemma_drop_first_of_concat;

    lemma_extend_expression(t, q);
    if let Outcome::Parsed(e, u) = expression(t) {
        if u.len() > 0 && u[0].token is Comma && u.len() < t.len() {
            lemma_extend_call_args(u.drop_first(), acc.push(e), q);
        }
    }
}

proof fn lemma_extend_prefix(s: Seq<TokNLoc>, q: Seq<TokNLoc>)
    ensures
        extends(prefix(s), prefix(s + q), q, true),
    decreases s.len(), 2nat,
{
    broadcast use lemma_drop_first_of_concat;

    if s.len() > 0 {
        let r = s.drop_first();
        match s[0].token {
            Token::Minus => lemma_extend_prefix(r, q),
            Token::Not => lemma_extend_prefix(r, q),
            Token::Complement => lemma_extend_prefix(r, q),
            Token::Increment => lemma_extend_postfix(r, q),
            Token::Decrement => lemma_extend_postfix(r, q),
            _ => lemma_extend_postfix(s, q),
        }
    }
}

proof fn lemma_extend_operand(s: Seq<TokNLoc>, l: Level, q: Seq<TokNLoc>)
    ensures
        extends(operand(s, l), operand(s + q, l), q, l == Level::Multiplicative),
    decreases s.len(), 2 * crate::grammar::level_index(l) + 3,
{
    match l {
        Level::Multiplicative => lemma_extend_prefix(s, q),
        _ => lemma_extend_binary(s, lower(l), q),
    }
}

proof fn lemma_extend_binary(s: Seq<TokNLoc>, l: Level, q: Seq<TokNLoc>)
    ensures
        extends(binary(s, l), binary(s + q, l), q, false),
    decreases s.len(), 2 * crate::grammar::level_index(l) + 4,
{
    lemma_extend_operand(s, l, q);
    if let Outcome::Parsed(e, t) = operand(s, l) {
        if t.len() < s.len() {
            lemma_extend_binary_tail(t, l, e, q);
        }
    }
}

proof fn lemma_extend_binary_tail(t: Seq<TokNLoc>, l: Level, lhs: SpecExpression, q: Seq<TokNLoc>)
    ensures
        extends(binary_tail(t, l, lhs), binary_tail(t + q, l, lhs), q, false),
    decreases t.len(), 2 * crate::grammar::level_index(l) + 4,
{
    broadcast use lemma_drop_first_of_concat;

    if t.len() > 0 {
        if let Some(op) = binary_op_of(l, t[0].token) {
            lemma_extend_operand(t.drop_first(), l, q);
            if let Outcome::Parsed(rhs, u) = operand(t.drop_first(), l) {
                if u.len() < t.len() {
                    lemma_extend_binary_tail(
                        u,
                        l,
                        SpecExpression::BinaryOp(op, Box::new(lhs), Box::new(rhs)),
                        q,
                    );
                }
            }
        }
    }
}

proof fn lemma_extend_conditional(s: Seq<TokNLoc>, q: Seq<TokNLoc>)
    ensures
        extends(conditional(s), conditional(s + q), q, false),
    decreases s.len(), 23nat,
{
    broadcast use lemma_drop_first_of_concat;

    lemma_extend_binary(s, Level::LogicalOr, q);
    if let Outcome::Parsed(c, t) = binary(s, Level::LogicalOr) {
        if t.len() > 0 && t[0].token is QuestionMark && t.len() < s.len() {
            lemma_extend_expression(t.drop_first(), q);
            if let Outcome::Parsed(a, u) = expression(t.drop_first()) {
                if u.len() > 0 && u[0].token is Colon {
                    let w = u.drop_first();
                    if w.len() < s.len() {
                        lemma_extend_conditional(w, q);
                    }
                }
            }
        }
    }
}

proof fn lemma_extend_expression(s: Seq<TokNLoc>, q: Seq<TokNLoc>)
    ensures
        extends(expression(s), expression(s + q), q, false),
    decreases s.len(), 24nat,
{
    broadcast use lemma_skip_two_of_concat;

    if s.len() > 0 {
        if s[0].token is Identifier && s.len() >= 2 {
            lemma_extend_expression(s.skip(2), q);
        }
        lemma_extend_conditional(s, q);
    }
}

proof fn lemma_extend_declaration(s: Seq<TokNLoc>, q: Seq<TokNLoc>)
    ensures
        extends(declaration(s), declaration(s + q), q, true),
    decreases s.len(), 26nat,
{
    broadcast use lemma_drop_first_of_concat;

    if s.len() > 1 && s[0].token == Token::Keyword(Keyword::Int) {
        let t = s.drop_first();
        let u = t.drop_first();
        if t[0].token is Identifier && u.len() > 0 && u[0].token is Assignment {
            lemma_extend_expression(u.drop_first(), q);
        }
    }
}

proof fn lemma_extend_return_rest(r: Seq<TokNLoc>, q: Seq<TokNLoc>)
    ensures
        extends(return_rest(r), return_rest(r + q), q, true),
    decreases r.len(), 27nat,
{
    broadcast use lemma_drop_first_of_concat;

    lemma_extend_expression(r, q);
}

proof fn lemma_extend_if_rest(r: Seq<TokNLoc>, q: Seq<TokNLoc>)
    ensures
        extends(if_rest(r), if_rest(r + q), q, true),
    decreases r.len(), 27nat,
{
    broadcast use lemma_drop_first_of_concat;

    if r.len() > 0 && r[0].token is Lparen {
        let t1 = r.drop_first();
        lemma_extend_expression(t1, q);
        if let Outcome::Parsed(c, t2) = expression(t1) {
            if t2.len() > 0 && t2[0].token is Rparen {
                let t3 = t2.drop_first();
                if t3.len() < r.len() {
                    lemma_extend_statement(t3, q);
                    if let Outcome::Parsed(a, t4) = statement(t3) {
                        if t4.len() > 0 && t4[0].token == Token::Keyword(Keyword::Else) && t4.len()
                            < r.len() {
                            lemma_extend_statement(t4.drop_first(), q);
                        }
                    }
                }
            }
        }
    }
}

proof fn lemma_extend_while_rest(r: Seq<TokNLoc>, q: Seq<TokNLoc>)
    ensures
        extends(while_rest(r), while_rest(r + q), q, true),
    decreases r.len(), 27nat,
{
    broadcast use lemma_drop_first_of_concat;

    if r.len() > 0 && r[0].token is Lparen {
        let t1 = r.drop_first();
        lemma_extend_expression(t1, q);
        if let Outcome::Parsed(c, t2) = expression(t1) {
            if t2.len() > 0 && t2[0].token is Rparen {
                let t3 = t2.drop_first();
                if t3.len() < r.len() {
                    lemma_extend_statement(t3, q);
                }
            }
        }
    }
}

proof fn lemma_extend_do_rest(r: Seq<TokNLoc>, q: Seq<TokNLoc>)
    ensures
        extends(do_rest(r), do_rest(r + q), q, true),
    decreases r.len(), 30nat,
{
    broadcast use lemma_drop_first_of_concat;

    lemma_extend_statement(r, q);
    if let Outcome::Parsed(b, t1) = statement(r) {
        if t1.len() > 1 && t1[0].token == Token::Keyword(Keyword::While) {
            let t2 = t1.drop_first();
            let t3 = t2.drop_first();
            if t2[0].token is Lparen && t3.len() < r.len() {
                lemma_extend_expression(t3, q);
            }
        }
    }
}

proof fn lemma_extend_for_init(t: Seq<TokNLoc>, q: Seq<TokNLoc>)
    ensures
        extends(for_init(t), for_init(t + q), q, true),
    decreases t.len(), 27nat,
{
    broadcast use lemma_drop_first_of_concat;

    if t.len() > 0 {
        if t[0].token == Token::Keyword(Keyword::Int) {
            lemma_extend_declaration(t, q);
        } else if !(t[0].token is Semicolon) {
            lemma_extend_expression(t, q);
        }
    }
}

proof fn lemma_extend_for_condition(t: Seq<TokNLoc>, q: Seq<TokNLoc>)
    ensures
        extends(for_condition(t), for_condition(t + q), q, true),
    decreases t.len(), 27nat,
{
    broadcast use lemma_drop_first_of_concat;

    if t.len() > 0 && !(t[0].token is Semicolon) {
        lemma_extend_expression(t, q);
    }
}

proof fn lemma_extend_for_post(t: Seq<TokNLoc>, q: Seq<TokNLoc>)
    ensures
        extends(for_post(t), for_post(t + q), q, true),
    decreases t.len(), 27nat,
{
    broadcast use lemma_drop_first_of_concat;

    if t.len() > 0 && !(t[0].token is Rparen) {
        lemma_extend_expression(t, q);
    }
}

proof fn lemma_extend_for_rest(r: Seq<TokNLoc>, q: Seq<TokNLoc>)
    ensures
        extends(for_rest(r), for_rest(r + q), q, true),
    decreases r.len(), 28nat,
{
    broadcast use lemma_drop_first_of_concat;

    if r.len() > 0 && r[0].token is Lparen {
        let t1 = r.drop_first();
        lemma_extend_for_init(t1, q);
        if let Outcome::Parsed(init, t2) = for_init(t1) {
            if t2.len() < r.len() {
                lemma_extend_for_condition(t2, q);
                if let Outcome::Parsed(c, t3) = for_condition(t2) {
                    if t3.len() < r.len() {
                        lemma_extend_for_post(t3, q);
                        if let Outcome::Parsed(post, t4) = for_post(t3) {
                            if t4.len() < r.len() {
                                lemma_extend_statement(t4, q);
                            }
                        }
                    }
                }
            }
        }
    }
}

proof fn lemma_extend_statement(s: Seq<TokNLoc>, q: Seq<TokNLoc>)
    ensures
        extends(statement(s), statement(s + q), q, true),
    decreases s.len(), 29nat,
{
    broadcast use lemma_drop_first_of_concat;

    if s.len() > 0 {
        let r = s.drop_first();
        match s[0].token {
            Token::Lbrace => lemma_extend_compound(s, q),
            Token::Keyword(Keyword::Return) => lemma_extend_return_rest(r, q),
            Token::Keyword(Keyword::Continue) => {},
            Token::Keyword(Keyword::Break) => {},
            Token::Keyword(Keyword::If) => lemma_extend_if_rest(r, q),
            Token::Keyword(Keyword::While) => lemma_extend_while_rest(r, q),
            Token::Keyword(Keyword::Do) => lemma_extend_do_rest(r, q),
            Token::Keyword(Keyword::For) => lemma_extend_for_rest(r, q),
            Token::Semicolon => {},
            _ => lemma_extend_expression(s, q),
        }
    }
}

proof fn lemma_extend_compound(s: Seq<TokNLoc>, q: Seq<TokNLoc>)
    ensures
        extends(compound(s), compound(s + q), q, true),
    decreases s.len(), 28nat,
{
    broadcast use lemma_drop_first_of_concat;

    if s.len() > 0 && s[0].token is Lbrace {
        lemma_extend_block_items(s.drop_first(), Seq::empty(), q);
    }
}

proof fn lemma_extend_block_items(
    t: Seq<TokNLoc>,
    acc: Seq<crate::ast::SpecBlockItem>,
    q: Seq<TokNLoc>,
)
    ensures
        extends(block_items(t, acc), block_items(t + q, acc), q, true),
    decreases t.len(), 31nat,
{
    broadcast use lemma_drop_first_of_concat;

    if t.len() > 0 && !(t[0].token is Rbrace) {
        lemma_extend_block_item(t, q);
        if let Outcome::Parsed(b, u) = block_item(t) {
            if u.len() < t.len() {
                lemma_extend_block_items(u, acc.push(b), q);
            }
        }
    }
}

proof fn lemma_extend_block_item(t: Seq<TokNLoc>, q: Seq<TokNLoc>)
    ensures
        extends(block_item(t), block_item(t + q), q, true),
    decreases t.len(), 30nat,
{
    if t.len() > 0 {
        if t[0].token == Token::Keyword(Keyword::Int) {
            lemma_extend_declaration(t, q);
        } else {
            lemma_extend_statement(t, q);
        }
    }
}

proof fn lemma_extend_more_params(t: Seq<TokNLoc>, acc: Seq<Seq<char>>, q: Seq<TokNLoc>)
    ensures
        extends(more_params(t, acc), more_params(t + q, acc), q, true),
    decreases t.len(),
{
    broadcast use lemma_drop_first_of_concat;

    if t.len() > 2 && t[0].token is Comma {
        let u = t.drop_first().drop_first();
        if let Token::Identifier(id) = u[0].token {
            lemma_extend_more_params(u.drop_first(), acc.push(id@), q);
        }
    }
}

proof fn lemma_extend_params(w: Seq<TokNLoc>, q: Seq<TokNLoc>)
    ensures
        extends(params(w), params(w + q), q, true),
{
    broadcast use lemma_drop_first_of_concat;

    if w.len() > 1 && w[0].token == Token::Keyword(Keyword::Int) {
        let v = w.drop_first();
        if let Token::Identifier(id) = v[0].token {
            lemma_extend_more_params(v.drop_first(), seq![id@], q);
        }
    }
}

proof fn lemma_extend_function(s: Seq<TokNLoc>, q: Seq<TokNLoc>)
    ensures
        extends(function(s), function(s + q), q, true),
{
    broadcast use lemma_drop_first_of_concat;

    if s.len() > 2 && s[0].token == Token::Keyword(Keyword::Int) {
        let t = s.drop_first();
        let w = t.drop_first().drop_first();
        if t[0].token is Identifier {
            lemma_extend_params(w, q);
            if let Outcome::Parsed(ps, x) = params(w) {
                if x.len() > 0 && x[0].token is Rparen {
                    lemma_extend_compound(x.drop_first(), q);
                }
            }
        }
    }
}

/// The outcome `o` of parsing some functions, with the functions `fs` in front.
pub open spec fn after_functions(fs: Seq<SpecFunction>, o: Outcome<Seq<SpecFunction>>) -> Outcome<
    Seq<SpecFunction>,
> {
    match o {
        Outcome::Parsed(gs, r) => Outcome::Parsed(fs + gs, r),
        _ => o,
    }
}

proof fn lemma_functions_accumulate(s: Seq<TokNLoc>, acc: Seq<SpecFunction>)
    ensures
        functions(s, acc) == after_functions(acc, functions(s, Seq::empty())),
    decreases s.len(),
{
    if s.len() == 0 {
        assert(acc + Seq::<SpecFunction>::empty() =~= acc);
    } else if let Outcome::Parsed(f, t) = function(s) {
        if t.len() < s.len() {
            lemma_functions_accumulate(t, acc.push(f));
            lemma_functions_accumulate(t, seq![f]);
            assert(Seq::<SpecFunction>::empty().push(f) =~= seq![f]);
            if let Outcome::Parsed(gs, r) = functions(t, Seq::empty()) {
                assert(acc.push(f) + gs =~= acc + (seq![f] + gs));
            }
        }
    }
}

proof fn lemma_functions_append(s: Seq<TokNLoc>, acc: Seq<SpecFunction>, q: Seq<TokNLoc>)
    ensures
        functions(s, acc) matches Outcome::Failed(e, r) ==> functions(s + q, acc) == Outcome::<
            Seq<SpecFunction>,
        >::Failed(e, r + q),
        functions(s, acc) matches Outcome::Parsed(fs, r) ==> r.len() == 0 && functions(s + q, acc)
            == functions(q, fs),
    decreases s.len(),
{
    if s.len() == 0 {
        assert(s + q =~= q);
    } else {
        lemma_extend_function(s, q);
        if let Outcome::Parsed(f, t) = function(s) {
            if t.len() < s.len() {
                lemma_functions_append(t, acc.push(f), q);
            }
        }
    }
}

/// Parsing a program that is followed by more tokens: if the program parses to
/// its functions, the whole parses to those functions followed by what the
/// appended tokens parse to (or fails as they fail); if it fails with an error,
/// the whole fails with the same error, whatever follows, and the appended
/// tokens are left after the tokens it left.
pub proof fn law_program_then_more_tokens(p: Seq<TokNLoc>, q: Seq<TokNLoc>)
    ensures
        program(p) matches Outcome::Parsed(fs, _) ==> program(p + q) == after_functions(
            fs,
            program(q),
        ),
        program(p) matches Outcome::Failed(e, r) ==> program(p + q) == Outcome::<
            Seq<SpecFunction>,
        >::Failed(e, r + q),
{
    lemma_functions_append(p, Seq::empty(), q);
    if let Outcome::Parsed(fs, r) = program(p) {
        lemma_functions_accumulate(q, fs);
    }
}

/// A program that parses uses up all its tokens.
pub proof fn law_program_consumes_all(p: Seq<TokNLoc>)
    ensures
        program(p) matches Outcome::Parsed(_, r) ==> r.len() == 0,
{
    lemma_functions_append(p, Seq::empty(), Seq::empty());
}

// ------------------------------------------------------------------
// Where errors point, and how many tokens a phrase takes
// ------------------------------------------------------------------

/// `r` is what is left of `s` after some tokens at its front.
pub open spec fn is_suffix(r: Seq<TokNLoc>, s: Seq<TokNLoc>) -> bool {
    r.len() <= s.len() && r == s.skip(s.len() - r.len())
}

/// Some token of `s` is at location `c`.
pub open spec fn in_input(s: Seq<TokNLoc>, c: usize) -> bool {
    exists|i: int| 0 <= i < s.len() && s[i].location == c
}

/// A parse of `s` leaves a part of `s`, or fails at the location of a token of
/// `s` and leaves a part of `s`.
pub open spec fn points_into<T>(s: Seq<TokNLoc>, o: Outcome<T>) -> bool {
    match o {
        Outcome::Parsed(_, r) => is_suffix(r, s),
        Outcome::Failed(e, r) => in_input(s, e.cursor) && is_suffix(r, s),
        Outcome::Exhausted => true,
    }
}

/// A parse of `s` that succeeds leaves fewer tokens than `s` has.
pub open spec fn takes_tokens<T>(s: Seq<TokNLoc>, o: Outcome<T>) -> bool {
    match o {
        Outcome::Parsed(_, r) => r.len() < s.len(),
        _ => true,
    }
}

proof fn lemma_suffix_refl(s: Seq<TokNLoc>)
    ensures
        is_suffix(s, s),
{
    assert(s.skip(0) =~= s);
}

proof fn lemma_suffix_drop(t: Seq<TokNLoc>, s: Seq<TokNLoc>)
    requires
        is_suffix(t, s),
        t.len() > 0,
    ensures
        is_suffix(t.drop_first(), s),
{
    assert(t.drop_first() =~= s.skip(s.len() - t.drop_first().len()));
}

proof fn lemma_suffix_trans(a: Seq<TokNLoc>, b: Seq<TokNLoc>, c: Seq<TokNLoc>)
    requires
        is_suffix(a, b),
        is_suffix(b, c),
    ensures
        is_suffix(a, c),
{
    assert(a =~= c.skip(c.len() - a.len()));
}

proof fn lemma_first_in(t: Seq<TokNLoc>, s: Seq<TokNLoc>)
    requires
        is_suffix(t, s),
        t.len() > 0,
    ensures
        in_input(s, t[0].location),
{
    let k = s.len() - t.len();
    assert(s[k] == t[0]);
}

/// What a parse of a part of `s` points into, a parse of `s` points into.
proof fn lift<T>(r: Seq<TokNLoc>, s: Seq<TokNLoc>, o: Outcome<T>)
    requires
        is_suffix(r, s),
        points_into(r, o),
    ensures
        points_into(s, o),
{
    match o {
        Outcome::Parsed(_, x) => lemma_suffix_trans(x, r, s),
        Outcome::Failed(e, x) => {
            lemma_suffix_trans(x, r, s);
            let i = choose|i: int| 0 <= i < r.len() && r[i].location == e.cursor;
            let k = s.len() - r.len();
            assert(s[k + i] == r[i]);
        },
        Outcome::Exhausted => {},
    }
}

proof fn lemma_expect(t: Seq<TokNLoc>, s: Seq<TokNLoc>, e: Token, msg: Seq<char>)
    requires
        is_suffix(t, s),
    ensures
        points_into(s, expect(t, e, msg)),
{
    if t.len() > 0 {
        lemma_first_in(t, s);
        lemma_suffix_drop(t, s);
    }
}

pub(crate) proof fn lemma_points_postfix(s: Seq<TokNLoc>)
    ensures
        points_into(s, postfix(s)),
        takes_tokens(s, postfix(s)),
    decreases s.len(), 1nat,
{
    if s.len() > 0 {
        lemma_suffix_refl(s);
        lemma_first_in(s, s);
        let r = s.drop_first();
        lemma_suffix_drop(s, s);
        match s[0].token {
            Token::Lparen => {
                lemma_points_expression(r);
                lift(r, s, expression(r));
                if let Outcome::Parsed(e, t) = expression(r) {
                    lemma_expect(t, s, Token::Rparen, "Missing closing parenthesis after expression"@);
                }
            },
            Token::Identifier(id) => {
                if r.len() > 0 {
                    lemma_suffix_drop(r, s);
                    if r[0].token is Lparen {
                        let t = r.drop_first();
                        if t.len() > 0 {
                            lemma_suffix_drop(t, s);
                            if !(t[0].token is Rparen) {
                                lemma_points_call_args(t, Seq::empty());
                                lift(t, s, call_args(t, Seq::empty()));
                            }
                            let args = if t[0].token is Rparen {
                                Outcome::Parsed(Seq::<SpecExpression>::empty(), t)
                            } else {
                                call_args(t, Seq::empty())
                            };
                            if let Outcome::Parsed(a, u) = args {
                                lemma_expect(
                                    u,
                                    s,
                                    Token::Rparen,
                                    "Missing closing parenthesis function arguments"@,
                                );
                            }
                        }
                    }
                }
            },
            _ => {},
        }
    }
}

pub(crate) proof fn lemma_points_call_args(t: Seq<TokNLoc>, acc: Seq<SpecExpression>)
    ensures
        points_into(t, call_args(t, acc)),
        takes_tokens(t, call_args(t, acc)),
    decreases t.len(), 25nat,
{
    lemma_points_expression(t);
    if let Outcome::Parsed(e, u) = expression(t) {
        if u.len() > 0 && u[0].token is Comma && u.len() < t.len() {
            lemma_suffix_drop(u, t);
            lemma_points_call_args(u.drop_first(), acc.push(e));
            lift(u.drop_first(), t, call_args(u.drop_first(), acc.push(e)));
        }
    }
}

pub(crate) proof fn lemma_points_prefix(s: Seq<TokNLoc>)
    ensures
        points_into(s, prefix(s)),
        takes_tokens(s, prefix(s)),
    decreases s.len(), 2nat,
{
    if s.len() > 0 {
        lemma_suffix_refl(s);
        let r = s.drop_first();
        lemma_suffix_drop(s, s);
        match s[0].token {
            Token::Minus => {
                lemma_points_prefix(r);
                lift(r, s, prefix(r));
            },
            Token::Not => {
                lemma_points_prefix(r);
                lift(r, s, prefix(r));
            },
            Token::Complement => {
                lemma_points_prefix(r);
                lift(r, s, prefix(r));
            },
            Token::Increment => {
                lemma_points_postfix(r);
                lift(r, s, postfix(r));
                if r.len() > 0 {
                    lemma_first_in(r, s);
                }
            },
            Token::Decrement => {
                lemma_points_postfix(r);
                lift(r, s, postfix(r));
                if r.len() > 0 {
                    lemma_first_in(r, s);
                }
            },
            _ => lemma_points_postfix(s),
        }
    }
}

pub(crate) proof fn lemma_points_operand(s: Seq<TokNLoc>, l: Level)
    ensures
        points_into(s, operand(s, l)),
        takes_tokens(s, operand(s, l)),
    decreases s.len(), 2 * crate::grammar::level_index(l) + 3,
{
    match l {
        Level::Multiplicative => lemma_points_prefix(s),
        _ => lemma_points_binary(s, lower(l)),
    }
}

pub(crate) proof fn lemma_points_binary(s: Seq<TokNLoc>, l: Level)
    ensures
        points_into(s, binary(s, l)),
        takes_tokens(s, binary(s, l)),
    decreases s.len(), 2 * crate::grammar::level_index(l) + 4,
{
    lemma_points_operand(s, l);
    if let Outcome::Parsed(e, t) = operand(s, l) {
        if t.len() < s.len() {
            lemma_points_binary_tail(t, l, e);
            lift(t, s, binary_tail(t, l, e));
        }
    }
}

pub(crate) proof fn lemma_points_binary_tail(t: Seq<TokNLoc>, l: Level, lhs: SpecExpression)
    ensures
        points_into(t, binary_tail(t, l, lhs)),
    decreases t.len(), 2 * crate::grammar::level_index(l) + 4,
{
    lemma_suffix_refl(t);
    if t.len() > 0 {
        if let Some(op) = binary_op_of(l, t[0].token) {
            let r = t.drop_first();
            lemma_suffix_drop(t, t);
            lemma_points_operand(r, l);
            lift(r, t, operand(r, l));
            if let Outcome::Parsed(rhs, u) = operand(r, l) {
                if u.len() < t.len() {
                    let next = SpecExpression::BinaryOp(op, Box::new(lhs), Box::new(rhs));
                    lemma_points_binary_tail(u, l, next);
                    lift(u, t, binary_tail(u, l, next));
                }
            }
        }
    }
}

pub(crate) proof fn lemma_points_conditional(s: Seq<TokNLoc>)
    ensures
        points_into(s, conditional(s)),
        takes_tokens(s, conditional(s)),
    decreases s.len(), 23nat,
{
    lemma_points_binary(s, Level::LogicalOr);
    if let Outcome::Parsed(c, t) = binary(s, Level::LogicalOr) {
        if t.len() > 0 && t[0].token is QuestionMark && t.len() < s.len() {
            let r = t.drop_first();
            lemma_suffix_drop(t, s);
            lemma_points_expression(r);
            lift(r, s, expression(r));
            if let Outcome::Parsed(a, u) = expression(r) {
                lemma_expect(u, s, Token::Colon, "Invalid conditional statement. Expected ':'"@);
                if u.len() > 0 && u[0].token is Colon {
                    let w = u.drop_first();
                    lemma_suffix_drop(u, s);
                    if w.len() < s.len() {
                        lemma_points_conditional(w);
                        lift(w, s, conditional(w));
                    }
                }
            }
        }
    }
}

pub(crate) proof fn lemma_points_expression(s: Seq<TokNLoc>)
    ensures
        points_into(s, expression(s)),
        takes_tokens(s, expression(s)),
    decreases s.len(), 24nat,
{
    if s.len() > 0 {
        if s[0].token is Identifier && s.len() >= 2 {
            let r = s.skip(2);
            assert(is_suffix(r, s));
            lemma_points_expression(r);
            lift(r, s, expression(r));
        }
        lemma_points_conditional(s);
    }
}

pub(crate) proof fn lemma_points_declaration(s: Seq<TokNLoc>)
    ensures
        points_into(s, declaration(s)),
        takes_tokens(s, declaration(s)),
    decreases s.len(), 26nat,
{
    lemma_suffix_refl(s);
    lemma_expect(s, s, Token::Keyword(Keyword::Int), "Invalid declaration. Expected type specifier"@);
    if s.len() > 1 && s[0].token == Token::Keyword(Keyword::Int) {
        let t = s.drop_first();
        lemma_suffix_drop(s, s);
        lemma_first_in(t, s);
        let u = t.drop_first();
        lemma_suffix_drop(t, s);
        if t[0].token is Identifier && u.len() > 0 {
            if u[0].token is Assignment {
                let w = u.drop_first();
                lemma_suffix_drop(u, s);
                lemma_points_expression(w);
                lift(w, s, expression(w));
                if let Outcome::Parsed(e, x) = expression(w) {
                    lemma_expect(
                        x,
                        s,
                        Token::Semicolon,
                        "Invalid declaration"@ + ". Expected a final semicolon"@,
                    );
                }
            } else {
                lemma_expect(
                    u,
                    s,
                    Token::Semicolon,
                    "Invalid declaration"@ + ". Expected a final semicolon"@,
                );
            }
        }
    }
}

pub(crate) proof fn lemma_points_return_rest(r: Seq<TokNLoc>)
    ensures
        points_into(r, return_rest(r)),
        takes_tokens(r, return_rest(r)),
    decreases r.len(), 27nat,
{
    lemma_points_expression(r);
    if let Outcome::Parsed(e, t) = expression(r) {
        lemma_expect(
            t,
            r,
            Token::Semicolon,
            "Invalid return statement"@ + ". Expected a final semicolon"@,
        );
    }
}

pub(crate) proof fn lemma_points_if_rest(r: Seq<TokNLoc>)
    ensures
        points_into(r, if_rest(r)),
        takes_tokens(r, if_rest(r)),
    decreases r.len(), 27nat,
{
    lemma_suffix_refl(r);
    lemma_expect(r, r, Token::Lparen, "Invalid if statement. Expected '('"@);
    if r.len() > 0 && r[0].token is Lparen {
        let t1 = r.drop_first();
        lemma_suffix_drop(r, r);
        lemma_points_expression(t1);
        lift(t1, r, expression(t1));
        if let Outcome::Parsed(c, t2) = expression(t1) {
            lemma_expect(
                t2,
                r,
                Token::Rparen,
                "Invalid if statement. Expected ')' after condition expression"@,
            );
            if t2.len() > 0 && t2[0].token is Rparen {
                let t3 = t2.drop_first();
                lemma_suffix_drop(t2, r);
                if t3.len() < r.len() {
                    lemma_points_statement(t3);
                    lift(t3, r, statement(t3));
                    if let Outcome::Parsed(a, t4) = statement(t3) {
                        if t4.len() > 0 && t4[0].token == Token::Keyword(Keyword::Else) && t4.len()
                            < r.len() {
                            lemma_suffix_drop(t4, r);
                            lemma_points_statement(t4.drop_first());
                            lift(t4.drop_first(), r, statement(t4.drop_first()));
                        }
                    }
                }
            }
        }
    }
}

pub(crate) proof fn lemma_points_while_rest(r: Seq<TokNLoc>)
    ensures
        points_into(r, while_rest(r)),
        takes_tokens(r, while_rest(r)),
    decreases r.len(), 27nat,
{
    lemma_suffix_refl(r);
    lemma_expect(r, r, Token::Lparen, "Invalid while statement. Expected '('"@);
    if r.len() > 0 && r[0].token is Lparen {
        let t1 = r.drop_first();
        lemma_suffix_drop(r, r);
        lemma_points_expression(t1);
        lift(t1, r, expression(t1));
        if let Outcome::Parsed(c, t2) = expression(t1) {
            lemma_expect(
                t2,
                r,
                Token::Rparen,
                "Invalid while statement. Expected ')' after condition expression"@,
            );
            if t2.len() > 0 && t2[0].token is Rparen {
                let t3 = t2.drop_first();
                lemma_suffix_drop(t2, r);
                if t3.len() < r.len() {
                    lemma_points_statement(t3);
                    lift(t3, r, statement(t3));
                }
            }
        }
    }
}

pub(crate) proof fn lemma_points_do_rest(r: Seq<TokNLoc>)
    ensures
        points_into(r, do_rest(r)),
        takes_tokens(r, do_rest(r)),
    decreases r.len(), 30nat,
{
    lemma_points_statement(r);
    if let Outcome::Parsed(b, t1) = statement(r) {
        lemma_expect(
            t1,
            r,
            Token::Keyword(Keyword::While),
            "Invalid do-while statement. Expected 'while'"@,
        );
        if t1.len() > 0 && t1[0].token == Token::Keyword(Keyword::While) {
            let t2 = t1.drop_first();
            lemma_suffix_drop(t1, r);
            lemma_expect(t2, r, Token::Lparen, "Invalid do-while statement. Expected '('"@);
            if t2.len() > 0 && t2[0].token is Lparen {
                let t3 = t2.drop_first();
                lemma_suffix_drop(t2, r);
                if t3.len() < r.len() {
                    lemma_points_expression(t3);
                    lift(t3, r, expression(t3));
                    if let Outcome::Parsed(c, t4) = expression(t3) {
                        lemma_expect(
                            t4,
                            r,
                            Token::Rparen,
                            "Invalid do-while statement. Expected ')' after condition expression"@,
                        );
                        if t4.len() > 0 && t4[0].token is Rparen {
                            lemma_suffix_drop(t4, r);
                            lemma_expect(
                                t4.drop_first(),
                                r,
                                Token::Semicolon,
                                "Invalid do-while statement"@ + ". Expected a final semicolon"@,
                            );
                        }
                    }
                }
            }
        }
    }
}

pub(crate) proof fn lemma_points_for_init(t: Seq<TokNLoc>)
    ensures
        points_into(t, for_init(t)),
        takes_tokens(t, for_init(t)),
    decreases t.len(), 27nat,
{
    lemma_suffix_refl(t);
    if t.len() > 0 {
        if t[0].token == Token::Keyword(Keyword::Int) {
            lemma_points_declaration(t);
        } else if t[0].token is Semicolon {
            lemma_suffix_drop(t, t);
        } else {
            lemma_points_expression(t);
            if let Outcome::Parsed(e, u) = expression(t) {
                lemma_expect(
                    u,
                    t,
                    Token::Semicolon,
                    "Invalid initialization expression for For statement"@
                        + ". Expected a final semicolon"@,
                );
            }
        }
    }
}

pub(crate) proof fn lemma_points_for_condition(t: Seq<TokNLoc>)
    ensures
        points_into(t, for_condition(t)),
        takes_tokens(t, for_condition(t)),
    decreases t.len(), 27nat,
{
    lemma_suffix_refl(t);
    if t.len() > 0 {
        let msg = "Invalid condition expression for ForDecl statement"@
            + ". Expected a final semicolon"@;
        if t[0].token is Semicolon {
            lemma_expect(t, t, Token::Semicolon, msg);
        } else {
            lemma_points_expression(t);
            if let Outcome::Parsed(e, u) = expression(t) {
                lemma_expect(u, t, Token::Semicolon, msg);
            }
        }
    }
}

pub(crate) proof fn lemma_points_for_post(t: Seq<TokNLoc>)
    ensures
        points_into(t, for_post(t)),
        takes_tokens(t, for_post(t)),
    decreases t.len(), 27nat,
{
    lemma_suffix_refl(t);
    if t.len() > 0 {
        let msg = "Invalid For/ForDecl statement. Expected ')' after post expression"@;
        if t[0].token is Rparen {
            lemma_expect(t, t, Token::Rparen, msg);
        } else {
            lemma_points_expression(t);
            if let Outcome::Parsed(e, u) = expression(t) {
                lemma_expect(u, t, Token::Rparen, msg);
            }
        }
    }
}

pub(crate) proof fn lemma_points_for_rest(r: Seq<TokNLoc>)
    ensures
        points_into(r, for_rest(r)),
        takes_tokens(r, for_rest(r)),
    decreases r.len(), 28nat,
{
    lemma_suffix_refl(r);
    lemma_expect(r, r, Token::Lparen, "Invalid For/ForDecl statement. Expected '('"@);
    if r.len() > 0 && r[0].token is Lparen {
        let t1 = r.drop_first();
        lemma_suffix_drop(r, r);
        lemma_points_for_init(t1);
        lift(t1, r, for_init(t1));
        if let Outcome::Parsed(init, t2) = for_init(t1) {
            if t2.len() < r.len() {
                lemma_points_for_condition(t2);
                lift(t2, r, for_condition(t2));
                if let Outcome::Parsed(c, t3) = for_condition(t2) {
                    if t3.len() < r.len() {
                        lemma_points_for_post(t3);
                        lift(t3, r, for_post(t3));
                        if let Outcome::Parsed(post, t4) = for_post(t3) {
                            if t4.len() < r.len() {
                                lemma_points_statement(t4);
                                lift(t4, r, statement(t4));
                            }
                        }
                    }
                }
            }
        }
    }
}

pub(crate) proof fn lemma_points_statement(s: Seq<TokNLoc>)
    ensures
        points_into(s, statement(s)),
        takes_tokens(s, statement(s)),
    decreases s.len(), 29nat,
{
    if s.len() > 0 {
        lemma_suffix_refl(s);
        let r = s.drop_first();
        lemma_suffix_drop(s, s);
        match s[0].token {
            Token::Lbrace => lemma_points_compound(s),
            Token::Keyword(Keyword::Return) => {
                lemma_points_return_rest(r);
                lift(r, s, return_rest(r));
            },
            Token::Keyword(Keyword::Continue) => {
                lemma_expect(
                    r,
                    s,
                    Token::Semicolon,
                    "Invalid continue statement"@ + ". Expected a final semicolon"@,
                );
            },
            Token::Keyword(Keyword::Break) => {
                lemma_expect(
                    r,
                    s,
                    Token::Semicolon,
                    "Invalid break statement"@ + ". Expected a final semicolon"@,
                );
            },
            Token::Keyword(Keyword::If) => {
                lemma_points_if_rest(r);
                lift(r, s, if_rest(r));
            },
            Token::Keyword(Keyword::While) => {
                lemma_points_while_rest(r);
                lift(r, s, while_rest(r));
            },
            Token::Keyword(Keyword::Do) => {
                lemma_points_do_rest(r);
                lift(r, s, do_rest(r));
            },
            Token::Keyword(Keyword::For) => {
                lemma_points_for_rest(r);
                lift(r, s, for_rest(r));
            },
            Token::Semicolon => {},
            _ => {
                lemma_points_expression(s);
                if let Outcome::Parsed(e, t) = expression(s) {
                    lemma_expect(
                        t,
                        s,
                        Token::Semicolon,
                        "Invalid expression statement"@ + ". Expected a final semicolon"@,
                    );
                }
            },
        }
    }
}

pub(crate) proof fn lemma_points_compound(s: Seq<TokNLoc>)
    ensures
        points_into(s, compound(s)),
        takes_tokens(s, compound(s)),
    decreases s.len(), 28nat,
{
    lemma_suffix_refl(s);
    lemma_expect(s, s, Token::Lbrace, "Invalid compound statement. Expected '{{'"@);
    if s.len() > 0 && s[0].token is Lbrace {
        let t = s.drop_first();
        lemma_suffix_drop(s, s);
        lemma_points_block_items(t, Seq::empty());
        lift(t, s, block_items(t, Seq::empty()));
    }
}

pub(crate) proof fn lemma_points_block_items(t: Seq<TokNLoc>, acc: Seq<crate::ast::SpecBlockItem>)
    ensures
        points_into(t, block_items(t, acc)),
        takes_tokens(t, block_items(t, acc)),
    decreases t.len(), 31nat,
{
    if t.len() > 0 {
        lemma_suffix_refl(t);
        if t[0].token is Rbrace {
            lemma_suffix_drop(t, t);
        } else {
            lemma_points_block_item(t);
            if let Outcome::Parsed(b, u) = block_item(t) {
                if u.len() < t.len() {
                    lemma_points_block_items(u, acc.push(b));
                    lift(u, t, block_items(u, acc.push(b)));
                }
            }
        }
    }
}

pub(crate) proof fn lemma_points_block_item(t: Seq<TokNLoc>)
    ensures
        points_into(t, block_item(t)),
        takes_tokens(t, block_item(t)),
    decreases t.len(), 30nat,
{
    if t.len() > 0 {
        if t[0].token == Token::Keyword(Keyword::Int) {
            lemma_points_declaration(t);
        } else {
            lemma_points_statement(t);
        }
    }
}

pub(crate) proof fn lemma_points_more_params(t: Seq<TokNLoc>, acc: Seq<Seq<char>>)
    ensures
        points_into(t, more_params(t, acc)),
    decreases t.len(),
{
    lemma_suffix_refl(t);
    if t.len() > 0 && t[0].token is Comma {
        let r = t.drop_first();
        lemma_suffix_drop(t, t);
        lemma_expect(
            r,
            t,
            Token::Keyword(Keyword::Int),
            "Invalid function declarator. Expected type after comma"@,
        );
        if r.len() > 0 && r[0].token == Token::Keyword(Keyword::Int) {
            let u = r.drop_first();
            lemma_suffix_drop(r, t);
            if u.len() > 0 {
                lemma_first_in(u, t);
                lemma_suffix_drop(u, t);
                if let Token::Identifier(id) = u[0].token {
                    lemma_points_more_params(u.drop_first(), acc.push(id@));
                    lift(u.drop_first(), t, more_params(u.drop_first(), acc.push(id@)));
                }
            }
        }
    }
}

pub(crate) proof fn lemma_points_params(w: Seq<TokNLoc>)
    ensures
        points_into(w, params(w)),
{
    lemma_suffix_refl(w);
    if w.len() > 0 && w[0].token == Token::Keyword(Keyword::Int) {
        let v = w.drop_first();
        lemma_suffix_drop(w, w);
        if v.len() > 0 {
            lemma_first_in(v, w);
            lemma_suffix_drop(v, w);
            if let Token::Identifier(id) = v[0].token {
                lemma_points_more_params(v.drop_first(), seq![id@]);
                lift(v.drop_first(), w, more_params(v.drop_first(), seq![id@]));
            }
        }
    }
}

pub(crate) proof fn lemma_points_function(s: Seq<TokNLoc>)
    ensures
        points_into(s, function(s)),
        takes_tokens(s, function(s)),
{
    lemma_suffix_refl(s);
    lemma_expect(
        s,
        s,
        Token::Keyword(Keyword::Int),
        "Invalid function declarator. Expected return type"@,
    );
    if s.len() > 1 && s[0].token == Token::Keyword(Keyword::Int) {
        let t = s.drop_first();
        lemma_suffix_drop(s, s);
        lemma_first_in(t, s);
        lemma_suffix_drop(t, s);
        if t[0].token is Identifier {
            let r = t.drop_first();
            lemma_expect(r, s, Token::Lparen, "Invalid function declarator. Expected '('"@);
            if r.len() > 0 && r[0].token is Lparen {
                let w = r.drop_first();
                lemma_suffix_drop(r, s);
                lemma_points_params(w);
                lift(w, s, params(w));
                if let Outcome::Parsed(ps, x) = params(w) {
                    lemma_expect(x, s, Token::Rparen, "Invalid function declarator. Expected ')'"@);
                    if x.len() > 0 && x[0].token is Rparen {
                        let y = x.drop_first();
                        lemma_suffix_drop(x, s);
                        if y.len() > 0 {
                            lemma_suffix_drop(y, s);
                            lemma_points_compound(y);
                            lift(y, s, compound(y));
                        }
                    }
                }
            }
        }
    }
}

pub(crate) proof fn lemma_points_functions(s: Seq<TokNLoc>, acc: Seq<SpecFunction>)
    ensures
        points_into(s, functions(s, acc)),
    decreases s.len(),
{
    lemma_suffix_refl(s);
    if s.len() > 0 {
        lemma_points_function(s);
        if let Outcome::Parsed(f, t) = function(s) {
            if t.len() < s.len() {
                lemma_points_functions(t, acc.push(f));
                lift(t, s, functions(t, acc.push(f)));
            }
        }
    }
}

/// Every parse error points at a token of the input: its cursor is the
/// location of one of the tokens that were parsed.
pub proof fn law_error_points_at_input_token(tokens: Seq<TokNLoc>)
    ensures
        program(tokens) matches Outcome::Failed(e, _) ==> exists|i: int|
            0 <= i < tokens.len() && tokens[i].location == e.cursor,
{
    lemma_points_functions(tokens, Seq::empty());
}

/// Every expression (of any level), declaration, statement, block item and
/// function that parses takes at least one token. So the comparisons of
/// lengths in the grammar's definitions, made after such phrases, always hold.
pub proof fn law_phrases_take_tokens(s: Seq<TokNLoc>)
    ensures
        forall|l: Level| #[trigger] takes_tokens(s, binary(s, l)),
        takes_tokens(s, conditional(s)),
        takes_tokens(s, expression(s)),
        takes_tokens(s, declaration(s)),
        takes_tokens(s, statement(s)),
        takes_tokens(s, block_item(s)),
        takes_tokens(s, function(s)),
{
    assert forall|l: Level| #[trigger] takes_tokens(s, binary(s, l)) by {
        lemma_points_binary(s, l);
    }
    lemma_points_conditional(s);
    lemma_points_expression(s);
    lemma_points_declaration(s);
    lemma_points_statement(s);
    lemma_points_block_item(s);
    lemma_points_function(s);
}

/// Parsing two token sequences one after the other: where the first parses
/// as a program, the whole parses as its functions followed by those of the
/// second, or fails with the error of the second, leaving what it leaves.
#[verifier::spinoff_prover]
pub proof fn law_concatenated_programs(a: Seq<TokNLoc>, b: Seq<TokNLoc>)
    requires
        program(a) is Parsed,
    ensures
        program(b) matches Outcome::Parsed(fb, _) ==> program(a + b) == Outcome::Parsed(
            program(a)->Parsed_0 + fb,
            Seq::<TokNLoc>::empty(),
        ),
        program(b) matches Outcome::Failed(e, r) ==> program(a + b) == Outcome::<
            Seq<SpecFunction>,
        >::Failed(e, r),
        program(b) is Exhausted ==> program(a + b) is Exhausted,
{
    let fa = program(a)->Parsed_0;
    law_program_then_more_tokens(a, b);
    law_program_consumes_all(b);
    assert(program(a + b) == after_functions(fa, program(b)));
    if let Outcome::Parsed(fb, rb) = program(b) {
        assert(rb =~= Seq::<TokNLoc>::empty());
    }
}

proof fn lemma_functions_step(s: Seq<TokNLoc>, acc: Seq<SpecFunction>, f: SpecFunction, t: Seq<TokNLoc>)
    requires
        s.len() > 0,
        function(s) == Outcome::Parsed(f, t),
        t.len() < s.len(),
    ensures
        functions(s, acc) == functions(t, acc.push(f)),
{
}

proof fn lemma_one_function_piece(x: Seq<TokNLoc>, y: Seq<TokNLoc>, f: SpecFunction)
    requires
        function(x) == Outcome::Parsed(f, Seq::<TokNLoc>::empty()),
    ensures
        function(x + y) == Outcome::Parsed(f, y),
        y.len() < (x + y).len(),
{
    lemma_extend_function(x, y);
    assert(Seq::<TokNLoc>::empty() + y =~= y);
    lemma_points_function(x);
}

#[verifier::spinoff_prover]
proof fn lemma_function_pieces(pieces: Seq<Seq<TokNLoc>>, fs: Seq<SpecFunction>, acc: Seq<SpecFunction>)
    requires
        pieces.len() == fs.len(),
        forall|k: int| 0 <= k < pieces.len() ==> #[trigger] function(pieces[k]) == Outcome::Parsed(
            fs[k],
            Seq::<TokNLoc>::empty(),
        ),
    ensures
        functions(pieces.flatten(), acc) == Outcome::Parsed(acc + fs, Seq::<TokNLoc>::empty()),
    decreases pieces.len(),
{
    if pieces.len() == 0 {
        assert(acc + fs =~= acc);
    } else {
        let x = pieces[0];
        let rest = pieces.drop_first();
        let y = rest.flatten();
        assert(pieces.flatten() == x + y);
        assert(function(x) == Outcome::Parsed(fs[0], Seq::<TokNLoc>::empty()));
        lemma_one_function_piece(x, y, fs[0]);
        lemma_functions_step(x + y, acc, fs[0], y);
        assert forall|k: int| 0 <= k < rest.len() implies #[trigger] function(rest[k])
            == Outcome::Parsed(fs.drop_first()[k], Seq::<TokNLoc>::empty()) by {
            assert(rest[k] == pieces[k + 1]);
            assert(function(pieces[k + 1]) == Outcome::Parsed(fs[k + 1], Seq::<TokNLoc>::empty()));
        }
        lemma_function_pieces(rest, fs.drop_first(), acc.push(fs[0]));
        assert(acc.push(fs[0]) + fs.drop_first() =~= acc + fs);
    }
}

/// Token sequences that each parse as one whole function, put one after the
/// other, parse as the program of those functions, in that order.
pub proof fn law_program_of_function_pieces(pieces: Seq<Seq<TokNLoc>>, fs: Seq<SpecFunction>)
    requires
        pieces.len() == fs.len(),
        forall|k: int| 0 <= k < pieces.len() ==> #[trigger] function(pieces[k]) == Outcome::Parsed(
            fs[k],
            Seq::<TokNLoc>::empty(),
        ),
    ensures
        program(pieces.flatten()) == Outcome::Parsed(fs, Seq::<TokNLoc>::empty()),
{
    lemma_function_pieces(pieces, fs, Seq::empty());
    assert(Seq::<SpecFunction>::empty() + fs =~= fs);
}

/// The tokens after piece `k`: the later pieces, one after the other.
pub open spec fn later_pieces(pieces: Seq<Seq<TokNLoc>>, k: int) -> Seq<TokNLoc> {
    pieces.skip(k + 1).flatten()
}

proof fn lemma_functions_parsed_step(s: Seq<TokNLoc>, acc: Seq<SpecFunction>)
    requires
        s.len() > 0,
        functions(s, acc) is Parsed,
    ensures
        function(s) is Parsed,
        function(s)->Parsed_1.len() < s.len(),
        functions(s, acc) == functions(function(s)->Parsed_1, acc.push(function(s)->Parsed_0)),
{
}

/// Piece `x`, followed by `rest`, parses as the function `f` and leaves `rest`.
#[verifier::opaque]
spec fn piece_parses(x: Seq<TokNLoc>, rest: Seq<TokNLoc>, f: SpecFunction) -> bool {
    x.len() > 0 && function(x + rest) == Outcome::Parsed(f, rest)
}

proof fn lemma_first_piece(s: Seq<TokNLoc>, x: Seq<TokNLoc>, t: Seq<TokNLoc>, f: SpecFunction)
    requires
        x + t == s,
        function(s) == Outcome::Parsed(f, t),
        t.len() < s.len(),
    ensures
        piece_parses(x, t, f),
{
    reveal(piece_parses);
}

/// Parsing the functions of `s` after `acc` succeeds and gives `gs`.
#[verifier::opaque]
spec fn functions_give(s: Seq<TokNLoc>, acc: Seq<SpecFunction>, gs: Seq<SpecFunction>) -> bool {
    functions(s, acc) is Parsed && functions(s, acc)->Parsed_0 == gs
}

proof fn lemma_split_base(s: Seq<TokNLoc>, acc: Seq<SpecFunction>, gs: Seq<SpecFunction>)
    requires
        s.len() == 0,
        functions_give(s, acc, gs),
    ensures
        gs == acc,
{
    reveal(functions_give);
}

proof fn lemma_split_step(s: Seq<TokNLoc>, acc: Seq<SpecFunction>, gs: Seq<SpecFunction>) -> (ft: (
    SpecFunction,
    Seq<TokNLoc>,
))
    requires
        s.len() > 0,
        functions_give(s, acc, gs),
    ensures
        ft.1.len() < s.len(),
        s.take(s.len() - ft.1.len()) + ft.1 == s,
        piece_parses(s.take(s.len() - ft.1.len()), ft.1, ft.0),
        functions_give(ft.1, acc.push(ft.0), gs),
{
    reveal(functions_give);
    lemma_functions_parsed_step(s, acc);
    let f = function(s)->Parsed_0;
    let t = function(s)->Parsed_1;
    lemma_points_function(s);
    let x = s.take(s.len() - t.len());
    assert(x + t =~= s);
    lemma_first_piece(s, x, t, f);
    (f, t)
}

proof fn lemma_split_functions(s: Seq<TokNLoc>, acc: Seq<SpecFunction>, gs: Seq<SpecFunction>) -> (pieces: Seq<
    Seq<TokNLoc>,
>)
    requires
        functions_give(s, acc, gs),
    ensures
        gs.len() == acc.len() + pieces.len(),
        gs.take(acc.len() as int) == acc,
        pieces.flatten() == s,
        forall|k: int| 0 <= k < pieces.len() ==> piece_parses(
            #[trigger] pieces[k],
            later_pieces(pieces, k),
            gs[acc.len() + k],
        ),
    decreases s.len(),
{
    if s.len() == 0 {
        lemma_split_base(s, acc, gs);
        assert(gs.take(acc.len() as int) =~= acc);
        Seq::empty()
    } else {
        let (f, t) = lemma_split_step(s, acc, gs);
        let x = s.take(s.len() - t.len());
        let rest = lemma_split_functions(t, acc.push(f), gs);
        let pieces = seq![x] + rest;
        assert(pieces.drop_first() =~= rest);
        assert(pieces.flatten() == x + rest.flatten());
        assert(gs.take(acc.len() as int) =~= acc) by {
            assert(gs.take(acc.len() as int) =~= gs.take(acc.len() + 1int).take(acc.len() as int));
        }
        assert forall|k: int| 0 <= k < pieces.len() implies piece_parses(
            #[trigger] pieces[k],
            later_pieces(pieces, k),
            gs[acc.len() + k],
        ) by {
            if k == 0 {
                assert(pieces.skip(1) =~= rest);
                assert(gs[acc.len() as int] == gs.take(acc.len() + 1int)[acc.len() as int]);
            } else {
                assert(pieces[k] == rest[k - 1]);
                assert(pieces.skip(k + 1) =~= rest.skip(k));
                assert(piece_parses(rest[k - 1], later_pieces(rest, k - 1), gs[acc.len() + 1 + (k - 1)]));
            }
        }
        pieces
    }
}

/// A program that parses splits into consecutive, non-empty pieces of its
/// tokens, one for each of its functions and in their order: piece `k`,
/// followed by the later pieces, parses as function `k` and leaves exactly
/// the later pieces.
pub proof fn law_program_splits_into_functions(tokens: Seq<TokNLoc>) -> (pieces: Seq<Seq<TokNLoc>>)
    requires
        program(tokens) is Parsed,
    ensures
        pieces.len() == program(tokens)->Parsed_0.len(),
        pieces.flatten() == tokens,
        forall|k: int| 0 <= k < pieces.len() ==> (#[trigger] pieces[k]).len() > 0 && function(
            pieces[k] + later_pieces(pieces, k),
        ) == Outcome::Parsed(program(tokens)->Parsed_0[k], later_pieces(pieces, k)),
{
    let gs = program(tokens)->Parsed_0;
    assert(functions_give(tokens, Seq::empty(), gs)) by {
        reveal(functions_give);
    }
    let pieces = lemma_split_functions(tokens, Seq::empty(), gs);
    reveal(piece_parses);
    pieces
}

// ------------------------------------------------------------------
// How the phrases of expressions and blocks are put together
// ------------------------------------------------------------------

/// A prefix expression that does not start with a prefix operator is parsed
/// as a postfix expression, with the same outcome.
pub proof fn law_prefix_without_operator_is_postfix(s: Seq<TokNLoc>)
    requires
        s.len() > 0,
        !(s[0].token is Minus || s[0].token is Not || s[0].token is Complement
            || s[0].token is Increment || s[0].token is Decrement),
    ensures
        prefix(s) == postfix(s),
{
}

/// Binary operators of one level group from the left: an expression of the
/// level is its first operand followed by a tail; the tail ends (leaving its
/// tokens) where no operator of the level comes next, and otherwise takes the
/// operator and the next operand and goes on with the two operands joined; an
/// operand that fails makes the whole fail with its error.
pub proof fn law_binary_left_fold(s: Seq<TokNLoc>, l: Level, lhs: SpecExpression)
    ensures
        operand(s, l) matches Outcome::Parsed(e, t) ==> binary(s, l) == binary_tail(t, l, e),
        operand(s, l) matches Outcome::Failed(e, r) ==> binary(s, l) == Outcome::<
            SpecExpression,
        >::Failed(e, r),
        (s.len() == 0 || binary_op_of(l, s[0].token) is None) ==> binary_tail(s, l, lhs)
            == Outcome::Parsed(lhs, s),
        (s.len() > 0 && binary_op_of(l, s[0].token) is Some) ==> {
            let op = binary_op_of(l, s[0].token)->0;
            &&& operand(s.drop_first(), l) matches Outcome::Parsed(rhs, u) ==> binary_tail(s, l, lhs)
                == binary_tail(u, l, SpecExpression::BinaryOp(op, Box::new(lhs), Box::new(rhs)))
            &&& operand(s.drop_first(), l) matches Outcome::Failed(e, r) ==> binary_tail(s, l, lhs)
                == Outcome::<SpecExpression>::Failed(e, r)
        },
{
    lemma_points_operand(s, l);
    if s.len() > 0 {
        lemma_points_operand(s.drop_first(), l);
    }
}

/// A block item starting with `int` is a declaration, any other a statement;
/// either way the item is parsed with the outcome of that phrase.
pub proof fn law_block_item_dispatch(s: Seq<TokNLoc>)
    requires
        s.len() > 0,
    ensures
        s[0].token == Token::Keyword(Keyword::Int) ==> match declaration(s) {
            Outcome::Parsed(d, u) => block_item(s) == Outcome::Parsed(SpecBlockItem::Decl(d), u),
            Outcome::Failed(e, r) => block_item(s) == Outcome::<SpecBlockItem>::Failed(e, r),
            Outcome::Exhausted => block_item(s) is Exhausted,
        },
        s[0].token != Token::Keyword(Keyword::Int) ==> match statement(s) {
            Outcome::Parsed(st, u) => block_item(s) == Outcome::Parsed(SpecBlockItem::Stmt(st), u),
            Outcome::Failed(e, r) => block_item(s) == Outcome::<SpecBlockItem>::Failed(e, r),
            Outcome::Exhausted => block_item(s) is Exhausted,
        },
{
}

} // verus!

