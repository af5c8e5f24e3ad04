use vstd::prelude::*;
use crate::ast::{
    SpecExpression, SpecStatement, Expression, Declaration, Statement, BlockItem, Function, SpecBlockItem, SpecFunction,
    expr_view, opt_expr_view, decl_view, stmt_view, item_view, items_view, names_view,
    function_view,
};
use crate::grammar::{
    Outcome, expression, declaration, return_rest, if_rest, while_rest, do_rest, for_init,
    for_condition, for_post, for_rest, statement, compound, block_items, block_item, more_params,
    params, function, functions, program,
};
use crate::roundtrip::{tokens_of, print_expr, lemma_print_expression, lemma_tokens_subrange, lemma_print_shape};
use crate::token::{Keyword, Token, TokNLoc};

verus! {

// ------------------------------------------------------------------
// Printing programs as tokens, and parsing them back
// ------------------------------------------------------------------

pub open spec fn print_opt_expr(e: Option<Expression>) -> Seq<Token> {
    match e {
        Some(x) => print_expr(x),
        None => Seq::empty(),
    }
}

/// The tokens of a declaration: `int id ;` or `int id = expr ;`.
pub open spec fn print_decl(d: Declaration) -> Seq<Token> {
    seq![Token::Keyword(Keyword::Int), Token::Identifier(d.id)] + match d.init {
        Some(e) => seq![Token::Assignment] + print_expr(e),
        None => Seq::empty(),
    } + seq![Token::Semicolon]
}

/// The tokens of a statement.
pub open spec fn print_stmt(s: Statement) -> Seq<Token>
    decreases s,
{
    match s {
        Statement::Return(e) => seq![Token::Keyword(Keyword::Return)] + print_expr(e) + seq![
            Token::Semicolon,
        ],
        Statement::Expr(e) => print_expr(e) + seq![Token::Semicolon],
        Statement::If(c, a, b) => seq![Token::Keyword(Keyword::If), Token::Lparen] + print_expr(c)
            + seq![Token::Rparen] + print_stmt(*a) + match b {
            Some(x) => seq![Token::Keyword(Keyword::Else)] + print_stmt(*x),
            None => Seq::empty(),
        },
        Statement::Compound(items) => seq![Token::Lbrace] + print_items(items@) + seq![
            Token::Rbrace,
        ],
        Statement::For(init, c, post, body) => seq![Token::Keyword(Keyword::For), Token::Lparen]
            + print_opt_expr(init) + seq![Token::Semicolon] + print_expr(c) + seq![
            Token::Semicolon,
        ] + print_opt_expr(post) + seq![Token::Rparen] + print_stmt(*body),
        Statement::ForDecl(d, c, post, body) => seq![Token::Keyword(Keyword::For), Token::Lparen]
            + print_decl(d) + print_expr(c) + seq![Token::Semicolon] + print_opt_expr(post) + seq![
            Token::Rparen,
        ] + print_stmt(*body),
        Statement::While(c, body) => seq![Token::Keyword(Keyword::While), Token::Lparen]
            + print_expr(c) + seq![Token::Rparen] + print_stmt(*body),
        Statement::DoWhile(body, c) => seq![Token::Keyword(Keyword::Do)] + print_stmt(*body)
            + seq![Token::Keyword(Keyword::While), Token::Lparen] + print_expr(c) + seq![
            Token::Rparen,
            Token::Semicolon,
        ],
        Statement::Break => seq![Token::Keyword(Keyword::Break), Token::Semicolon],
        Statement::Continue => seq![Token::Keyword(Keyword::Continue), Token::Semicolon],
        Statement::Null => seq![Token::Semicolon],
    }
}

pub open spec fn print_item(b: BlockItem) -> Seq<Token>
    decreases b,
{
    match b {
        BlockItem::Stmt(s) => print_stmt(s),
        BlockItem::Decl(d) => print_decl(d),
    }
}

/// The tokens of block items, one after the other.
pub open spec fn print_items(items: Seq<BlockItem>) -> Seq<Token>
    decreases items,
{
    if items.len() == 0 {
        Seq::empty()
    } else {
        print_item(items[0]) + print_items(items.subrange(1, items.len() as int))
    }
}

/// Whether the tokens of a statement end with an `if` without `else`, to
/// which an `else` after them would belong.
pub open spec fn open_if(s: Statement) -> bool
    decreases s,
{
    match s {
        Statement::If(_, _, None) => true,
        Statement::If(_, _, Some(b)) => open_if(*b),
        Statement::For(_, _, _, body) => open_if(*body),
        Statement::ForDecl(_, _, _, body) => open_if(*body),
        Statement::While(_, body) => open_if(*body),
        _ => false,
    }
}

/// Whether, in a statement, no `if` with an `else` has a first branch that
/// ends with an `if` without `else` (which the `else` would belong to).
pub open spec fn no_dangling_else(s: Statement) -> bool
    decreases s,
{
    match s {
        Statement::If(_, a, None) => no_dangling_else(*a),
        Statement::If(_, a, Some(b)) => !open_if(*a) && no_dangling_else(*a) && no_dangling_else(
            *b,
        ),
        Statement::Compound(items) => items_no_dangling_else(items@),
        Statement::For(_, _, _, body) => no_dangling_else(*body),
        Statement::ForDecl(_, _, _, body) => no_dangling_else(*body),
        Statement::While(_, body) => no_dangling_else(*body),
        Statement::DoWhile(body, _) => no_dangling_else(*body),
        _ => true,
    }
}

pub open spec fn items_no_dangling_else(items: Seq<BlockItem>) -> bool
    decreases items,
{
    if items.len() == 0 {
        true
    } else {
        (match items[0] {
            BlockItem::Stmt(s) => no_dangling_else(s),
            BlockItem::Decl(_) => true,
        }) && items_no_dangling_else(items.subrange(1, items.len() as int))
    }
}

/// The models of a list of block items: the model of the first, then those of the rest.
proof fn lemma_items_view_front(items: Seq<BlockItem>)
    requires
        items.len() > 0,
    ensures
        items_view(items) == seq![item_view(items[0])] + items_view(
            items.subrange(1, items.len() as int),
        ),
    decreases items.len(),
{
    let n = items.len() as int;
    if n == 1 {
        assert(items_view(Seq::<BlockItem>::empty()) =~= Seq::<SpecBlockItem>::empty());
        assert(items.subrange(0, 0) =~= Seq::<BlockItem>::empty());
        assert(items.subrange(1, 1) =~= Seq::<BlockItem>::empty());
        assert(items_view(items) =~= seq![item_view(items[0])]);
        assert(items_view(items.subrange(1, n)) =~= Seq::<SpecBlockItem>::empty());
    } else {
        let init = items.subrange(0, n - 1);
        let tail = items.subrange(1, n);
        lemma_items_view_front(init);
        assert(tail.subrange(0, n - 2) =~= init.subrange(1, n - 1));
        assert(tail[n - 2] == items[n - 1]);
        assert(init[0] == items[0]);
        assert(items_view(tail) == items_view(tail.subrange(0, n - 2)).push(item_view(tail[n - 2])));
        assert(items_view(items) =~= seq![item_view(items[0])] + items_view(tail));
    }
}

/// The first token of a statement: never `int`, `else` or `}`.
proof fn lemma_stmt_first(st: Statement)
    ensures
        print_stmt(st).len() > 0,
        print_stmt(st)[0] != Token::Keyword(Keyword::Int),
        print_stmt(st)[0] != Token::Keyword(Keyword::Else),
        !(print_stmt(st)[0] is Rbrace),
{
    match st {
        Statement::Expr(e) => lemma_print_shape(e),
        _ => {},
    }
}

/// The first token of a block item: never `else` or `}`.
proof fn lemma_item_first(b: BlockItem)
    ensures
        print_item(b).len() > 0,
        print_item(b)[0] != Token::Keyword(Keyword::Else),
        !(print_item(b)[0] is Rbrace),
        b is Decl <==> print_item(b)[0] == Token::Keyword(Keyword::Int),
{
    match b {
        BlockItem::Stmt(st) => lemma_stmt_first(st),
        BlockItem::Decl(d) => {},
    }
}

/// Printed declarations parse back.
proof fn lemma_print_decl(d: Declaration, p: Seq<TokNLoc>, q: Seq<TokNLoc>)
    requires
        tokens_of(p) == print_decl(d),
    ensures
        declaration(p + q) == Outcome::Parsed(decl_view(d), q),
{
    let ts = print_decl(d);
    let n = ts.len() as int;
    lemma_tokens_subrange(p, ts, 0, n);
    let s = p + q;
    let t = s.drop_first();
    let u = t.drop_first();
    assert(s[0] == p[0]);
    assert(t[0] == p[1]);
    match d.init {
        Some(e) => {
            let ne = print_expr(e).len() as int;
            lemma_tokens_subrange(p, ts, 3, 3 + ne);
            assert(ts.subrange(3, 3 + ne) =~= print_expr(e));
            let pe = p.subrange(3, 3 + ne);
            let z = seq![p[n - 1]] + q;
            assert(u[0] == p[2]);
            assert(u.drop_first() =~= pe + z);
            assert(z.drop_first() =~= q);
            lemma_print_expression(e, pe, z);
        },
        None => {
            assert(u[0] == p[2]);
            assert(u.drop_first() =~= q);
        },
    }
}

/// What may follow the tokens of statement `st`: something, and not an `else`
/// where `st` ends with an `if` without `else`.
pub open spec fn may_follow(st: Statement, q: Seq<TokNLoc>) -> bool {
    q.len() > 0 && (open_if(st) ==> q[0].token != Token::Keyword(Keyword::Else))
}

/// Printed statements parse back.
pub(crate) proof fn lemma_print_statement(st: Statement, p: Seq<TokNLoc>, q: Seq<TokNLoc>)
    requires
        tokens_of(p) == print_stmt(st),
        no_dangling_else(st),
        may_follow(st, q),
    ensures
        statement(p + q) == Outcome::Parsed(stmt_view(st), q),
    decreases st, 1nat,
{
    match st {
        Statement::Return(_) => lemma_print_return(st, p, q),
        Statement::Expr(_) => lemma_print_expr_stmt(st, p, q),
        Statement::If(_, _, Some(_)) => lemma_print_if_else(st, p, q),
        Statement::If(_, _, None) => lemma_print_if_then(st, p, q),
        Statement::Compound(_) => lemma_print_compound(st, p, q),
        Statement::For(_, _, _, _) => lemma_print_for(st, p, q),
        Statement::ForDecl(_, _, _, _) => lemma_print_for_decl(st, p, q),
        Statement::While(_, _) => lemma_print_while(st, p, q),
        Statement::DoWhile(_, _) => lemma_print_do(st, p, q),
        _ => lemma_print_simple(st, p, q),
    }
}

proof fn lemma_print_simple(st: Statement, p: Seq<TokNLoc>, q: Seq<TokNLoc>)
    requires
        tokens_of(p) == print_stmt(st),
        st is Break || st is Continue || st is Null,
    ensures
        statement(p + q) == Outcome::Parsed(stmt_view(st), q),
{
    let ts = print_stmt(st);
    lemma_tokens_subrange(p, ts, 0, ts.len() as int);
    let s = p + q;
    assert(s[0] == p[0]);
    if st is Null {
        assert(s.drop_first() =~= q);
    } else {
        assert(s.drop_first()[0] == p[1]);
        assert(s.drop_first().drop_first() =~= q);
    }
}

proof fn lemma_print_return(st: Statement, p: Seq<TokNLoc>, q: Seq<TokNLoc>)
    requires
        tokens_of(p) == print_stmt(st),
        st is Return,
    ensures
        statement(p + q) == Outcome::Parsed(stmt_view(st), q),
{
    if let Statement::Return(e) = st {
        let ts = print_stmt(st);
        let n = ts.len() as int;
        let ne = print_expr(e).len() as int;
        lemma_tokens_subrange(p, ts, 0, n);
        lemma_tokens_subrange(p, ts, 1, 1 + ne);
        assert(ts.subrange(1, 1 + ne) =~= print_expr(e));
        let pe = p.subrange(1, 1 + ne);
        let z = seq![p[n - 1]] + q;
        let s = p + q;
        assert(s[0] == p[0]);
        assert(s.drop_first() =~= pe + z);
        assert(z.drop_first() =~= q);
        lemma_print_expression(e, pe, z);
        assert(return_rest(s.drop_first()) == Outcome::Parsed(stmt_view(st), q));
    }
}

proof fn lemma_print_expr_stmt(st: Statement, p: Seq<TokNLoc>, q: Seq<TokNLoc>)
    requires
        tokens_of(p) == print_stmt(st),
        st is Expr,
    ensures
        statement(p + q) == Outcome::Parsed(stmt_view(st), q),
{
    if let Statement::Expr(e) = st {
        let ts = print_stmt(st);
        let n = ts.len() as int;
        let ne = print_expr(e).len() as int;
        lemma_print_shape(e);
        lemma_tokens_subrange(p, ts, 0, n);
        lemma_tokens_subrange(p, ts, 0, ne);
        assert(ts.subrange(0, ne) =~= print_expr(e));
        let pe = p.subrange(0, ne);
        let z = seq![p[n - 1]] + q;
        let s = p + q;
        assert(s =~= pe + z);
        assert(s[0] == p[0]);
        assert(z.drop_first() =~= q);
        lemma_print_expression(e, pe, z);
    }
}

#[verifier::rlimit(90)]
#[verifier::spinoff_prover]
proof fn lemma_print_if_else(st: Statement, p: Seq<TokNLoc>, q: Seq<TokNLoc>)
    requires
        tokens_of(p) == print_stmt(st),
        no_dangling_else(st),
        may_follow(st, q),
        st matches Statement::If(_, _, Some(_)),
    ensures
        statement(p + q) == Outcome::Parsed(stmt_view(st), q),
    decreases st, 0nat,
{
    if let Statement::If(c, a, Some(bb)) = st {
        let ts = print_stmt(st);
        let n = ts.len() as int;
        let nc = print_expr(c).len() as int;
        let na = print_stmt(*a).len() as int;
        let k = 3 + nc + na;
        lemma_tokens_subrange(p, ts, 0, n);
        lemma_tokens_subrange(p, ts, 2, 2 + nc);
        lemma_tokens_subrange(p, ts, 3 + nc, k);
        assert(ts.subrange(2, 2 + nc) =~= print_expr(c));
        assert(ts.subrange(3 + nc, k) =~= print_stmt(*a));
        let pc = p.subrange(2, 2 + nc);
        let pa = p.subrange(3 + nc, k);
        let x = p.subrange(k, n) + q;
        let t3 = pa + x;
        let t2 = seq![p[2 + nc]] + t3;
        let s = p + q;
        let r = s.drop_first();
        assert(s[0] == p[0]);
        assert(r[0] == p[1]);
        assert(r.drop_first() =~= pc + t2);
        assert(t2.drop_first() =~= t3);
        lemma_print_expression(c, pc, t2);
        let nb = print_stmt(*bb).len() as int;
        lemma_tokens_subrange(p, ts, k + 1, n);
        assert(ts.subrange(k + 1, n) =~= print_stmt(*bb));
        let pb = p.subrange(k + 1, n);
        assert(x[0] == p[k]);
        assert(x.drop_first() =~= pb + q);
        lemma_print_statement(*a, pa, x);
        lemma_print_statement(*bb, pb, q);
        lemma_if_rest_steps(r, t2, t3, x, q, expr_view(c), stmt_view(*a), Some(stmt_view(*bb)));
    }
}

#[verifier::rlimit(90)]
#[verifier::spinoff_prover]
proof fn lemma_print_if_then(st: Statement, p: Seq<TokNLoc>, q: Seq<TokNLoc>)
    requires
        tokens_of(p) == print_stmt(st),
        no_dangling_else(st),
        may_follow(st, q),
        st matches Statement::If(_, _, None),
    ensures
        statement(p + q) == Outcome::Parsed(stmt_view(st), q),
    decreases st, 0nat,
{
    if let Statement::If(c, a, None) = st {
        let ts = print_stmt(st);
        let n = ts.len() as int;
        let nc = print_expr(c).len() as int;
        let na = print_stmt(*a).len() as int;
        let k = 3 + nc + na;
        lemma_tokens_subrange(p, ts, 0, n);
        lemma_tokens_subrange(p, ts, 2, 2 + nc);
        lemma_tokens_subrange(p, ts, 3 + nc, k);
        assert(ts.subrange(2, 2 + nc) =~= print_expr(c));
        assert(ts.subrange(3 + nc, k) =~= print_stmt(*a));
        let pc = p.subrange(2, 2 + nc);
        let pa = p.subrange(3 + nc, k);
        let x = p.subrange(k, n) + q;
        let t3 = pa + x;
        let t2 = seq![p[2 + nc]] + t3;
        let s = p + q;
        let r = s.drop_first();
        assert(s[0] == p[0]);
        assert(r[0] == p[1]);
        assert(r.drop_first() =~= pc + t2);
        assert(t2.drop_first() =~= t3);
        lemma_print_expression(c, pc, t2);
        assert(k == n);
        assert(x =~= q);
        lemma_print_statement(*a, pa, x);
        lemma_if_rest_steps(r, t2, t3, x, q, expr_view(c), stmt_view(*a), None);
    }
}

#[verifier::rlimit(90)]
#[verifier::spinoff_prover]
proof fn lemma_print_while(st: Statement, p: Seq<TokNLoc>, q: Seq<TokNLoc>)
    requires
        tokens_of(p) == print_stmt(st),
        no_dangling_else(st),
        may_follow(st, q),
        st is While,
    ensures
        statement(p + q) == Outcome::Parsed(stmt_view(st), q),
    decreases st, 0nat,
{
    if let Statement::While(c, body) = st {
        let ts = print_stmt(st);
        let n = ts.len() as int;
        let nc = print_expr(c).len() as int;
        lemma_tokens_subrange(p, ts, 0, n);
        lemma_tokens_subrange(p, ts, 2, 2 + nc);
        lemma_tokens_subrange(p, ts, 3 + nc, n);
        assert(ts.subrange(2, 2 + nc) =~= print_expr(c));
        assert(ts.subrange(3 + nc, n) =~= print_stmt(*body));
        let pc = p.subrange(2, 2 + nc);
        let pb = p.subrange(3 + nc, n);
        let t3 = pb + q;
        let t2 = seq![p[2 + nc]] + t3;
        let s = p + q;
        let r = s.drop_first();
        assert(s[0] == p[0]);
        assert(r[0] == p[1]);
        assert(r.drop_first() =~= pc + t2);
        assert(t2.drop_first() =~= t3);
        lemma_print_expression(c, pc, t2);
        lemma_print_statement(*body, pb, q);
        assert(while_rest(r) == Outcome::Parsed(stmt_view(st), q));
    }
}

#[verifier::rlimit(90)]
#[verifier::spinoff_prover]
proof fn lemma_print_do(st: Statement, p: Seq<TokNLoc>, q: Seq<TokNLoc>)
    requires
        tokens_of(p) == print_stmt(st),
        no_dangling_else(st),
        q.len() > 0,
        st is DoWhile,
    ensures
        statement(p + q) == Outcome::Parsed(stmt_view(st), q),
    decreases st, 0nat,
{
    if let Statement::DoWhile(body, c) = st {
        let ts = print_stmt(st);
        let n = ts.len() as int;
        let nb = print_stmt(*body).len() as int;
        let nc = print_expr(c).len() as int;
        lemma_tokens_subrange(p, ts, 0, n);
        lemma_tokens_subrange(p, ts, 1, 1 + nb);
        lemma_tokens_subrange(p, ts, 3 + nb, 3 + nb + nc);
        assert(ts.subrange(1, 1 + nb) =~= print_stmt(*body));
        assert(ts.subrange(3 + nb, 3 + nb + nc) =~= print_expr(c));
        assert(n == 5 + nb + nc);
        let pb = p.subrange(1, 1 + nb);
        let pc = p.subrange(3 + nb, 3 + nb + nc);
        let z2 = seq![p[n - 1]] + q;
        let z = seq![p[n - 2]] + z2;
        let t3 = pc + z;
        let w2 = seq![p[2 + nb]] + t3;
        let w = seq![p[1 + nb]] + w2;
        let s = p + q;
        let r = s.drop_first();
        assert(s[0] == p[0]);
        assert(r =~= pb + w);
        assert(w.drop_first() =~= w2);
        assert(w2.drop_first() =~= t3);
        assert(z.drop_first() =~= z2);
        assert(z2.drop_first() =~= q);
        lemma_print_statement(*body, pb, w);
        lemma_print_expression(c, pc, z);
        assert(w[0] == p[1 + nb]);
        assert(w2[0] == p[2 + nb]);
        assert(z[0] == p[n - 2]);
        assert(z2[0] == p[n - 1]);
        lemma_do_rest_steps(r, w, w2, t3, z, z2, q, stmt_view(*body), expr_view(c));
    }
}

#[verifier::rlimit(90)]
#[verifier::spinoff_prover]
proof fn lemma_print_compound(st: Statement, p: Seq<TokNLoc>, q: Seq<TokNLoc>)
    requires
        tokens_of(p) == print_stmt(st),
        no_dangling_else(st),
        st is Compound,
    ensures
        statement(p + q) == Outcome::Parsed(stmt_view(st), q),
    decreases st, 0nat,
{
    if let Statement::Compound(items) = st {
        let ts = print_stmt(st);
        let n = ts.len() as int;
        lemma_tokens_subrange(p, ts, 0, n);
        lemma_tokens_subrange(p, ts, 1, n - 1);
        assert(ts.subrange(1, n - 1) =~= print_items(items@));
        let pi = p.subrange(1, n - 1);
        let z = seq![p[n - 1]] + q;
        let s = p + q;
        assert(s[0] == p[0]);
        assert(s.drop_first() =~= pi + z);
        assert(z.drop_first() =~= q);
        lemma_print_items(items@, pi, z, Seq::empty());
        assert(Seq::<SpecBlockItem>::empty() + items_view(items@) =~= items_view(items@));
        assert(compound(s) == Outcome::Parsed(items_view(items@), q));
    }
}

/// Printed block items, followed by `}`, parse back up to and including the `}`.
#[verifier::rlimit(90)]
#[verifier::spinoff_prover]
pub(crate) proof fn lemma_print_items(
    items: Seq<BlockItem>,
    p: Seq<TokNLoc>,
    z: Seq<TokNLoc>,
    acc: Seq<SpecBlockItem>,
)
    requires
        tokens_of(p) == print_items(items),
        items_no_dangling_else(items),
        z.len() > 0,
        z[0].token is Rbrace,
    ensures
        block_items(p + z, acc) == Outcome::Parsed(acc + items_view(items), z.drop_first()),
    decreases items, 2nat,
{
    if items.len() == 0 {
        assert(p =~= Seq::<TokNLoc>::empty());
        assert(p + z =~= z);
        assert(items_view(items) =~= Seq::<SpecBlockItem>::empty());
        assert(acc + items_view(items) =~= acc);
    } else {
        lemma_items_view_front(items);
        let rest = items.subrange(1, items.len() as int);
        let ts = print_items(items);
        let n = ts.len() as int;
        let n0 = print_item(items[0]).len() as int;
        assert(ts == print_item(items[0]) + print_items(rest));
        lemma_tokens_subrange(p, ts, 0, n);
        lemma_tokens_subrange(p, ts, 0, n0);
        lemma_tokens_subrange(p, ts, n0, n);
        assert(ts.subrange(0, n0) =~= print_item(items[0]));
        assert(ts.subrange(n0, n) =~= print_items(rest));
        let p0 = p.subrange(0, n0);
        let prest = p.subrange(n0, n);
        let u = prest + z;
        assert(p + z =~= p0 + u);
        lemma_item_first(items[0]);
        if rest.len() > 0 {
            lemma_item_first(rest[0]);
            assert(print_items(rest) == print_item(rest[0]) + print_items(
                rest.subrange(1, rest.len() as int),
            ));
            assert(u[0] == prest[0]);
        } else {
            assert(prest.len() == 0);
            assert(u =~= z);
        }
        assert(u[0].token != Token::Keyword(Keyword::Else));
        let v0 = item_view(items[0]);
        match items[0] {
            BlockItem::Stmt(st) => {
                lemma_print_statement(st, p0, u);
            },
            BlockItem::Decl(d) => {
                lemma_print_decl(d, p0, u);
            },
        }
        assert((p0 + u)[0] == p0[0]);
        assert(block_item(p0 + u) == Outcome::Parsed(v0, u));
        lemma_print_items(rest, prest, z, acc.push(v0));
        assert(acc.push(v0) + items_view(rest) =~= acc + items_view(items));
    }
}

/// The part of a printed `for` statement after its first clause: condition,
/// `;`, post expression, `)` and body parse back.
#[verifier::rlimit(90)]
#[verifier::spinoff_prover]
proof fn lemma_print_for_parts(
    c: Expression,
    post: Option<Expression>,
    body: Statement,
    p2: Seq<TokNLoc>,
    q: Seq<TokNLoc>,
)
    requires
        tokens_of(p2) == print_expr(c) + seq![Token::Semicolon] + print_opt_expr(post) + seq![
            Token::Rparen,
        ] + print_stmt(body),
        no_dangling_else(body),
        may_follow(body, q),
    ensures
        ({
            let nc = print_expr(c).len() as int;
            let np = print_opt_expr(post).len() as int;
            let t3 = p2.subrange(nc + 1, p2.len() as int) + q;
            let t4 = p2.subrange(nc + np + 2, p2.len() as int) + q;
            &&& for_condition(p2 + q) == Outcome::Parsed(expr_view(c), t3)
            &&& for_post(t3) == Outcome::Parsed(opt_expr_view(post), t4)
            &&& statement(t4) == Outcome::Parsed(stmt_view(body), q)
        }),
    decreases body, 2nat,
{
    let ts = tokens_of(p2);
    let n = ts.len() as int;
    let nc = print_expr(c).len() as int;
    let np = print_opt_expr(post).len() as int;
    lemma_print_shape(c);
    lemma_tokens_subrange(p2, ts, 0, n);
    lemma_tokens_subrange(p2, ts, 0, nc);
    lemma_tokens_subrange(p2, ts, nc + 1, nc + 1 + np);
    lemma_tokens_subrange(p2, ts, nc + np + 2, n);
    assert(ts.subrange(0, nc) =~= print_expr(c));
    assert(ts.subrange(nc + 1, nc + 1 + np) =~= print_opt_expr(post));
    assert(ts.subrange(nc + np + 2, n) =~= print_stmt(body));
    let pc = p2.subrange(0, nc);
    let pp = p2.subrange(nc + 1, nc + 1 + np);
    let pb = p2.subrange(nc + np + 2, n);
    let t4 = pb + q;
    let z2 = seq![p2[nc + np + 1]] + t4;
    let t3 = p2.subrange(nc + 1, n) + q;
    let z1 = seq![p2[nc]] + t3;
    assert(p2 + q =~= pc + z1);
    assert(z1.drop_first() =~= t3);
    assert(t3 =~= pp + z2);
    assert(z2.drop_first() =~= t4);
    lemma_print_expression(c, pc, z1);
    assert((p2 + q)[0] == p2[0]);
    assert(for_condition(p2 + q) == Outcome::Parsed(expr_view(c), t3));
    match post {
        Some(e) => {
            lemma_print_shape(e);
            lemma_print_expression(e, pp, z2);
            assert(t3[0] == pp[0]);
        },
        None => {
            assert(pp.len() == 0);
            assert(t3 =~= z2);
        },
    }
    assert(for_post(t3) == Outcome::Parsed(opt_expr_view(post), t4));
    lemma_print_statement(body, pb, q);
}

#[verifier::rlimit(90)]
#[verifier::spinoff_prover]
proof fn lemma_print_for(st: Statement, p: Seq<TokNLoc>, q: Seq<TokNLoc>)
    requires
        tokens_of(p) == print_stmt(st),
        no_dangling_else(st),
        may_follow(st, q),
        st is For,
    ensures
        statement(p + q) == Outcome::Parsed(stmt_view(st), q),
    decreases st, 0nat,
{
    if let Statement::For(init, c, post, body) = st {
        let ts = print_stmt(st);
        let n = ts.len() as int;
        let ni = print_opt_expr(init).len() as int;
        lemma_tokens_subrange(p, ts, 0, n);
        lemma_tokens_subrange(p, ts, 2, 2 + ni);
        lemma_tokens_subrange(p, ts, 3 + ni, n);
        assert(ts.subrange(2, 2 + ni) =~= print_opt_expr(init));
        assert(ts.subrange(3 + ni, n) =~= print_expr(c) + seq![Token::Semicolon] + print_opt_expr(
            post,
        ) + seq![Token::Rparen] + print_stmt(*body));
        let pi = p.subrange(2, 2 + ni);
        let p2 = p.subrange(3 + ni, n);
        let t2 = p2 + q;
        let z = seq![p[2 + ni]] + t2;
        let s = p + q;
        let r = s.drop_first();
        let t1 = r.drop_first();
        assert(s[0] == p[0]);
        assert(r[0] == p[1]);
        assert(t1 =~= pi + z);
        assert(z.drop_first() =~= t2);
        lemma_print_for_init(init, pi, z);
        assert(for_init(t1) == Outcome::Parsed((None::<crate::ast::SpecDeclaration>, opt_expr_view(init)), t2));
        lemma_print_for_parts(c, post, *body, p2, q);
        assert(for_rest(r) == Outcome::Parsed(stmt_view(st), q));
    }
}

#[verifier::rlimit(90)]
#[verifier::spinoff_prover]
proof fn lemma_print_for_decl(st: Statement, p: Seq<TokNLoc>, q: Seq<TokNLoc>)
    requires
        tokens_of(p) == print_stmt(st),
        no_dangling_else(st),
        may_follow(st, q),
        st is ForDecl,
    ensures
        statement(p + q) == Outcome::Parsed(stmt_view(st), q),
    decreases st, 0nat,
{
    if let Statement::ForDecl(d, c, post, body) = st {
        let ts = print_stmt(st);
        let n = ts.len() as int;
        let nd = print_decl(d).len() as int;
        lemma_tokens_subrange(p, ts, 0, n);
        lemma_tokens_subrange(p, ts, 2, 2 + nd);
        lemma_tokens_subrange(p, ts, 2 + nd, n);
        assert(ts.subrange(2, 2 + nd) =~= print_decl(d));
        assert(ts.subrange(2 + nd, n) =~= print_expr(c) + seq![Token::Semicolon] + print_opt_expr(
            post,
        ) + seq![Token::Rparen] + print_stmt(*body));
        let pd = p.subrange(2, 2 + nd);
        let p2 = p.subrange(2 + nd, n);
        let t2 = p2 + q;
        let s = p + q;
        let r = s.drop_first();
        let t1 = r.drop_first();
        assert(s[0] == p[0]);
        assert(r[0] == p[1]);
        assert(t1 =~= pd + t2);
        lemma_print_decl(d, pd, t2);
        assert(t1[0] == pd[0]);
        assert(for_init(t1) == Outcome::Parsed((Some(decl_view(d)), None::<crate::ast::SpecExpression>), t2));
        lemma_print_for_parts(c, post, *body, p2, q);
        assert(for_rest(r) == Outcome::Parsed(stmt_view(st), q));
    }
}

/// The first clause of a printed `for` statement without declaration parses back.
proof fn lemma_print_for_init(init: Option<Expression>, pi: Seq<TokNLoc>, z: Seq<TokNLoc>)
    requires
        tokens_of(pi) == print_opt_expr(init),
        z.len() > 0,
        z[0].token is Semicolon,
    ensures
        for_init(pi + z) == Outcome::Parsed(
            (None::<crate::ast::SpecDeclaration>, opt_expr_view(init)),
            z.drop_first(),
        ),
{
    let t1 = pi + z;
    match init {
        Some(e) => {
            lemma_print_shape(e);
            lemma_print_expression(e, pi, z);
            lemma_tokens_subrange(pi, print_expr(e), 0, pi.len() as int);
            assert(t1[0] == pi[0]);
        },
        None => {
            assert(tokens_of(pi).len() == pi.len());
            assert(pi.len() == 0);
            assert(t1 =~= z);
        },
    }
}

/// The tokens of the parameters after the first: `, int name` for each.
pub open spec fn print_more_params(ps: Seq<String>) -> Seq<Token>
    decreases ps.len(),
{
    if ps.len() == 0 {
        Seq::empty()
    } else {
        seq![Token::Comma, Token::Keyword(Keyword::Int), Token::Identifier(ps[0])]
            + print_more_params(ps.subrange(1, ps.len() as int))
    }
}

/// The tokens of a parameter list: `int name` for each, separated by commas.
pub open spec fn print_params(ps: Seq<String>) -> Seq<Token> {
    if ps.len() == 0 {
        Seq::empty()
    } else {
        seq![Token::Keyword(Keyword::Int), Token::Identifier(ps[0])] + print_more_params(
            ps.subrange(1, ps.len() as int),
        )
    }
}

/// The tokens of a function: `int name ( params ) ;` or `int name ( params ) { items }`.
pub open spec fn print_function(f: Function) -> Seq<Token> {
    match f {
        Function::Declaration(name, ps) => seq![
            Token::Keyword(Keyword::Int),
            Token::Identifier(name),
            Token::Lparen,
        ] + print_params(ps@) + seq![Token::Rparen, Token::Semicolon],
        Function::Definition(name, ps, body) => seq![
            Token::Keyword(Keyword::Int),
            Token::Identifier(name),
            Token::Lparen,
        ] + print_params(ps@) + seq![Token::Rparen, Token::Lbrace] + print_items(body@) + seq![
            Token::Rbrace,
        ],
    }
}

/// The tokens of a program: those of its functions, one after the other.
pub open spec fn print_program(fs: Seq<Function>) -> Seq<Token>
    decreases fs.len(),
{
    if fs.len() == 0 {
        Seq::empty()
    } else {
        print_function(fs[0]) + print_program(fs.subrange(1, fs.len() as int))
    }
}

/// The body of a function, if it has one, holds no `if` with `else` whose
/// first branch ends with an `if` without `else`.
pub open spec fn body_no_dangling_else(f: Function) -> bool {
    match f {
        Function::Definition(_, _, body) => items_no_dangling_else(body@),
        Function::Declaration(_, _) => true,
    }
}

/// No function of the program has a body with an `if` with `else` whose first
/// branch ends with an `if` without `else`.
pub open spec fn program_no_dangling_else(fs: Seq<Function>) -> bool {
    forall|i: int| 0 <= i < fs.len() ==> body_no_dangling_else(#[trigger] fs[i])
}

proof fn lemma_print_more_params(ps: Seq<String>, p: Seq<TokNLoc>, z: Seq<TokNLoc>, acc: Seq<Seq<char>>)
    requires
        tokens_of(p) == print_more_params(ps),
        z.len() > 0,
        z[0].token is Rparen,
    ensures
        more_params(p + z, acc) == Outcome::Parsed(acc + names_view(ps), z),
    decreases ps.len(),
{
    if ps.len() == 0 {
        assert(tokens_of(p).len() == p.len());
        assert(p + z =~= z);
        assert(acc + names_view(ps) =~= acc);
    } else {
        let ts = print_more_params(ps);
        let n = ts.len() as int;
        let rest = ps.subrange(1, ps.len() as int);
        lemma_tokens_subrange(p, ts, 0, n);
        lemma_tokens_subrange(p, ts, 3, n);
        assert(ts.subrange(3, n) =~= print_more_params(rest));
        let prest = p.subrange(3, n);
        let s = p + z;
        let u = s.drop_first().drop_first();
        assert(s[0] == p[0]);
        assert(s.drop_first()[0] == p[1]);
        assert(u[0] == p[2]);
        assert(u.drop_first() =~= prest + z);
        lemma_print_more_params(rest, prest, z, acc.push(ps[0]@));
        assert(acc.push(ps[0]@) + names_view(rest) =~= acc + names_view(ps));
    }
}

proof fn lemma_print_params(ps: Seq<String>, p: Seq<TokNLoc>, z: Seq<TokNLoc>)
    requires
        tokens_of(p) == print_params(ps),
        z.len() > 0,
        z[0].token is Rparen,
    ensures
        params(p + z) == Outcome::Parsed(names_view(ps), z),
{
    if ps.len() == 0 {
        assert(tokens_of(p).len() == p.len());
        assert(p + z =~= z);
        assert(names_view(ps) =~= Seq::<Seq<char>>::empty());
    } else {
        let ts = print_params(ps);
        let n = ts.len() as int;
        let rest = ps.subrange(1, ps.len() as int);
        lemma_tokens_subrange(p, ts, 0, n);
        lemma_tokens_subrange(p, ts, 2, n);
        assert(ts.subrange(2, n) =~= print_more_params(rest));
        let prest = p.subrange(2, n);
        let s = p + z;
        let v = s.drop_first();
        assert(s[0] == p[0]);
        assert(v[0] == p[1]);
        assert(v.drop_first() =~= prest + z);
        lemma_print_more_params(rest, prest, z, seq![ps[0]@]);
        assert(seq![ps[0]@] + names_view(rest) =~= names_view(ps));
    }
}

proof fn lemma_print_function(f: Function, p: Seq<TokNLoc>, q: Seq<TokNLoc>)
    requires
        tokens_of(p) == print_function(f),
        body_no_dangling_else(f),
    ensures
        function(p + q) == Outcome::Parsed(function_view(f), q),
{
    match f {
        Function::Declaration(name, ps) => lemma_print_function_declaration(name, ps, p, q),
        Function::Definition(name, ps, body) => lemma_print_function_definition(name, ps, body, p, q),
    }
}

#[verifier::rlimit(90)]
#[verifier::spinoff_prover]
proof fn lemma_print_function_declaration(name: String, ps: Vec<String>, p: Seq<TokNLoc>, q: Seq<TokNLoc>)
    requires
        tokens_of(p) == print_function(Function::Declaration(name, ps)),
    ensures
        function(p + q) == Outcome::Parsed(function_view(Function::Declaration(name, ps)), q),
{
    let ts = print_function(Function::Declaration(name, ps));
    let n = ts.len() as int;
    let m = print_params(ps@).len() as int;
    lemma_tokens_subrange(p, ts, 0, n);
    lemma_tokens_subrange(p, ts, 3, 3 + m);
    assert(ts.subrange(3, 3 + m) =~= print_params(ps@));
    let s = p + q;
    let t = s.drop_first();
    let w = t.drop_first().drop_first();
    assert(s[0] == p[0]);
    assert(t[0] == p[1]);
    assert(t.drop_first()[0] == p[2]);
    let pp = p.subrange(3, 3 + m);
    let z2 = seq![p[n - 1]] + q;
    let z = seq![p[n - 2]] + z2;
    assert(w =~= pp + z);
    assert(z.drop_first() =~= z2);
    assert(z2.drop_first() =~= q);
    lemma_print_params(ps@, pp, z);
}

#[verifier::rlimit(90)]
#[verifier::spinoff_prover]
proof fn lemma_print_function_definition(
    name: String,
    ps: Vec<String>,
    body: Vec<BlockItem>,
    p: Seq<TokNLoc>,
    q: Seq<TokNLoc>,
)
    requires
        tokens_of(p) == print_function(Function::Definition(name, ps, body)),
        items_no_dangling_else(body@),
    ensures
        function(p + q) == Outcome::Parsed(function_view(Function::Definition(name, ps, body)), q),
{
    let ts = print_function(Function::Definition(name, ps, body));
    let n = ts.len() as int;
    let m = print_params(ps@).len() as int;
    let k = print_items(body@).len() as int;
    lemma_tokens_subrange(p, ts, 0, n);
    lemma_tokens_subrange(p, ts, 3, 3 + m);
    lemma_tokens_subrange(p, ts, 5 + m, 5 + m + k);
    assert(ts.subrange(3, 3 + m) =~= print_params(ps@));
    assert(ts.subrange(5 + m, 5 + m + k) =~= print_items(body@));
    let s = p + q;
    let t = s.drop_first();
    let w = t.drop_first().drop_first();
    assert(s[0] == p[0]);
    assert(t[0] == p[1]);
    assert(t.drop_first()[0] == p[2]);
    let pp = p.subrange(3, 3 + m);
    let pi = p.subrange(5 + m, 5 + m + k);
    let zb = seq![p[n - 1]] + q;
    let y = seq![p[4 + m]] + (pi + zb);
    let z = seq![p[3 + m]] + y;
    assert(w =~= pp + z);
    assert(z.drop_first() =~= y);
    assert(y.drop_first() =~= pi + zb);
    assert(zb.drop_first() =~= q);
    lemma_print_params(ps@, pp, z);
    lemma_print_items(body@, pi, zb, Seq::empty());
    assert(Seq::<SpecBlockItem>::empty() + items_view(body@) =~= items_view(body@));
    assert(compound(y) == Outcome::Parsed(items_view(body@), q));
}

#[verifier::rlimit(90)]
#[verifier::spinoff_prover]
proof fn lemma_print_functions(fs: Seq<Function>, p: Seq<TokNLoc>, acc: Seq<SpecFunction>)
    requires
        tokens_of(p) == print_program(fs),
        program_no_dangling_else(fs),
    ensures
        functions(p, acc) == Outcome::Parsed(
            acc + fs.map_values(|f: Function| function_view(f)),
            Seq::<TokNLoc>::empty(),
        ),
    decreases fs.len(),
{
    if fs.len() == 0 {
        assert(tokens_of(p).len() == p.len());
        assert(p =~= Seq::<TokNLoc>::empty());
        assert(acc + fs.map_values(|f: Function| function_view(f)) =~= acc);
    } else {
        let ts = print_program(fs);
        let n = ts.len() as int;
        let n0 = print_function(fs[0]).len() as int;
        let rest = fs.subrange(1, fs.len() as int);
        lemma_tokens_subrange(p, ts, 0, n0);
        lemma_tokens_subrange(p, ts, n0, n);
        assert(ts.subrange(0, n0) =~= print_function(fs[0]));
        assert(ts.subrange(n0, n) =~= print_program(rest));
        let p0 = p.subrange(0, n0);
        let prest = p.subrange(n0, n);
        assert(p =~= p0 + prest);
        assert(print_function(fs[0]).len() > 0);
        assert(p.len() > 0);
        assert(body_no_dangling_else(fs[0]));
        lemma_print_function(fs[0], p0, prest);
        assert forall|i: int| 0 <= i < rest.len() implies body_no_dangling_else(#[trigger] rest[i]) by {
            assert(rest[i] == fs[i + 1]);
        }
        lemma_print_functions(rest, prest, acc.push(function_view(fs[0])));
        assert(acc.push(function_view(fs[0])) + rest.map_values(|f: Function| function_view(f))
            =~= acc + fs.map_values(|f: Function| function_view(f)));
    }
}

/// Parsing printed tokens gives back the program: whatever their locations,
/// tokens that print a list of functions (where no `else` would belong to an
/// inner `if` without `else`) parse as those functions.
pub proof fn law_printed_program_parses_back(fs: Seq<Function>, p: Seq<TokNLoc>)
    requires
        tokens_of(p) == print_program(fs),
        program_no_dangling_else(fs),
    ensures
        program(p) == Outcome::Parsed(
            fs.map_values(|f: Function| function_view(f)),
            Seq::<TokNLoc>::empty(),
        ),
{
    lemma_print_functions(fs, p, Seq::empty());
    assert(Seq::<SpecFunction>::empty() + fs.map_values(|f: Function| function_view(f))
        =~= fs.map_values(|f: Function| function_view(f)));
}

/// How an `if` statement is put together from its parts, once they are parsed.
proof fn lemma_if_rest_steps(
    r: Seq<TokNLoc>,
    t2: Seq<TokNLoc>,
    t3: Seq<TokNLoc>,
    x: Seq<TokNLoc>,
    q: Seq<TokNLoc>,
    vc: SpecExpression,
    va: SpecStatement,
    vb: Option<SpecStatement>,
)
    requires
        r.len() > 0,
        r[0].token is Lparen,
        expression(r.drop_first()) == Outcome::Parsed(vc, t2),
        t2.len() > 0,
        t2[0].token is Rparen,
        t2.drop_first() == t3,
        t3.len() < r.len(),
        statement(t3) == Outcome::Parsed(va, x),
        x.len() > 0,
        match vb {
            Some(b) => x[0].token == Token::Keyword(Keyword::Else) && x.len() < r.len() && statement(
                x.drop_first(),
            ) == Outcome::Parsed(b, q),
            None => x[0].token != Token::Keyword(Keyword::Else) && x == q,
        },
    ensures
        if_rest(r) == Outcome::Parsed(
            SpecStatement::If(
                vc,
                Box::new(va),
                match vb {
                    Some(b) => Some(Box::new(b)),
                    None => None,
                },
            ),
            q,
        ),
{
}

/// How a `do` statement is put together from its parts, once they are parsed.
proof fn lemma_do_rest_steps(
    r: Seq<TokNLoc>,
    w: Seq<TokNLoc>,
    w2: Seq<TokNLoc>,
    t3: Seq<TokNLoc>,
    z: Seq<TokNLoc>,
    z2: Seq<TokNLoc>,
    q: Seq<TokNLoc>,
    vb: SpecStatement,
    vc: SpecExpression,
)
    requires
        statement(r) == Outcome::Parsed(vb, w),
        w.len() > 0,
        w[0].token == Token::Keyword(Keyword::While),
        w.drop_first() == w2,
        w2.len() > 0,
        w2[0].token is Lparen,
        w2.drop_first() == t3,
        t3.len() < r.len(),
        expression(t3) == Outcome::Parsed(vc, z),
        z.len() > 0,
        z[0].token is Rparen,
        z.drop_first() == z2,
        z2.len() > 0,
        z2[0].token is Semicolon,
        z2.drop_first() == q,
    ensures
        do_rest(r) == Outcome::Parsed(SpecStatement::DoWhile(Box::new(vb), vc), q),
{
}

} // verus!
