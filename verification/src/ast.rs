use vstd::prelude::*;

verus! {

/// The kinds of (compound) assignment.
#[derive(Clone, Copy, Debug, PartialEq, Eq, Structural)]
pub enum AssignmentKind {
    Write,
    Add,
    Subtract,
    Multiply,
    Divide,
    Remainder,
    BitwiseXor,
    BitwiseOr,
    BitwiseAnd,
    LeftShift,
    RightShift,
}

/// Binary operators.
#[derive(Clone, Copy, Debug, PartialEq, Eq, Structural)]
pub enum BinaryOp {
    Multiplication,
    Division,
    Remainder,
    Addition,
    Subtraction,
    LeftShift,
    RightShift,
    Less,
    Greater,
    LessEqual,
    GreaterEqual,
    Equal,
    NotEqual,
    BitwiseAnd,
    BitwiseXor,
    BitwiseOr,
    LogicalAnd,
    LogicalOr,
}

/// Unary operators.
#[derive(Clone, Copy, Debug, PartialEq, Eq, Structural)]
pub enum UnaryOp {
    Negate,
    Not,
    Complement,
}

/// Increment or decrement, used both as prefix and as postfix operator.
#[derive(Clone, Copy, Debug, PartialEq, Eq, Structural)]
pub enum FixOp {
    Inc,
    Dec,
}

/// Expressions.
#[derive(Debug)]
pub enum Expression {
    Assign(AssignmentKind, String, Box<Expression>),
    BinaryOp(BinaryOp, Box<Expression>, Box<Expression>),
    UnaryOp(UnaryOp, Box<Expression>),
    PrefixOp(FixOp, String),
    PostfixOp(FixOp, String),
    Constant(u64),
    Variable(String),
    Conditional(Box<Expression>, Box<Expression>, Box<Expression>),
    FunctionCall(String, Vec<Expression>),
}

/// A variable declaration with an optional initializer.
#[derive(Debug)]
pub struct Declaration {
    pub id: String,
    pub init: Option<Expression>,
}

/// Statements.
#[derive(Debug)]
pub enum Statement {
    Return(Expression),
    Expr(Expression),
    If(Expression, Box<Statement>, Option<Box<Statement>>),
    Compound(Vec<BlockItem>),
    For(Option<Expression>, Expression, Option<Expression>, Box<Statement>),
    ForDecl(Declaration, Expression, Option<Expression>, Box<Statement>),
    While(Expression, Box<Statement>),
    DoWhile(Box<Statement>, Expression),
    Break,
    Continue,
    Null,
}

/// An item of a block: a statement or a declaration.
#[derive(Debug)]
pub enum BlockItem {
    Stmt(Statement),
    Decl(Declaration),
}

/// A function: a declaration (name and parameters) or a definition with a body.
#[derive(Debug)]
pub enum Function {
    Declaration(String, Vec<String>),
    Definition(String, Vec<String>, Vec<BlockItem>),
}

/// A whole program: its functions in source order.
#[derive(Debug)]
pub enum Program {
    Prog(Vec<Function>),
}

// ------------------------------------------------------------------
// Mathematical model of the syntax tree
// ------------------------------------------------------------------

/// The model of an `Expression`: names are character sequences.
pub enum SpecExpression {
    Assign(AssignmentKind, Seq<char>, Box<SpecExpression>),
    BinaryOp(BinaryOp, Box<SpecExpression>, Box<SpecExpression>),
    UnaryOp(UnaryOp, Box<SpecExpression>),
    PrefixOp(FixOp, Seq<char>),
    PostfixOp(FixOp, Seq<char>),
    Constant(u64),
    Variable(Seq<char>),
    Conditional(Box<SpecExpression>, Box<SpecExpression>, Box<SpecExpression>),
    FunctionCall(Seq<char>, Seq<SpecExpression>),
}

/// The model of a `Declaration`.
pub struct SpecDeclaration {
    pub id: Seq<char>,
    pub init: Option<SpecExpression>,
}

/// The model of a `Statement`.
pub enum SpecStatement {
    Return(SpecExpression),
    Expr(SpecExpression),
    If(SpecExpression, Box<SpecStatement>, Option<Box<SpecStatement>>),
    Compound(Seq<SpecBlockItem>),
    For(Option<SpecExpression>, SpecExpression, Option<SpecExpression>, Box<SpecStatement>),
    ForDecl(SpecDeclaration, SpecExpression, Option<SpecExpression>, Box<SpecStatement>),
    While(SpecExpression, Box<SpecStatement>),
    DoWhile(Box<SpecStatement>, SpecExpression),
    Break,
    Continue,
    Null,
}

/// The model of a `BlockItem`.
pub enum SpecBlockItem {
    Stmt(SpecStatement),
    Decl(SpecDeclaration),
}

/// The model of a `Function`.
pub enum SpecFunction {
    Declaration(Seq<char>, Seq<Seq<char>>),
    Definition(Seq<char>, Seq<Seq<char>>, Seq<SpecBlockItem>),
}

pub open spec fn expr_view(e: Expression) -> SpecExpression
    decreases e,
{
    match e {
        Expression::Assign(k, id, rhs) => SpecExpression::Assign(k, id@, Box::new(expr_view(*rhs))),
        Expression::BinaryOp(op, l, r) => SpecExpression::BinaryOp(
            op,
            Box::new(expr_view(*l)),
            Box::new(expr_view(*r)),
        ),
        Expression::UnaryOp(op, x) => SpecExpression::UnaryOp(op, Box::new(expr_view(*x))),
        Expression::PrefixOp(op, id) => SpecExpression::PrefixOp(op, id@),
        Expression::PostfixOp(op, id) => SpecExpression::PostfixOp(op, id@),
        Expression::Constant(v) => SpecExpression::Constant(v),
        Expression::Variable(id) => SpecExpression::Variable(id@),
        Expression::Conditional(c, a, b) => SpecExpression::Conditional(
            Box::new(expr_view(*c)),
            Box::new(expr_view(*a)),
            Box::new(expr_view(*b)),
        ),
        Expression::FunctionCall(id, args) => SpecExpression::FunctionCall(id@, exprs_view(args@)),
    }
}

pub open spec fn exprs_view(es: Seq<Expression>) -> Seq<SpecExpression>
    decreases es,
{
    if es.len() == 0 {
        Seq::empty()
    } else {
        exprs_view(es.subrange(0, es.len() - 1)).push(expr_view(es[es.len() - 1]))
    }
}

pub open spec fn opt_expr_view(e: Option<Expression>) -> Option<SpecExpression> {
    match e {
        Some(x) => Some(expr_view(x)),
        None => None,
    }
}

pub open spec fn decl_view(d: Declaration) -> SpecDeclaration {
    SpecDeclaration { id: d.id@, init: opt_expr_view(d.init) }
}

pub open spec fn opt_decl_view(d: Option<Declaration>) -> Option<SpecDeclaration> {
    match d {
        Some(x) => Some(decl_view(x)),
        None => None,
    }
}

pub open spec fn stmt_view(s: Statement) -> SpecStatement
    decreases s,
{
    match s {
        Statement::Return(e) => SpecStatement::Return(expr_view(e)),
        Statement::Expr(e) => SpecStatement::Expr(expr_view(e)),
        Statement::If(c, a, b) => SpecStatement::If(
            expr_view(c),
            Box::new(stmt_view(*a)),
            match b {
                Some(x) => Some(Box::new(stmt_view(*x))),
                None => None,
            },
        ),
        Statement::Compound(items) => SpecStatement::Compound(items_view(items@)),
        Statement::For(init, c, post, body) => SpecStatement::For(
            opt_expr_view(init),
            expr_view(c),
            opt_expr_view(post),
            Box::new(stmt_view(*body)),
        ),
        Statement::ForDecl(d, c, post, body) => SpecStatement::ForDecl(
            decl_view(d),
            expr_view(c),
            opt_expr_view(post),
            Box::new(stmt_view(*body)),
        ),
        Statement::While(c, body) => SpecStatement::While(expr_view(c), Box::new(stmt_view(*body))),
        Statement::DoWhile(body, c) => SpecStatement::DoWhile(Box::new(stmt_view(*body)), expr_view(c)),
        Statement::Break => SpecStatement::Break,
        Statement::Continue => SpecStatement::Continue,
        Statement::Null => SpecStatement::Null,
    }
}

pub open spec fn item_view(b: BlockItem) -> SpecBlockItem
    decreases b,
{
    match b {
        BlockItem::Stmt(s) => SpecBlockItem::Stmt(stmt_view(s)),
        BlockItem::Decl(d) => SpecBlockItem::Decl(decl_view(d)),
    }
}

pub open spec fn items_view(items: Seq<BlockItem>) -> Seq<SpecBlockItem>
    decreases items,
{
    if items.len() == 0 {
        Seq::empty()
    } else {
        items_view(items.subrange(0, items.len() - 1)).push(item_view(items[items.len() - 1]))
    }
}

pub open spec fn names_view(names: Seq<String>) -> Seq<Seq<char>> {
    names.map_values(|n: String| n@)
}

pub open spec fn function_view(f: Function) -> SpecFunction {
    match f {
        Function::Declaration(name, params) => SpecFunction::Declaration(name@, names_view(params@)),
        Function::Definition(name, params, body) => SpecFunction::Definition(
            name@,
            names_view(params@),
            items_view(body@),
        ),
    }
}

pub open spec fn program_view(p: Program) -> Seq<SpecFunction> {
    match p {
        Program::Prog(fs) => fs@.map_values(|f: Function| function_view(f)),
    }
}

impl View for Expression {
    type V = SpecExpression;

    open spec fn view(&self) -> SpecExpression {
        expr_view(*self)
    }
}

impl View for Declaration {
    type V = SpecDeclaration;

    open spec fn view(&self) -> SpecDeclaration {
        decl_view(*self)
    }
}

impl View for Statement {
    type V = SpecStatement;

    open spec fn view(&self) -> SpecStatement {
        stmt_view(*self)
    }
}

impl View for BlockItem {
    type V = SpecBlockItem;

    open spec fn view(&self) -> SpecBlockItem {
        item_view(*self)
    }
}

impl View for Function {
    type V = SpecFunction;

    open spec fn view(&self) -> SpecFunction {
        function_view(*self)
    }
}

impl View for Program {
    type V = Seq<SpecFunction>;

    open spec fn view(&self) -> Seq<SpecFunction> {
        program_view(*self)
    }
}

/// Appending an expression to a list appends its model to the list's model.
pub proof fn lemma_exprs_view_push(v: Seq<Expression>, e: Expression)
    ensures
        exprs_view(v.push(e)) == exprs_view(v).push(expr_view(e)),
{
    assert(v.push(e).subrange(0, v.len() as int) =~= v);
}

/// Appending a block item to a list appends its model to the list's model.
pub proof fn lemma_items_view_push(v: Seq<BlockItem>, b: BlockItem)
    ensures
        items_view(v.push(b)) == items_view(v).push(item_view(b)),
{
    assert(v.push(b).subrange(0, v.len() as int) =~= v);
}

} // verus!
