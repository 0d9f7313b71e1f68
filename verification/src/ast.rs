//! The abstract syntax tree of Hul programs, with a mathematical view of each node.
use vstd::prelude::*;

verus! {

/// Binary operators: arithmetic and comparison.
#[derive(Debug, Clone, Copy, PartialEq, Eq, Structural)]
pub enum BinaryOp {
    Add,
    Sub,
    Mul,
    Div,
    Mod,
    Equal,
    NotEqual,
    Less,
    LessEqual,
    Greater,
    GreaterEqual,
}

/// Unary operators: `-x` and `not x`.
#[derive(Debug, Clone, Copy, PartialEq, Eq, Structural)]
pub enum UnaryOp {
    Negate,
    Not,
}

/// Logical operators, evaluated with short-circuiting.
#[derive(Debug, Clone, Copy, PartialEq, Eq, Structural)]
pub enum LogicalOp {
    And,
    Or,
}

/// A literal as written in the source. A number keeps its source text.
#[derive(Debug, Clone)]
pub enum Literal {
    Number(String),
    String(String),
    Boolean(bool),
    Nil,
}

/// Expressions.
#[derive(Debug)]
pub enum Expr {
    Literal(Literal),
    Variable(String),
    /// `name = value`, whose value is the value assigned.
    Assign { name: String, value: Box<Expr> },
    Binary { left: Box<Expr>, operator: BinaryOp, right: Box<Expr> },
    Unary { operator: UnaryOp, right: Box<Expr> },
    Logical { left: Box<Expr>, operator: LogicalOp, right: Box<Expr> },
    Grouping(Box<Expr>),
    Call { callee: Box<Expr>, arguments: Vec<Expr> },
}

/// Statements.
#[derive(Debug)]
pub enum Stmt {
    Let { name: String, initializer: Expr },
    Assign { name: String, value: Expr },
    Print(Expr),
    If { condition: Expr, then_branch: Vec<Stmt>, else_branch: Option<Vec<Stmt>> },
    While { condition: Expr, body: Vec<Stmt> },
    For {
        initializer: Option<Box<Stmt>>,
        condition: Option<Expr>,
        increment: Option<Expr>,
        body: Vec<Stmt>,
    },
    Block(Vec<Stmt>),
    Function { name: String, params: Vec<String>, body: Vec<Stmt> },
    Return(Expr),
    Break,
    Continue,
    Expression(Expr),
}

/// What a literal is.
pub enum SLiteral {
    Number(Seq<char>),
    Str(Seq<char>),
    Boolean(bool),
    Nil,
}

/// What an expression is.
pub enum SExpr {
    Literal(SLiteral),
    Variable(Seq<char>),
    Assign { name: Seq<char>, value: Box<SExpr> },
    Binary { left: Box<SExpr>, operator: BinaryOp, right: Box<SExpr> },
    Unary { operator: UnaryOp, right: Box<SExpr> },
    Logical { left: Box<SExpr>, operator: LogicalOp, right: Box<SExpr> },
    Grouping(Box<SExpr>),
    Call { callee: Box<SExpr>, arguments: Seq<SExpr> },
}

/// What a statement is.
pub enum SStmt {
    Let { name: Seq<char>, initializer: SExpr },
    Assign { name: Seq<char>, value: SExpr },
    Print(SExpr),
    If { condition: SExpr, then_branch: Seq<SStmt>, else_branch: Option<Seq<SStmt>> },
    While { condition: SExpr, body: Seq<SStmt> },
    For {
        initializer: Option<Box<SStmt>>,
        condition: Option<SExpr>,
        increment: Option<SExpr>,
        body: Seq<SStmt>,
    },
    Block(Seq<SStmt>),
    Function { name: Seq<char>, params: Seq<Seq<char>>, body: Seq<SStmt> },
    Return(SExpr),
    Break,
    Continue,
    Expression(SExpr),
}

impl View for Literal {
    type V = SLiteral;

    open spec fn view(&self) -> SLiteral {
        match self {
            Literal::Number(s) => SLiteral::Number(s@),
            Literal::String(s) => SLiteral::Str(s@),
            Literal::Boolean(b) => SLiteral::Boolean(*b),
            Literal::Nil => SLiteral::Nil,
        }
    }
}

/// The views of a sequence of expressions.
pub open spec fn exprs_view(es: Seq<Expr>) -> Seq<SExpr>
    decreases es,
{
    Seq::new(es.len(), |i: int| if 0 <= i < es.len() { expr_view(es[i]) } else { SExpr::Literal(SLiteral::Nil) })
}

/// The view of an expression.
pub open spec fn expr_view(e: Expr) -> SExpr
    decreases e,
{
    match e {
        Expr::Literal(l) => SExpr::Literal(l@),
        Expr::Variable(n) => SExpr::Variable(n@),
        Expr::Assign { name, value } => SExpr::Assign { name: name@, value: Box::new(expr_view(*value)) },
        Expr::Binary { left, operator, right } => SExpr::Binary {
            left: Box::new(expr_view(*left)),
            operator,
            right: Box::new(expr_view(*right)),
        },
        Expr::Unary { operator, right } => SExpr::Unary { operator, right: Box::new(expr_view(*right)) },
        Expr::Logical { left, operator, right } => SExpr::Logical {
            left: Box::new(expr_view(*left)),
            operator,
            right: Box::new(expr_view(*right)),
        },
        Expr::Grouping(inner) => SExpr::Grouping(Box::new(expr_view(*inner))),
        Expr::Call { callee, arguments } => SExpr::Call {
            callee: Box::new(expr_view(*callee)),
            arguments: exprs_view(arguments@),
        },
    }
}

impl View for Expr {
    type V = SExpr;

    open spec fn view(&self) -> SExpr {
        expr_view(*self)
    }
}

/// The views of a sequence of statements.
pub open spec fn stmts_view(ss: Seq<Stmt>) -> Seq<SStmt>
    decreases ss,
{
    Seq::new(ss.len(), |i: int| if 0 <= i < ss.len() { stmt_view(ss[i]) } else { SStmt::Break })
}

/// The view of a statement.
pub open spec fn stmt_view(s: Stmt) -> SStmt
    decreases s,
{
    match s {
        Stmt::Let { name, initializer } => SStmt::Let { name: name@, initializer: initializer@ },
        Stmt::Assign { name, value } => SStmt::Assign { name: name@, value: value@ },
        Stmt::Print(e) => SStmt::Print(e@),
        Stmt::If { condition, then_branch, else_branch } => SStmt::If {
            condition: condition@,
            then_branch: stmts_view(then_branch@),
            else_branch: match else_branch {
                Some(b) => Some(stmts_view(b@)),
                None => None,
            },
        },
        Stmt::While { condition, body } => SStmt::While { condition: condition@, body: stmts_view(body@) },
        Stmt::For { initializer, condition, increment, body } => SStmt::For {
            initializer: match initializer {
                Some(i) => Some(Box::new(stmt_view(*i))),
                None => None,
            },
            condition: match condition {
                Some(c) => Some(c@),
                None => None,
            },
            increment: match increment {
                Some(c) => Some(c@),
                None => None,
            },
            body: stmts_view(body@),
        },
        Stmt::Block(b) => SStmt::Block(stmts_view(b@)),
        Stmt::Function { name, params, body } => SStmt::Function {
            name: name@,
            params: params@.map_values(|p: String| p@),
            body: stmts_view(body@),
        },
        Stmt::Return(e) => SStmt::Return(e@),
        Stmt::Break => SStmt::Break,
        Stmt::Continue => SStmt::Continue,
        Stmt::Expression(e) => SStmt::Expression(e@),
    }
}

impl View for Stmt {
    type V = SStmt;

    open spec fn view(&self) -> SStmt {
        stmt_view(*self)
    }
}

} // verus!
