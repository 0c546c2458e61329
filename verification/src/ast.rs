//! The abstract syntax tree the parser produces and the evaluator walks.
//!
//! A program is an ordered sequence of function definitions; each definition
//! carries its name, its ordered parameter list and its statement body. The
//! tree is owned and acyclic. Beside each executable type stands its
//! mathematical image (`Spec…`), with names and text as character sequences,
//! which the contracts of the parser and the evaluator speak of.

use vstd::prelude::*;

verus! {

/// A binary operator.
#[derive(Clone, Copy, Debug, PartialEq, Eq, Structural)]
pub enum BinOp {
    Add,
    Sub,
    Mul,
    Div,
    Mod,
    Eq,
    Ne,
    Lt,
    Le,
    Gt,
    Ge,
}

/// An expression.
#[derive(Debug, PartialEq, Eq)]
pub enum Expr {
    /// A decimal integer literal.
    Int(i64),
    /// A string literal, quotes stripped.
    Str(std::string::String),
    /// `true` or `false`.
    Bool(bool),
    /// A variable reference.
    Var(std::string::String),
    /// An application of a binary operator.
    Binary(BinOp, Box<Expr>, Box<Expr>),
    /// A call of a named function with ordered arguments.
    Call(std::string::String, Vec<Expr>),
}

/// A statement.
#[derive(Debug, PartialEq, Eq)]
pub enum Stmt {
    /// An expression evaluated for its effect.
    Expr(Expr),
    /// An assignment to a named variable in the current call frame.
    Assign(std::string::String, Expr),
    /// A conditional with a then branch and a (possibly empty) else branch.
    If(Expr, Vec<Stmt>, Vec<Stmt>),
    /// A loop that runs its body while its condition holds.
    While(Expr, Vec<Stmt>),
    /// Leaves the nearest enclosing loop.
    Break,
    /// Leaves the enclosing function, with an optional result.
    Return(Option<Expr>),
}

/// One function definition: name, ordered parameters, ordered body.
#[derive(Debug, PartialEq, Eq)]
pub struct FuncDef {
    pub name: std::string::String,
    pub params: Vec<std::string::String>,
    pub body: Vec<Stmt>,
}

/// A whole program: its function definitions in source order.
pub type Program = Vec<FuncDef>;

/// The mathematical image of an [`Expr`].
pub enum SpecExpr {
    Int(i64),
    Str(Seq<char>),
    Bool(bool),
    Var(Seq<char>),
    Binary(BinOp, Box<SpecExpr>, Box<SpecExpr>),
    Call(Seq<char>, Seq<SpecExpr>),
}

/// The mathematical image of a [`Stmt`].
pub enum SpecStmt {
    Expr(SpecExpr),
    Assign(Seq<char>, SpecExpr),
    If(SpecExpr, Seq<SpecStmt>, Seq<SpecStmt>),
    While(SpecExpr, Seq<SpecStmt>),
    Break,
    Return(Option<SpecExpr>),
}

/// The mathematical image of a [`FuncDef`].
pub struct SpecFuncDef {
    pub name: Seq<char>,
    pub params: Seq<Seq<char>>,
    pub body: Seq<SpecStmt>,
}

/// The image of an expression.
pub open spec fn expr_view(e: Expr) -> SpecExpr
    decreases e,
{
    match e {
        Expr::Int(v) => SpecExpr::Int(v),
        Expr::Str(s) => SpecExpr::Str(s@),
        Expr::Bool(b) => SpecExpr::Bool(b),
        Expr::Var(x) => SpecExpr::Var(x@),
        Expr::Binary(op, l, r) => SpecExpr::Binary(
            op,
            Box::new(expr_view(*l)),
            Box::new(expr_view(*r)),
        ),
        Expr::Call(f, args) => SpecExpr::Call(f@, exprs_view(args@)),
    }
}

/// The images of a sequence of expressions.
pub open spec fn exprs_view(es: Seq<Expr>) -> Seq<SpecExpr>
    decreases es,
{
    if es.len() == 0 {
        Seq::empty()
    } else {
        seq![expr_view(es[0])] + exprs_view(es.drop_first())
    }
}

/// The image of a statement.
pub open spec fn stmt_view(s: Stmt) -> SpecStmt
    decreases s,
{
    match s {
        Stmt::Expr(e) => SpecStmt::Expr(expr_view(e)),
        Stmt::Assign(x, e) => SpecStmt::Assign(x@, expr_view(e)),
        Stmt::If(c, t, e) => SpecStmt::If(expr_view(c), stmts_view(t@), stmts_view(e@)),
        Stmt::While(c, b) => SpecStmt::While(expr_view(c), stmts_view(b@)),
        Stmt::Break => SpecStmt::Break,
        Stmt::Return(oe) => SpecStmt::Return(
            match oe {
                Some(e) => Some(expr_view(e)),
                None => None,
            },
        ),
    }
}

/// The images of a sequence of statements.
pub open spec fn stmts_view(ss: Seq<Stmt>) -> Seq<SpecStmt>
    decreases ss,
{
    if ss.len() == 0 {
        Seq::empty()
    } else {
        seq![stmt_view(ss[0])] + stmts_view(ss.drop_first())
    }
}

/// The images of a sequence of parameter names.
pub open spec fn names_view(ns: Seq<std::string::String>) -> Seq<Seq<char>> {
    ns.map_values(|n: std::string::String| n@)
}

/// The image of a function definition.
pub open spec fn funcdef_view(f: FuncDef) -> SpecFuncDef {
    SpecFuncDef { name: f.name@, params: names_view(f.params@), body: stmts_view(f.body@) }
}

/// The image of a whole program.
pub open spec fn program_view(p: Seq<FuncDef>) -> Seq<SpecFuncDef> {
    p.map_values(|f: FuncDef| funcdef_view(f))
}

/// The image of a program has the same length and the images of its
/// definitions, in order.
pub proof fn lemma_funcdefs_view_index(fs: Seq<FuncDef>)
    ensures
        program_view(fs).len() == fs.len(),
        forall|i: int| 0 <= i < fs.len() ==> program_view(fs)[i] == funcdef_view(fs[i]),
{
}

/// Appending an expression extends the image of the sequence by the image of
/// the expression.
pub proof fn lemma_exprs_view_push(es: Seq<Expr>, e: Expr)
    ensures
        exprs_view(es.push(e)) == exprs_view(es).push(expr_view(e)),
    decreases es.len(),
{
    if es.len() == 0 {
        assert(es.push(e).drop_first() =~= Seq::<Expr>::empty());
        assert(exprs_view(Seq::<Expr>::empty()) == Seq::<SpecExpr>::empty());
        assert(es.push(e)[0] == e);
        assert(exprs_view(es.push(e)) == seq![expr_view(e)] + Seq::<SpecExpr>::empty());
        assert(seq![expr_view(e)] + Seq::<SpecExpr>::empty() =~= exprs_view(es).push(
            expr_view(e),
        ));
    } else {
        assert(es.push(e).drop_first() =~= es.drop_first().push(e));
        lemma_exprs_view_push(es.drop_first(), e);
        assert(es.push(e)[0] == es[0]);
        assert(exprs_view(es.push(e)) == seq![expr_view(es[0])] + exprs_view(
            es.drop_first(),
        ).push(expr_view(e)));
        assert(seq![expr_view(es[0])] + exprs_view(es.drop_first()).push(expr_view(e))
            =~= (seq![expr_view(es[0])] + exprs_view(es.drop_first())).push(expr_view(e)));
    }
}

/// The image of an expression sequence has the same length and the images
/// of the elements, in order.
pub proof fn lemma_exprs_view_index(es: Seq<Expr>)
    ensures
        exprs_view(es).len() == es.len(),
        forall|i: int| 0 <= i < es.len() ==> exprs_view(es)[i] == expr_view(es[i]),
    decreases es.len(),
{
    if es.len() > 0 {
        lemma_exprs_view_index(es.drop_first());
    }
}

/// The image of a statement sequence has the same length and the images of
/// the elements, in order.
pub proof fn lemma_stmts_view_index(ss: Seq<Stmt>)
    ensures
        stmts_view(ss).len() == ss.len(),
        forall|i: int| 0 <= i < ss.len() ==> stmts_view(ss)[i] == stmt_view(ss[i]),
    decreases ss.len(),
{
    if ss.len() > 0 {
        lemma_stmts_view_index(ss.drop_first());
    }
}

/// Appending a statement extends the image of the sequence by the image of
/// the statement.
pub proof fn lemma_stmts_view_push(ss: Seq<Stmt>, s: Stmt)
    ensures
        stmts_view(ss.push(s)) == stmts_view(ss).push(stmt_view(s)),
    decreases ss.len(),
{
    if ss.len() == 0 {
        assert(ss.push(s).drop_first() =~= Seq::<Stmt>::empty());
        assert(stmts_view(Seq::<Stmt>::empty()) == Seq::<SpecStmt>::empty());
        assert(ss.push(s)[0] == s);
        assert(stmts_view(ss.push(s)) == seq![stmt_view(s)] + Seq::<SpecStmt>::empty());
        assert(seq![stmt_view(s)] + Seq::<SpecStmt>::empty() =~= stmts_view(ss).push(
            stmt_view(s),
        ));
    } else {
        assert(ss.push(s).drop_first() =~= ss.drop_first().push(s));
        lemma_stmts_view_push(ss.drop_first(), s);
        assert(ss.push(s)[0] == ss[0]);
        assert(stmts_view(ss.push(s)) == seq![stmt_view(ss[0])] + stmts_view(
            ss.drop_first(),
        ).push(stmt_view(s)));
        assert(seq![stmt_view(ss[0])] + stmts_view(ss.drop_first()).push(stmt_view(s))
            =~= (seq![stmt_view(ss[0])] + stmts_view(ss.drop_first())).push(stmt_view(s)));
    }
}

} // verus!
