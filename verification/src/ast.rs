//! The abstract syntax tree: expressions and statements, together with
//! their specification-level mirrors (`ExprV`, `StmtV`), which the
//! contracts of the parser and the evaluator are stated over.

use vstd::prelude::*;

use crate::token::{Token, TokenType, TokenV};

verus! {

/// An expression node. Child nodes are exclusively owned: the tree has
/// no sharing and no cycles.
#[derive(Debug, PartialEq)]
pub enum Expr {
    IntLiteral(i32),
    Identifier(Token),
    BinaryOp(Box<Expr>, Box<Expr>, Token),
    Call(Box<Expr>, Vec<Expr>),
    Assign(Box<Expr>, Box<Expr>),
}

/// A statement node. `Def` holds the function name, the parameter list
/// and the body; `If` holds the condition, the then branch and an
/// optional else branch.
#[derive(Debug, PartialEq)]
pub enum Stmt {
    Def(Expr, Vec<Expr>, Box<Stmt>),
    If(Expr, Box<Stmt>, Option<Box<Stmt>>),
    Return(Expr),
    Print(Expr),
    Expr(Expr),
    Block(Vec<Stmt>),
    Break,
    While(Expr, Box<Stmt>),
}

/// The mathematical value of an expression tree.
pub ghost enum ExprV {
    IntLiteral(i32),
    Identifier(TokenV),
    BinaryOp(Box<ExprV>, Box<ExprV>, TokenV),
    Call(Box<ExprV>, Seq<ExprV>),
    Assign(Box<ExprV>, Box<ExprV>),
}

/// The mathematical value of a statement tree.
pub ghost enum StmtV {
    Def(ExprV, Seq<ExprV>, Box<StmtV>),
    If(ExprV, Box<StmtV>, Option<Box<StmtV>>),
    Return(ExprV),
    Print(ExprV),
    Expr(ExprV),
    Block(Seq<StmtV>),
    Break,
    While(ExprV, Box<StmtV>),
}

/// The mathematical value of an expression.
pub open spec fn view_expr(e: Expr) -> ExprV
    decreases e,
{
    match e {
        Expr::IntLiteral(v) => ExprV::IntLiteral(v),
        Expr::Identifier(t) => ExprV::Identifier(t@),
        Expr::BinaryOp(l, r, t) => ExprV::BinaryOp(
            Box::new(view_expr(*l)),
            Box::new(view_expr(*r)),
            t@,
        ),
        Expr::Call(f, args) => ExprV::Call(Box::new(view_expr(*f)), view_exprs(args@)),
        Expr::Assign(t, v) => ExprV::Assign(Box::new(view_expr(*t)), Box::new(view_expr(*v))),
    }
}

/// The mathematical value of a sequence of expressions, element by element.
pub open spec fn view_exprs(es: Seq<Expr>) -> Seq<ExprV>
    decreases es,
{
    if es.len() == 0 {
        Seq::empty()
    } else {
        seq![view_expr(es[0])] + view_exprs(es.drop_first())
    }
}

/// The mathematical value of a statement.
pub open spec fn view_stmt(s: Stmt) -> StmtV
    decreases s,
{
    match s {
        Stmt::Def(name, params, body) => StmtV::Def(
            view_expr(name),
            view_exprs(params@),
            Box::new(view_stmt(*body)),
        ),
        Stmt::If(c, t, e) => StmtV::If(
            view_expr(c),
            Box::new(view_stmt(*t)),
            match e {
                Some(b) => Some(Box::new(view_stmt(*b))),
                None => None,
            },
        ),
        Stmt::Return(e) => StmtV::Return(view_expr(e)),
        Stmt::Print(e) => StmtV::Print(view_expr(e)),
        Stmt::Expr(e) => StmtV::Expr(view_expr(e)),
        Stmt::Block(ss) => StmtV::Block(view_stmts(ss@)),
        Stmt::Break => StmtV::Break,
        Stmt::While(c, b) => StmtV::While(view_expr(c), Box::new(view_stmt(*b))),
    }
}

/// The mathematical value of a sequence of statements, element by element.
pub open spec fn view_stmts(ss: Seq<Stmt>) -> Seq<StmtV>
    decreases ss,
{
    if ss.len() == 0 {
        Seq::empty()
    } else {
        seq![view_stmt(ss[0])] + view_stmts(ss.drop_first())
    }
}

/// A structural copy of an expression, equal to the original in value.
pub fn clone_expr(e: &Expr) -> (r: Expr)
    ensures
        view_expr(r) == view_expr(*e),
    decreases *e,
{
    match e {
        Expr::IntLiteral(v) => Expr::IntLiteral(*v),
        Expr::Identifier(t) => Expr::Identifier(t.duplicate()),
        Expr::BinaryOp(l, r, t) => Expr::BinaryOp(
            Box::new(clone_expr(l)),
            Box::new(clone_expr(r)),
            t.duplicate(),
        ),
        Expr::Call(f, args) => {
            let mut copied: Vec<Expr> = Vec::new();
            let mut i: usize = 0;
            #[verifier::loop_isolation(false)]
            while i < args.len()
                invariant
                    i <= args.len(),
                    view_exprs(copied@) == view_exprs(args@.take(i as int)),
                decreases args.len() - i,
            {
                proof {
                    lemma_view_exprs_push(copied@, args[i as int]);
                    lemma_view_exprs_push(args@.take(i as int), args[i as int]);
                    assert(args@.take(i as int).push(args@[i as int]) =~= args@.take(
                        i as int + 1,
                    ));
                }
                proof {
                    assert(decreases_to!(*e => (*e)->Call_1));
                    assert(decreases_to!((*e)->Call_1 => (*e)->Call_1@));
                    assert(decreases_to!((*e)->Call_1@ => (*e)->Call_1@[i as int]));
                    assert(decreases_to!(*e => args@[i as int]));
                }
                let c = clone_expr(&args[i]);
                proof {
                    lemma_view_exprs_push(copied@, c);
                }
                copied.push(c);
                i = i + 1;
            }
            proof {
                assert(args@.take(args@.len() as int) =~= args@);
            }
            Expr::Call(Box::new(clone_expr(f)), copied)
        },
        Expr::Assign(t, v) => Expr::Assign(Box::new(clone_expr(t)), Box::new(clone_expr(v))),
    }
}

/// A structural copy of a statement, equal to the original in value.
pub fn clone_stmt(s: &Stmt) -> (r: Stmt)
    ensures
        view_stmt(r) == view_stmt(*s),
    decreases *s,
{
    match s {
        Stmt::Def(name, params, body) => {
            let mut copied: Vec<Expr> = Vec::new();
            let mut i: usize = 0;
            while i < params.len()
                invariant
                    i <= params.len(),
                    view_exprs(copied@) == view_exprs(params@.take(i as int)),
                decreases params.len() - i,
            {
                proof {
                    lemma_view_exprs_push(params@.take(i as int), params@[i as int]);
                    assert(params@.take(i as int).push(params@[i as int]) =~= params@.take(
                        i as int + 1,
                    ));
                }
                let c = clone_expr(&params[i]);
                proof {
                    lemma_view_exprs_push(copied@, c);
                }
                copied.push(c);
                i = i + 1;
            }
            proof {
                assert(params@.take(params@.len() as int) =~= params@);
            }
            Stmt::Def(clone_expr(name), copied, Box::new(clone_stmt(body)))
        },
        Stmt::If(c, t, e) => Stmt::If(
            clone_expr(c),
            Box::new(clone_stmt(t)),
            match e {
                Some(b) => Some(Box::new(clone_stmt(b))),
                None => None,
            },
        ),
        Stmt::Return(e) => Stmt::Return(clone_expr(e)),
        Stmt::Print(e) => Stmt::Print(clone_expr(e)),
        Stmt::Expr(e) => Stmt::Expr(clone_expr(e)),
        Stmt::Block(ss) => {
            let mut copied: Vec<Stmt> = Vec::new();
            let mut i: usize = 0;
            #[verifier::loop_isolation(false)]
            while i < ss.len()
                invariant
                    i <= ss.len(),
                    view_stmts(copied@) == view_stmts(ss@.take(i as int)),
                decreases ss.len() - i,
            {
                proof {
                    lemma_view_stmts_push(ss@.take(i as int), ss@[i as int]);
                    assert(ss@.take(i as int).push(ss@[i as int]) =~= ss@.take(i as int + 1));
                }
                proof {
                    assert(decreases_to!(*s => (*s)->Block_0));
                    assert(decreases_to!((*s)->Block_0 => (*s)->Block_0@));
                    assert(decreases_to!((*s)->Block_0@ => (*s)->Block_0@[i as int]));
                    assert(decreases_to!(*s => ss@[i as int]));
                }
                let c = clone_stmt(&ss[i]);
                proof {
                    lemma_view_stmts_push(copied@, c);
                }
                copied.push(c);
                i = i + 1;
            }
            proof {
                assert(ss@.take(ss@.len() as int) =~= ss@);
            }
            Stmt::Block(copied)
        },
        Stmt::Break => Stmt::Break,
        Stmt::While(c, b) => Stmt::While(clone_expr(c), Box::new(clone_stmt(b))),
    }
}

/// Element lemma: `view_exprs` maps each element through `view_expr`.
pub proof fn lemma_view_exprs(es: Seq<Expr>)
    ensures
        view_exprs(es).len() == es.len(),
        forall|i: int| 0 <= i < es.len() ==> view_exprs(es)[i] == view_expr(es[i]),
    decreases es,
{
    if es.len() > 0 {
        lemma_view_exprs(es.drop_first());
    }
}

/// Element lemma: `view_stmts` maps each element through `view_stmt`.
pub proof fn lemma_view_stmts(ss: Seq<Stmt>)
    ensures
        view_stmts(ss).len() == ss.len(),
        forall|i: int| 0 <= i < ss.len() ==> view_stmts(ss)[i] == view_stmt(ss[i]),
    decreases ss,
{
    if ss.len() > 0 {
        lemma_view_stmts(ss.drop_first());
    }
}

/// Appending an expression extends the viewed sequence by its view.
pub proof fn lemma_view_exprs_push(es: Seq<Expr>, e: Expr)
    ensures
        view_exprs(es.push(e)) == view_exprs(es).push(view_expr(e)),
    decreases es,
{
    lemma_view_exprs(es.push(e));
    lemma_view_exprs(es);
    assert(view_exprs(es.push(e)) =~= view_exprs(es).push(view_expr(e)));
}

/// Appending a statement extends the viewed sequence by its view.
pub proof fn lemma_view_stmts_push(ss: Seq<Stmt>, s: Stmt)
    ensures
        view_stmts(ss.push(s)) == view_stmts(ss).push(view_stmt(s)),
{
    lemma_view_stmts(ss.push(s));
    lemma_view_stmts(ss);
    assert(view_stmts(ss.push(s)) =~= view_stmts(ss).push(view_stmt(s)));
}

} // verus!
