//! The tree-walking evaluator: expressions evaluate to values and
//! statements execute against a frame of the environment, allocating new
//! frames for blocks and calls. A `fuel` bound models the host's finite
//! call stack: each function call and each loop iteration spends one unit,
//! and exhausting it aborts evaluation, the way deep recursion would
//! exhaust the native stack.
//!
//! Control flow is carried through values: a block stops at the first
//! statement whose value is not `Null` (this is how `return` propagates),
//! and a `while` consumes the `Interrupted` sentinel a `break` produced.
//!
//! The whole of evaluation is pinned by `spec_eval_expr` / `spec_exec_stmt`:
//! the executable evaluator is proved to return exactly the value and the
//! environment those specifications name.

use vstd::prelude::*;

use crate::ast::{view_expr, view_exprs, view_stmt, view_stmts, Expr, ExprV, Stmt, StmtV};
use crate::environment::{env_assign, env_define, env_lookup, EnvV, Environment, FrameV};
use crate::token::TokenType;
use crate::value::{Function, FunctionV, Value, ValueV};

verus! {

/// What can abort evaluation: an undefined name, a non-integer operand or
/// non-boolean condition, an assignment or definition whose target is not
/// an identifier, a call of a non-function, an argument count that does
/// not match the parameter list, a zero divisor, an operator token that
/// is no operator, a parameter that is not an identifier, or exhaustion
/// of the evaluation depth bound.
#[derive(Debug, PartialEq, Eq, Clone, Copy, Structural)]
pub enum RuntimeError {
    UndefinedVariable,
    TypeMismatch,
    InvalidAssignmentTarget,
    InvalidCallee,
    ArityMismatch,
    DivisionByZero,
    UnknownOperator,
    InvalidParameter,
    RecursionLimit,
}


/// The size of an expression tree: one per node.
pub open spec fn size_expr(e: ExprV) -> nat
    decreases e,
{
    match e {
        ExprV::IntLiteral(_) => 1,
        ExprV::Identifier(_) => 1,
        ExprV::BinaryOp(l, r, _) => 1 + size_expr(*l) + size_expr(*r),
        ExprV::Call(f, args) => 1 + size_expr(*f) + size_exprs(args),
        ExprV::Assign(t, v) => 1 + size_expr(*t) + size_expr(*v),
    }
}

/// The combined size of a sequence of expressions.
pub open spec fn size_exprs(es: Seq<ExprV>) -> nat
    decreases es,
{
    if es.len() == 0 {
        0
    } else {
        size_expr(es[0]) + 1 + size_exprs(es.drop_first())
    }
}

/// The size of a statement tree: one per node.
pub open spec fn size_stmt(s: StmtV) -> nat
    decreases s,
{
    match s {
        StmtV::Def(name, params, body) => 1 + size_expr(name) + size_exprs(params) + size_stmt(
            *body,
        ),
        StmtV::If(c, t, els) => 1 + size_expr(c) + size_stmt(*t) + (match els {
            Some(b) => size_stmt(*b),
            None => 0,
        }),
        StmtV::Return(e) => 1 + size_expr(e),
        StmtV::Print(e) => 1 + size_expr(e),
        StmtV::Expr(e) => 1 + size_expr(e),
        StmtV::Block(ss) => 1 + size_stmts(ss),
        StmtV::Break => 1,
        StmtV::While(c, b) => 1 + size_expr(c) + size_stmt(*b),
    }
}

/// The combined size of a sequence of statements.
pub open spec fn size_stmts(ss: Seq<StmtV>) -> nat
    decreases ss,
{
    if ss.len() == 0 {
        0
    } else {
        size_stmt(ss[0]) + 1 + size_stmts(ss.drop_first())
    }
}

/// Each element of a statement list is smaller than the whole list.
pub proof fn lemma_size_stmts_elem(ss: Seq<StmtV>, i: int)
    requires
        0 <= i < ss.len(),
    ensures
        size_stmt(ss[i]) < size_stmts(ss),
    decreases i,
{
    if i > 0 {
        lemma_size_stmts_elem(ss.drop_first(), i - 1);
    }
}

/// Each element of an expression list is smaller than the whole list.
pub proof fn lemma_size_exprs_elem(es: Seq<ExprV>, i: int)
    requires
        0 <= i < es.len(),
    ensures
        size_expr(es[i]) < size_exprs(es),
    decreases i,
{
    if i > 0 {
        lemma_size_exprs_elem(es.drop_first(), i - 1);
    }
}

/// The quotient of truncating division on the mathematical integers,
/// rounding toward zero, as Rust's `/` on machine integers does.
pub open spec fn trunc_quot(x: int, d: int) -> int {
    if x == 0 {
        0
    } else if x > 0 && d > 0 {
        x / d
    } else if x < 0 && d < 0 {
        (x * -1) / (d * -1)
    } else if x < 0 {
        ((x * -1) / d) * -1
    } else {
        (x / (d * -1)) * -1
    }
}

/// Truncating `i32` division; the one overflowing case, `i32::MIN / -1`,
/// wraps back to `i32::MIN`.
pub open spec fn trunc_div_i32(a: i32, b: i32) -> i32
    recommends
        b != 0,
{
    let q = trunc_quot(a as int, b as int);
    if q < i32::MIN || q > i32::MAX {
        i32::MIN
    } else {
        q as i32
    }
}

/// The value of one arithmetic or comparison operator on two integers:
/// `+ - *` wrap around on overflow, `/` truncates and rejects a zero
/// divisor, `< == !=` yield booleans.
pub open spec fn spec_binop(kind: TokenType, a: i32, b: i32) -> Result<ValueV, RuntimeError> {
    if kind == TokenType::Plus {
        Ok(ValueV::Int(vstd::wrapping::i32_specs::wrapping_add(a, b)))
    } else if kind == TokenType::Minus {
        Ok(ValueV::Int(vstd::wrapping::i32_specs::wrapping_sub(a, b)))
    } else if kind == TokenType::Mul {
        Ok(ValueV::Int(vstd::wrapping::i32_specs::wrapping_mul(a, b)))
    } else if kind == TokenType::Div {
        if b == 0 {
            Err(RuntimeError::DivisionByZero)
        } else {
            Ok(ValueV::Int(trunc_div_i32(a, b)))
        }
    } else if kind == TokenType::LessThan {
        Ok(ValueV::Bool(a < b))
    } else if kind == TokenType::EqualEqual {
        Ok(ValueV::Bool(a == b))
    } else if kind == TokenType::BangEqual {
        Ok(ValueV::Bool(a != b))
    } else {
        Err(RuntimeError::UnknownOperator)
    }
}

/// The parameter names of a definition, if every parameter expression is
/// an identifier.
pub open spec fn param_names(params: Seq<ExprV>) -> Option<Seq<Seq<char>>>
    decreases params.len(),
{
    if params.len() == 0 {
        Some(Seq::empty())
    } else {
        match params[0] {
            ExprV::Identifier(t) => match param_names(params.drop_first()) {
                Some(rest) => Some(seq![t.text] + rest),
                None => None,
            },
            _ => None,
        }
    }
}

/// The frame arena after binding each parameter name to its argument
/// value, in order, directly in frame `fi`.
pub open spec fn spec_bind_params(
    frames: Seq<FrameV>,
    names: Seq<Seq<char>>,
    vals: Seq<ValueV>,
    fi: int,
) -> Seq<FrameV>
    decreases names.len(),
{
    if names.len() == 0 || vals.len() == 0 {
        frames
    } else {
        spec_bind_params(
            env_define(frames, names[0], vals[0], fi),
            names.drop_first(),
            vals.drop_first(),
            fi,
        )
    }
}

/// A fresh empty frame whose parent is `fi`.
pub open spec fn child_frame(fi: int) -> FrameV {
    FrameV { vars: Seq::empty(), parent: Some(fi) }
}

/// The value of an expression, together with the environment it leaves
/// behind; evaluation threads the environment through every subexpression
/// in evaluation order.
pub open spec fn spec_eval_expr(e: ExprV, env: EnvV, fi: int, fuel: nat) -> (Result<
    ValueV,
    RuntimeError,
>, EnvV)
    decreases fuel, size_expr(e),
{
    match e {
        ExprV::IntLiteral(v) => (Ok(ValueV::Int(v)), env),
        ExprV::Identifier(t) => (
            match env_lookup(env.frames, t.text, fi) {
                Some(v) => Ok(v),
                None => Err(RuntimeError::UndefinedVariable),
            },
            env,
        ),
        ExprV::BinaryOp(l, r, op) => {
            let (lr, env1) = spec_eval_expr(*l, env, fi, fuel);
            match lr {
                Err(er) => (Err(er), env1),
                Ok(lv) => {
                    let (rr, env2) = spec_eval_expr(*r, env1, fi, fuel);
                    match rr {
                        Err(er) => (Err(er), env2),
                        Ok(rv) => match (lv, rv) {
                            (ValueV::Int(a), ValueV::Int(b)) => (spec_binop(op.kind, a, b), env2),
                            _ => (Err(RuntimeError::TypeMismatch), env2),
                        },
                    }
                },
            }
        },
        ExprV::Assign(target, v) => {
            let (vr, env1) = spec_eval_expr(*v, env, fi, fuel);
            match vr {
                Err(er) => (Err(er), env1),
                Ok(val) => match *target {
                    ExprV::Identifier(t) => (
                        Ok(ValueV::Null),
                        EnvV { frames: env_assign(env1.frames, t.text, val, fi), printed: env1.printed },
                    ),
                    _ => (Err(RuntimeError::InvalidAssignmentTarget), env1),
                },
            }
        },
        ExprV::Call(callee, args) => {
            match *callee {
                ExprV::Identifier(t) => match env_lookup(env.frames, t.text, fi) {
                    None => (Err(RuntimeError::UndefinedVariable), env),
                    Some(ValueV::Function(f)) => {
                        if f.args.len() != args.len() {
                            (Err(RuntimeError::ArityMismatch), env)
                        } else {
                            let (argr, env1) = spec_eval_args(args, env, fi, fuel);
                            match argr {
                                Err(er) => (Err(er), env1),
                                Ok(vals) => if fuel == 0 {
                                    (Err(RuntimeError::RecursionLimit), env1)
                                } else {
                                    let new_fi = env1.frames.len() as int;
                                    let frames2 = env1.frames.push(child_frame(fi));
                                    let frames3 = spec_bind_params(frames2, f.args, vals, new_fi);
                                    spec_exec_stmt(
                                        f.body,
                                        EnvV { frames: frames3, printed: env1.printed },
                                        new_fi,
                                        (fuel - 1) as nat,
                                    )
                                },
                            }
                        }
                    },
                    Some(_) => (Err(RuntimeError::InvalidCallee), env),
                },
                _ => (Err(RuntimeError::InvalidCallee), env),
            }
        },
    }
}

/// The values of an argument list, evaluated left to right in the
/// caller's frame.
pub open spec fn spec_eval_args(args: Seq<ExprV>, env: EnvV, fi: int, fuel: nat) -> (Result<
    Seq<ValueV>,
    RuntimeError,
>, EnvV)
    decreases fuel, size_exprs(args),
{
    if args.len() == 0 {
        (Ok(Seq::empty()), env)
    } else {
        let (hr, env1) = spec_eval_expr(args[0], env, fi, fuel);
        match hr {
            Err(er) => (Err(er), env1),
            Ok(v) => {
                let (tr, env2) = spec_eval_args(args.drop_first(), env1, fi, fuel);
                match tr {
                    Err(er) => (Err(er), env2),
                    Ok(rest) => (Ok(seq![v] + rest), env2),
                }
            },
        }
    }
}

/// The value a statement yields and the environment it leaves behind.
pub open spec fn spec_exec_stmt(s: StmtV, env: EnvV, fi: int, fuel: nat) -> (Result<
    ValueV,
    RuntimeError,
>, EnvV)
    decreases fuel, size_stmt(s),
{
    match s {
        StmtV::Expr(e) => spec_eval_expr(e, env, fi, fuel),
        StmtV::Return(e) => spec_eval_expr(e, env, fi, fuel),
        StmtV::Print(e) => {
            let (r, env1) = spec_eval_expr(e, env, fi, fuel);
            match r {
                Err(er) => (Err(er), env1),
                Ok(v) => (
                    Ok(ValueV::Null),
                    EnvV { frames: env1.frames, printed: env1.printed.push(v) },
                ),
            }
        },
        StmtV::Def(name, params, body) => match name {
            ExprV::Identifier(t) => match param_names(params) {
                Some(names) => (
                    Ok(ValueV::Null),
                    EnvV {
                        frames: env_define(
                            env.frames,
                            t.text,
                            ValueV::Function(
                                FunctionV { name: t.text, args: names, body: *body },
                            ),
                            fi,
                        ),
                        printed: env.printed,
                    },
                ),
                None => (Err(RuntimeError::InvalidParameter), env),
            },
            _ => (Err(RuntimeError::InvalidAssignmentTarget), env),
        },
        StmtV::Block(ss) => {
            let new_fi = env.frames.len() as int;
            let env1 = EnvV { frames: env.frames.push(child_frame(fi)), printed: env.printed };
            spec_exec_block(ss, env1, new_fi, fuel)
        },
        StmtV::If(c, t, els) => {
            let (cr, env1) = spec_eval_expr(c, env, fi, fuel);
            match cr {
                Err(er) => (Err(er), env1),
                Ok(ValueV::Bool(true)) => spec_exec_stmt(*t, env1, fi, fuel),
                Ok(ValueV::Bool(false)) => match els {
                    Some(b) => spec_exec_stmt(*b, env1, fi, fuel),
                    None => (Ok(ValueV::Null), env1),
                },
                Ok(_) => (Err(RuntimeError::TypeMismatch), env1),
            }
        },
        StmtV::Break => (Ok(ValueV::Interrupted), env),
        StmtV::While(c, b) => {
            let (cr, env1) = spec_eval_expr(c, env, fi, fuel);
            match cr {
                Err(er) => (Err(er), env1),
                Ok(ValueV::Bool(false)) => (Ok(ValueV::Null), env1),
                Ok(ValueV::Bool(true)) => {
                    let (br, env2) = spec_exec_stmt(*b, env1, fi, fuel);
                    match br {
                        Err(er) => (Err(er), env2),
                        Ok(ValueV::Null) => if fuel == 0 {
                            (Err(RuntimeError::RecursionLimit), env2)
                        } else {
                            spec_exec_stmt(s, env2, fi, (fuel - 1) as nat)
                        },
                        Ok(ValueV::Interrupted) => (Ok(ValueV::Null), env2),
                        Ok(v) => (Ok(v), env2),
                    }
                },
                Ok(_) => (Err(RuntimeError::TypeMismatch), env1),
            }
        },
    }
}

/// The value of a block's statement list, run in order in the block's own
/// frame: the first non-`Null` value short-circuits out, `Null` if every
/// statement yields `Null`.
pub open spec fn spec_exec_block(ss: Seq<StmtV>, env: EnvV, fi: int, fuel: nat) -> (Result<
    ValueV,
    RuntimeError,
>, EnvV)
    decreases fuel, size_stmts(ss),
{
    if ss.len() == 0 {
        (Ok(ValueV::Null), env)
    } else {
        let (r, env1) = spec_exec_stmt(ss[0], env, fi, fuel);
        match r {
            Err(er) => (Err(er), env1),
            Ok(ValueV::Null) => spec_exec_block(ss.drop_first(), env1, fi, fuel),
            Ok(v) => (Ok(v), env1),
        }
    }
}

/// The program result of a top-level statement list: each statement runs
/// in frame `fi` (no extra frame, no short-circuit); the result is the
/// last statement's value, or `Null` for an empty program.
pub open spec fn spec_execute(ss: Seq<StmtV>, env: EnvV, fi: int, fuel: nat) -> (Result<
    ValueV,
    RuntimeError,
>, EnvV)
    decreases ss.len(),
{
    if ss.len() == 0 {
        (Ok(ValueV::Null), env)
    } else {
        let (r, env1) = spec_exec_stmt(ss[0], env, fi, fuel);
        match r {
            Err(er) => (Err(er), env1),
            Ok(v) => if ss.len() == 1 {
                (Ok(v), env1)
            } else {
                spec_execute(ss.drop_first(), env1, fi, fuel)
            },
        }
    }
}

/// The binary-operator expression `a OP b` on two integer literals.
pub open spec fn literal_binop(a: i32, b: i32, op: crate::token::TokenV) -> ExprV {
    ExprV::BinaryOp(Box::new(ExprV::IntLiteral(a)), Box::new(ExprV::IntLiteral(b)), op)
}

/// Operator laws on integer literals: in any environment, any frame and
/// with any fuel, `a + b` evaluates to `Int(a + b)` whenever that sum is
/// representable, and likewise for `-` and `*`; `a < b`, `a == b` and
/// `a != b` always evaluate to the corresponding `Bool`. The environment
/// is left untouched.
pub proof fn lemma_binop_literal_laws(a: i32, b: i32, op: crate::token::TokenV, env: EnvV, fi: int, fuel: nat)
    ensures
        op.kind == TokenType::Plus && i32::MIN <= a + b <= i32::MAX ==> spec_eval_expr(
            literal_binop(a, b, op),
            env,
            fi,
            fuel,
        ) == (Ok::<ValueV, RuntimeError>(ValueV::Int((a + b) as i32)), env),
        op.kind == TokenType::Minus && i32::MIN <= a - b <= i32::MAX ==> spec_eval_expr(
            literal_binop(a, b, op),
            env,
            fi,
            fuel,
        ) == (Ok::<ValueV, RuntimeError>(ValueV::Int((a - b) as i32)), env),
        op.kind == TokenType::Mul && i32::MIN <= a * b <= i32::MAX ==> spec_eval_expr(
            literal_binop(a, b, op),
            env,
            fi,
            fuel,
        ) == (Ok::<ValueV, RuntimeError>(ValueV::Int((a * b) as i32)), env),
        op.kind == TokenType::LessThan ==> spec_eval_expr(literal_binop(a, b, op), env, fi, fuel)
            == (Ok::<ValueV, RuntimeError>(ValueV::Bool(a < b)), env),
        op.kind == TokenType::EqualEqual ==> spec_eval_expr(literal_binop(a, b, op), env, fi, fuel)
            == (Ok::<ValueV, RuntimeError>(ValueV::Bool(a == b)), env),
        op.kind == TokenType::BangEqual ==> spec_eval_expr(literal_binop(a, b, op), env, fi, fuel)
            == (Ok::<ValueV, RuntimeError>(ValueV::Bool(a != b)), env),
{
    assert(spec_eval_expr(ExprV::IntLiteral(a), env, fi, fuel) == (
        Ok::<ValueV, RuntimeError>(ValueV::Int(a)),
        env,
    ));
    assert(spec_eval_expr(ExprV::IntLiteral(b), env, fi, fuel) == (
        Ok::<ValueV, RuntimeError>(ValueV::Int(b)),
        env,
    ));
    if op.kind == TokenType::Mul && i32::MIN <= a * b <= i32::MAX {
        let x = a as int * b as int;
        let m = 0x1_0000_0000int;
        if x >= 0 {
            vstd::arithmetic::div_mod::lemma_small_mod(x as nat, m as nat);
            assert(vstd::wrapping::i32_specs::signed_crop(x) == (a * b) as i32);
        } else {
            vstd::arithmetic::div_mod::lemma_mod_add_multiples_vanish(x, m);
            vstd::arithmetic::div_mod::lemma_small_mod((x + m) as nat, m as nat);
            assert(x % m == x + m);
            assert(vstd::wrapping::i32_specs::signed_crop(x) == (a * b) as i32);
        }
    }
}

/// One arithmetic or comparison operator applied to two integers.
fn eval_binop(kind: TokenType, a: i32, b: i32) -> (r: Result<Value, RuntimeError>)
    ensures
        match r {
            Ok(v) => spec_binop(kind, a, b) == Ok::<ValueV, RuntimeError>(v@),
            Err(er) => spec_binop(kind, a, b) == Err::<ValueV, RuntimeError>(er),
        },
{
    if kind == TokenType::Plus {
        Ok(Value::Int(a.wrapping_add(b)))
    } else if kind == TokenType::Minus {
        Ok(Value::Int(a.wrapping_sub(b)))
    } else if kind == TokenType::Mul {
        Ok(Value::Int(a.wrapping_mul(b)))
    } else if kind == TokenType::Div {
        if b == 0 {
            Err(RuntimeError::DivisionByZero)
        } else {
            match a.checked_div(b) {
                Some(q) => Ok(Value::Int(q)),
                None => Ok(Value::Int(i32::MIN)),
            }
        }
    } else if kind == TokenType::LessThan {
        Ok(Value::Bool(a < b))
    } else if kind == TokenType::EqualEqual {
        Ok(Value::Bool(a == b))
    } else if kind == TokenType::BangEqual {
        Ok(Value::Bool(a != b))
    } else {
        Err(RuntimeError::UnknownOperator)
    }
}

/// Evaluate an expression against frame `frame_index`, yielding its value
/// and threading the environment: exactly what `spec_eval_expr` names.
#[verifier::rlimit(100)]
pub fn interpret_expr(expr: &Expr, env: &mut Environment, frame_index: usize, fuel: u64) -> (r:
    Result<Value, RuntimeError>)
    requires
        old(env).wf(),
        frame_index < old(env)@.frames.len(),
    ensures
        final(env).wf(),
        old(env)@.frames.len() <= final(env)@.frames.len(),
        ({
            let (sr, senv) = spec_eval_expr(
                view_expr(*expr),
                old(env)@,
                frame_index as int,
                fuel as nat,
            );
            &&& final(env)@ == senv
            &&& match r {
                Ok(v) => sr == Ok::<ValueV, RuntimeError>(v@),
                Err(er) => sr == Err::<ValueV, RuntimeError>(er),
            }
        }),
    decreases fuel, size_expr(view_expr(*expr)),
{
    let ghost ev = view_expr(*expr);
    match expr {
        Expr::IntLiteral(v) => Ok(Value::Int(*v)),
        Expr::Identifier(t) => {
            match env.lookup(&t.value, frame_index) {
                Some(v) => Ok(v),
                None => Err(RuntimeError::UndefinedVariable),
            }
        },
        Expr::BinaryOp(l, r, op) => {
            match interpret_expr(l, env, frame_index, fuel) {
                Err(e) => Err(e),
                Ok(lv) => {
                    match interpret_expr(r, env, frame_index, fuel) {
                        Err(e) => Err(e),
                        Ok(rv) => {
                            match (lv, rv) {
                                (Value::Int(a), Value::Int(b)) => eval_binop(
                                    op.token_type,
                                    a,
                                    b,
                                ),
                                _ => Err(RuntimeError::TypeMismatch),
                            }
                        },
                    }
                },
            }
        },
        Expr::Assign(target, v) => {
            let ghost targetv = view_expr(**target);
            match interpret_expr(v, env, frame_index, fuel) {
                Err(e) => Err(e),
                Ok(val) => {
                    match &**target {
                        Expr::Identifier(tok) => {
                            proof {
                                assert(targetv == ExprV::Identifier(tok@));
                            }
                            env.assign(&tok.value, val, frame_index);
                            Ok(Value::Null)
                        },
                        _ => {
                            proof {
                                assert(!(targetv is Identifier));
                            }
                            Err(RuntimeError::InvalidAssignmentTarget)
                        },
                    }
                },
            }
        },
        Expr::Call(name, args) => {
            let ghost calleev = view_expr(**name);
            let func = match &**name {
                Expr::Identifier(tok) => {
                    proof {
                        assert(calleev == ExprV::Identifier(tok@));
                    }
                    match env.lookup(&tok.value, frame_index) {
                        None => {
                            return Err(RuntimeError::UndefinedVariable);
                        },
                        Some(Value::Function(f)) => f,
                        Some(_) => {
                            return Err(RuntimeError::InvalidCallee);
                        },
                    }
                },
                _ => {
                    proof {
                        assert(!(calleev is Identifier));
                    }
                    return Err(RuntimeError::InvalidCallee);
                },
            };
            proof {
                crate::ast::lemma_view_exprs(args@);
            }
            if func.args.len() != args.len() {
                return Err(RuntimeError::ArityMismatch);
            }
            let ghost argsv = view_exprs(args@);
            let ghost env_a = env@;
            let mut vals: Vec<Value> = Vec::new();
            let mut i: usize = 0;
            proof {
                assert(argsv.skip(0) =~= argsv);
            }
            #[verifier::loop_isolation(false)]
            while i < args.len()
                invariant
                    env.wf(),
                    frame_index < env@.frames.len(),
                    old(env)@.frames.len() <= env@.frames.len(),
                    i <= args.len(),
                    vals@.len() == i,
                    ({
                        let (sr, senv) = spec_eval_args(
                            argsv,
                            env_a,
                            frame_index as int,
                            fuel as nat,
                        );
                        let (sr2, senv2) = spec_eval_args(
                            argsv.skip(i as int),
                            env@,
                            frame_index as int,
                            fuel as nat,
                        );
                        match sr2 {
                            Ok(rest) => sr == Ok::<Seq<ValueV>, RuntimeError>(
                                vals.deep_view() + rest,
                            ) && senv == senv2,
                            Err(er) => sr == Err::<Seq<ValueV>, RuntimeError>(er) && senv
                                == senv2,
                        }
                    }),
                decreases args.len() - i,
            {
                let ghost vals0 = vals.deep_view();
                proof {
                    assert(argsv.skip(i as int)[0] == argsv[i as int]);
                    assert(argsv.skip(i as int).drop_first() =~= argsv.skip(i as int + 1));
                    lemma_size_exprs_elem(argsv, i as int);
                }
                match interpret_expr(&args[i], env, frame_index, fuel) {
                    Err(e) => {
                        return Err(e);
                    },
                    Ok(v) => {
                        proof {
                            let (sr3, senv3) = spec_eval_args(
                                argsv.skip(i as int + 1),
                                env@,
                                frame_index as int,
                                fuel as nat,
                            );
                            match sr3 {
                                Ok(rest2) => {
                                    assert(vals.deep_view().push(v@) =~= vals0 + seq![v@]);
                                    assert((vals0 + seq![v@]) + rest2 =~= vals0 + (seq![v@]
                                        + rest2));
                                },
                                Err(er) => {},
                            }
                        }
                        vals.push(v);
                        proof {
                            assert(vals.deep_view() =~= vals0.push(v@));
                        }
                        i = i + 1;
                    },
                }
            }
            proof {
                assert(argsv.skip(args@.len() as int) =~= Seq::<ExprV>::empty());
                assert(vals.deep_view() + Seq::<ValueV>::empty() =~= vals.deep_view());
            }
            let ghost env_after_args = env@;
            if fuel == 0 {
                return Err(RuntimeError::RecursionLimit);
            }
            let new_index = env.allocate_new_frame(Some(frame_index));
            let ghost frames2 = env@.frames;
            let ghost namesv = func@.args;
            let ghost valsv = vals.deep_view();
            let ghost printed_a = env@.printed;
            let mut j: usize = 0;
            proof {
                assert(namesv.skip(0) =~= namesv);
                assert(valsv.skip(0) =~= valsv);
            }
            #[verifier::loop_isolation(false)]
            while j < func.args.len()
                invariant
                    env.wf(),
                    j <= func.args.len(),
                    new_index < env@.frames.len(),
                    env@.frames.len() == frames2.len(),
                    env@.printed == printed_a,
                    namesv.len() == vals@.len(),
                    spec_bind_params(frames2, namesv, valsv, new_index as int)
                        == spec_bind_params(
                        env@.frames,
                        namesv.skip(j as int),
                        valsv.skip(j as int),
                        new_index as int,
                    ),
                decreases func.args.len() - j,
            {
                proof {
                    assert(namesv.skip(j as int)[0] == namesv[j as int]);
                    assert(namesv.skip(j as int).drop_first() =~= namesv.skip(j as int + 1));
                    assert(valsv.skip(j as int)[0] == valsv[j as int]);
                    assert(valsv.skip(j as int).drop_first() =~= valsv.skip(j as int + 1));
                    assert(namesv[j as int] == func.args@[j as int]@);
                    assert(valsv[j as int] == vals@[j as int]@);
                }
                let value = vals[j].duplicate();
                env.define(&func.args[j], value, new_index);
                j = j + 1;
            }
            proof {
                assert(namesv.skip(namesv.len() as int) =~= Seq::<Seq<char>>::empty());
                assert(spec_bind_params(frames2, namesv, valsv, new_index as int) == env@.frames);
                let (sr_a, senv_a) = spec_eval_args(argsv, env_a, frame_index as int, fuel as nat);
                assert(senv_a == env_after_args);
                assert(sr_a == Ok::<Seq<ValueV>, RuntimeError>(valsv));
                assert(frames2 == senv_a.frames.push(child_frame(frame_index as int)));
                assert(new_index as int == senv_a.frames.len());
                assert(env@.printed == senv_a.printed);
                assert(view_stmt(*func.body) == func@.body);
                assert(env@ == EnvV {
                    frames: spec_bind_params(
                        senv_a.frames.push(child_frame(frame_index as int)),
                        func@.args,
                        valsv,
                        senv_a.frames.len() as int,
                    ),
                    printed: senv_a.printed,
                });
            }
            interpret_stmt(&func.body, env, new_index, fuel - 1)
        },
    }
}

/// Execute a statement against frame `frame_index`, yielding its value
/// and threading the environment: exactly what `spec_exec_stmt` names.
#[verifier::rlimit(100)]
pub fn interpret_stmt(stmt: &Stmt, env: &mut Environment, frame_index: usize, fuel: u64) -> (r:
    Result<Value, RuntimeError>)
    requires
        old(env).wf(),
        frame_index < old(env)@.frames.len(),
    ensures
        final(env).wf(),
        old(env)@.frames.len() <= final(env)@.frames.len(),
        ({
            let (sr, senv) = spec_exec_stmt(
                view_stmt(*stmt),
                old(env)@,
                frame_index as int,
                fuel as nat,
            );
            &&& final(env)@ == senv
            &&& match r {
                Ok(v) => sr == Ok::<ValueV, RuntimeError>(v@),
                Err(er) => sr == Err::<ValueV, RuntimeError>(er),
            }
        }),
    decreases fuel, size_stmt(view_stmt(*stmt)),
{
    let ghost sv = view_stmt(*stmt);
    match stmt {
        Stmt::Expr(e) => interpret_expr(e, env, frame_index, fuel),
        Stmt::Return(e) => interpret_expr(e, env, frame_index, fuel),
        Stmt::Print(e) => {
            match interpret_expr(e, env, frame_index, fuel) {
                Err(er) => Err(er),
                Ok(v) => {
                    env.print_value(v);
                    Ok(Value::Null)
                },
            }
        },
        Stmt::Def(name, params, body) => {
            match name {
                Expr::Identifier(tok) => {
                    let ghost paramsv = view_exprs(params@);
                    proof {
                        crate::ast::lemma_view_exprs(params@);
                    }
                    let mut names: Vec<String> = Vec::new();
                    let mut i: usize = 0;
                    proof {
                        assert(paramsv.skip(0) =~= paramsv);
                        assert(Seq::<Seq<char>>::empty() + param_names(paramsv)->0
                            =~= param_names(paramsv)->0);
                    }
                    #[verifier::loop_isolation(false)]
                    while i < params.len()
                        invariant
                            i <= params.len(),
                            names@.len() == i,
                            ({
                                match param_names(paramsv.skip(i as int)) {
                                    Some(rest) => param_names(paramsv) == Some(
                                        names.deep_view() + rest,
                                    ),
                                    None => param_names(paramsv) is None,
                                }
                            }),
                        decreases params.len() - i,
                    {
                        let ghost names0 = names.deep_view();
                        proof {
                            assert(paramsv.skip(i as int)[0] == paramsv[i as int]);
                            assert(paramsv.skip(i as int).drop_first() =~= paramsv.skip(
                                i as int + 1,
                            ));
                        }
                        match &params[i] {
                            Expr::Identifier(t) => {
                                proof {
                                    match param_names(paramsv.skip(i as int + 1)) {
                                        Some(rest2) => {
                                            assert((names0 + seq![t.value@]) + rest2
                                                =~= names0 + (seq![t.value@] + rest2));
                                        },
                                        None => {},
                                    }
                                }
                                names.push(t.value.clone());
                                proof {
                                    assert(names.deep_view() =~= names0.push(t.value@));
                                    assert(names0.push(t.value@) =~= names0 + seq![t.value@]);
                                }
                                i = i + 1;
                            },
                            _ => {
                                return Err(RuntimeError::InvalidParameter);
                            },
                        }
                    }
                    proof {
                        assert(paramsv.skip(paramsv.len() as int) =~= Seq::<ExprV>::empty());
                        assert(names.deep_view() + Seq::<Seq<char>>::empty() =~= names.deep_view());
                    }
                    let body_copy = crate::ast::clone_stmt(body);
                    let func = Value::Function(
                        Function { name: tok.value.clone(), args: names, body: Box::new(body_copy) },
                    );
                    proof {
                        assert(func@ == ValueV::Function(
                            FunctionV {
                                name: tok.value@,
                                args: func->Function_0.args.deep_view(),
                                body: view_stmt(*stmt->Def_2),
                            },
                        ));
                    }
                    env.define(&tok.value, func, frame_index);
                    Ok(Value::Null)
                },
                _ => Err(RuntimeError::InvalidAssignmentTarget),
            }
        },
        Stmt::Block(stmts) => {
            let new_index = env.allocate_new_frame(Some(frame_index));
            let ghost ssv = view_stmts(stmts@);
            let ghost env_b = env@;
            proof {
                crate::ast::lemma_view_stmts(stmts@);
                assert(ssv.skip(0) =~= ssv);
            }
            let mut i: usize = 0;
            #[verifier::loop_isolation(false)]
            while i < stmts.len()
                invariant
                    env.wf(),
                    i <= stmts.len(),
                    new_index < env@.frames.len(),
                    old(env)@.frames.len() <= env@.frames.len(),
                    spec_exec_block(ssv, env_b, new_index as int, fuel as nat) == spec_exec_block(
                        ssv.skip(i as int),
                        env@,
                        new_index as int,
                        fuel as nat,
                    ),
                decreases stmts.len() - i,
            {
                proof {
                    assert(ssv.skip(i as int)[0] == ssv[i as int]);
                    assert(ssv.skip(i as int).drop_first() =~= ssv.skip(i as int + 1));
                    lemma_size_stmts_elem(ssv, i as int);
                }
                match interpret_stmt(&stmts[i], env, new_index, fuel) {
                    Err(e) => {
                        return Err(e);
                    },
                    Ok(v) => {
                        if v.is_null() {
                            i = i + 1;
                        } else {
                            return Ok(v);
                        }
                    },
                }
            }
            proof {
                assert(ssv.skip(ssv.len() as int) =~= Seq::<StmtV>::empty());
            }
            Ok(Value::Null)
        },
        Stmt::If(c, t, els) => {
            match interpret_expr(c, env, frame_index, fuel) {
                Err(er) => Err(er),
                Ok(cond) => {
                    match cond {
                        Value::Bool(b) => {
                            if b {
                                interpret_stmt(t, env, frame_index, fuel)
                            } else {
                                match els {
                                    Some(eb) => interpret_stmt(eb, env, frame_index, fuel),
                                    None => Ok(Value::Null),
                                }
                            }
                        },
                        _ => Err(RuntimeError::TypeMismatch),
                    }
                },
            }
        },
        Stmt::Break => Ok(Value::Interrupted),
        Stmt::While(c, b) => {
            match interpret_expr(c, env, frame_index, fuel) {
                Err(er) => Err(er),
                Ok(cond) => {
                    match cond {
                        Value::Bool(cb) => {
                            if cb {
                                match interpret_stmt(b, env, frame_index, fuel) {
                                    Err(er) => Err(er),
                                    Ok(v) => {
                                        if v.is_null() {
                                            if fuel == 0 {
                                                Err(RuntimeError::RecursionLimit)
                                            } else {
                                                interpret_stmt(stmt, env, frame_index, fuel - 1)
                                            }
                                        } else if v.is_interrupted() {
                                            Ok(Value::Null)
                                        } else {
                                            Ok(v)
                                        }
                                    },
                                }
                            } else {
                                Ok(Value::Null)
                            }
                        },
                        _ => Err(RuntimeError::TypeMismatch),
                    }
                },
            }
        },
    }
}

/// Run a whole program's statements, in order, against frame
/// `frame_index`: the last statement's value (or `Null` for an empty
/// program), or the first error.
pub fn execute(stmts: &Vec<Stmt>, env: &mut Environment, frame_index: usize, fuel: u64) -> (r:
    Result<Value, RuntimeError>)
    requires
        old(env).wf(),
        frame_index < old(env)@.frames.len(),
    ensures
        final(env).wf(),
        old(env)@.frames.len() <= final(env)@.frames.len(),
        ({
            let (sr, senv) = spec_execute(
                view_stmts(stmts@),
                old(env)@,
                frame_index as int,
                fuel as nat,
            );
            &&& final(env)@ == senv
            &&& match r {
                Ok(v) => sr == Ok::<ValueV, RuntimeError>(v@),
                Err(er) => sr == Err::<ValueV, RuntimeError>(er),
            }
        }),
{
    let ghost ssv = view_stmts(stmts@);
    let ghost env0 = env@;
    proof {
        crate::ast::lemma_view_stmts(stmts@);
    }
    if stmts.len() == 0 {
        return Ok(Value::Null);
    }
    proof {
        assert(ssv.skip(0) =~= ssv);
    }
    let mut i: usize = 0;
    #[verifier::loop_isolation(false)]
    loop
        invariant
            env.wf(),
            i < stmts@.len(),
            frame_index < env@.frames.len(),
            old(env)@.frames.len() <= env@.frames.len(),
            spec_execute(ssv, env0, frame_index as int, fuel as nat) == spec_execute(
                ssv.skip(i as int),
                env@,
                frame_index as int,
                fuel as nat,
            ),
        decreases stmts@.len() - i,
    {
        proof {
            assert(ssv.skip(i as int)[0] == ssv[i as int]);
            assert(ssv.skip(i as int).drop_first() =~= ssv.skip(i as int + 1));
        }
        match interpret_stmt(&stmts[i], env, frame_index, fuel) {
            Err(e) => {
                return Err(e);
            },
            Ok(v) => {
                if i + 1 == stmts.len() {
                    return Ok(v);
                }
                i = i + 1;
            },
        }
    }
}


/// What a whole run can fail with: a lexical error, a parse error, or a
/// runtime error.
#[derive(Debug, PartialEq, Eq, Clone, Copy, Structural)]
pub enum ProgramError {
    Lex(crate::scanner::LexError),
    Parse(crate::parser::ParseError),
    Runtime(RuntimeError),
}

/// The environment a run starts from: the empty root frame and nothing
/// printed.
pub open spec fn initial_env() -> EnvV {
    EnvV {
        frames: seq![FrameV { vars: Seq::empty(), parent: None }],
        printed: Seq::empty(),
    }
}

/// The whole pipeline, verified end to end: lex the source, parse the
/// tokens, run the statements in a fresh environment, and yield the
/// program result together with everything it printed.
pub fn run_source(source: &str, fuel: u64) -> (r: Result<(Value, Vec<Value>), ProgramError>)
    ensures
        match crate::scanner::spec_tokenize(source@) {
            Err(le) => r == Err::<(Value, Vec<Value>), ProgramError>(ProgramError::Lex(le)),
            Ok(toks) => match crate::parser::spec_parse_program(toks) {
                Err(pe) => r == Err::<(Value, Vec<Value>), ProgramError>(ProgramError::Parse(pe)),
                Ok(prog) => ({
                    let (sr, senv) = spec_execute(prog, initial_env(), 0, fuel as nat);
                    match r {
                        Ok((v, printed)) => sr == Ok::<ValueV, RuntimeError>(v@)
                            && printed.deep_view() == senv.printed,
                        Err(pe) => pe matches ProgramError::Runtime(re) && sr == Err::<
                            ValueV,
                            RuntimeError,
                        >(re),
                    }
                }),
            },
        },
{
    let tokens = match crate::scanner::tokenize(source) {
        Err(e) => {
            return Err(ProgramError::Lex(e));
        },
        Ok(t) => t,
    };
    proof {
        crate::scanner::lemma_tokenize_wf(source@);
    }
    let stmts = match crate::parser::parse(tokens) {
        Err(e) => {
            return Err(ProgramError::Parse(e));
        },
        Ok(s) => s,
    };
    let mut env = Environment::new();
    proof {
        assert(env@ =~~= initial_env());
    }
    match execute(&stmts, &mut env, 0, fuel) {
        Ok(v) => Ok((v, env.printed)),
        Err(e) => Err(ProgramError::Runtime(e)),
    }
}

} // verus!
