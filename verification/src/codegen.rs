//! A stack-code generator for the expression subset: expressions lower to
//! a linear sequence of load, store and operator instructions. Calls have
//! no instruction encoding and assignment targets must be identifiers;
//! `codegen_supported` delimits the translatable trees.

use vstd::prelude::*;

use crate::ast::{view_expr, Expr, ExprV};

verus! {

/// One stack instruction: push a constant, store to or load from a name,
/// or apply a binary operator (named by its source text) to the two
/// topmost stack values.
#[derive(Debug, PartialEq)]
pub enum Instruction {
    LoadConst(i32),
    StoreName(String),
    LoadName(String),
    BinaryOp(String),
}

/// The mathematical value of an instruction.
pub ghost enum InstructionV {
    LoadConst(i32),
    StoreName(Seq<char>),
    LoadName(Seq<char>),
    BinaryOp(Seq<char>),
}

impl View for Instruction {
    type V = InstructionV;

    open spec fn view(&self) -> InstructionV {
        match *self {
            Instruction::LoadConst(v) => InstructionV::LoadConst(v),
            Instruction::StoreName(ref s) => InstructionV::StoreName(s@),
            Instruction::LoadName(ref s) => InstructionV::LoadName(s@),
            Instruction::BinaryOp(ref s) => InstructionV::BinaryOp(s@),
        }
    }
}

impl DeepView for Instruction {
    type V = InstructionV;

    open spec fn deep_view(&self) -> InstructionV {
        self.view()
    }
}

/// Whether an expression lies in the translatable subset: no calls, and
/// every assignment target an identifier.
pub open spec fn codegen_supported(e: ExprV) -> bool
    decreases e,
{
    match e {
        ExprV::IntLiteral(_) => true,
        ExprV::Identifier(_) => true,
        ExprV::BinaryOp(l, r, _) => codegen_supported(*l) && codegen_supported(*r),
        ExprV::Call(_, _) => false,
        ExprV::Assign(t, v) => (*t matches ExprV::Identifier(_)) && codegen_supported(*v),
    }
}

/// The instruction sequence of an expression: operands first, operator
/// last; an assignment computes its value, then stores it.
pub open spec fn spec_codegen(e: ExprV) -> Seq<InstructionV>
    decreases e,
{
    match e {
        ExprV::IntLiteral(v) => seq![InstructionV::LoadConst(v)],
        ExprV::Identifier(t) => seq![InstructionV::LoadName(t.text)],
        ExprV::BinaryOp(l, r, op) => spec_codegen(*l) + spec_codegen(*r) + seq![
            InstructionV::BinaryOp(op.text),
        ],
        ExprV::Call(_, _) => Seq::empty(),
        ExprV::Assign(t, v) => spec_codegen(*v) + seq![
            InstructionV::StoreName(
                match *t {
                    ExprV::Identifier(tk) => tk.text,
                    _ => Seq::empty(),
                },
            ),
        ],
    }
}

/// Lower an expression of the translatable subset to its instruction
/// sequence: exactly what `spec_codegen` names.
pub fn codegen_expr(expr: &Expr) -> (r: Vec<Instruction>)
    requires
        codegen_supported(view_expr(*expr)),
    ensures
        r.deep_view() == spec_codegen(view_expr(*expr)),
    decreases *expr,
{
    match expr {
        Expr::IntLiteral(i) => {
            let mut insts: Vec<Instruction> = Vec::new();
            insts.push(Instruction::LoadConst(*i));
            proof {
                assert(insts.deep_view() =~= seq![InstructionV::LoadConst(*i)]);
            }
            insts
        },
        Expr::Identifier(tok) => {
            let mut insts: Vec<Instruction> = Vec::new();
            insts.push(Instruction::LoadName(tok.value.clone()));
            proof {
                assert(insts.deep_view() =~= seq![InstructionV::LoadName(tok.value@)]);
            }
            insts
        },
        Expr::BinaryOp(l, r, op) => {
            let mut insts = codegen_expr(l);
            let mut right = codegen_expr(r);
            let ghost dvl = insts.deep_view();
            let ghost dvr = right.deep_view();
            insts.append(&mut right);
            proof {
                assert(insts.deep_view() =~= dvl + dvr);
            }
            let ghost dv2 = insts.deep_view();
            insts.push(Instruction::BinaryOp(op.value.clone()));
            proof {
                assert(insts.deep_view() =~= dv2.push(InstructionV::BinaryOp(op.value@)));
                assert(dv2.push(InstructionV::BinaryOp(op.value@)) =~= (dvl + dvr) + seq![
                    InstructionV::BinaryOp(op.value@),
                ]);
            }
            insts
        },
        Expr::Assign(name, value) => {
            let ghost targetv = view_expr(**name);
            let mut insts = codegen_expr(value);
            let ghost dv = insts.deep_view();
            match &**name {
                Expr::Identifier(tok) => {
                    proof {
                        assert(targetv == ExprV::Identifier(tok@));
                    }
                    insts.push(Instruction::StoreName(tok.value.clone()));
                    proof {
                        assert(insts.deep_view() =~= dv + seq![
                            InstructionV::StoreName(tok.value@),
                        ]);
                    }
                    insts
                },
                _ => {
                    proof {
                        assert(!(targetv is Identifier));
                        assert(false);
                    }
                    insts
                },
            }
        },
        Expr::Call(_, _) => {
            proof {
                assert(false);
            }
            Vec::new()
        },
    }
}

} // verus!
