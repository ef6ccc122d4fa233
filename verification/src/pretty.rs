//! Rendering the syntax tree back to text: every node kind prints in a
//! fixed shape, pinned character for character by specification-level
//! printers.

use vstd::prelude::*;

use crate::ast::{view_expr, view_exprs, view_stmt, view_stmts, Expr, ExprV, Stmt, StmtV};

verus! {

/// The one-character string of a decimal digit.
pub open spec fn digit_seq(d: nat) -> Seq<char> {
    if d == 0 {
        "0"@
    } else if d == 1 {
        "1"@
    } else if d == 2 {
        "2"@
    } else if d == 3 {
        "3"@
    } else if d == 4 {
        "4"@
    } else if d == 5 {
        "5"@
    } else if d == 6 {
        "6"@
    } else if d == 7 {
        "7"@
    } else if d == 8 {
        "8"@
    } else {
        "9"@
    }
}

/// The decimal digits of a natural number, most significant first.
pub open spec fn dec_digits(n: nat) -> Seq<char>
    decreases n,
{
    if n < 10 {
        digit_seq(n)
    } else {
        dec_digits(n / 10) + digit_seq(n % 10)
    }
}

/// The decimal rendering of an `i32`, a minus sign first when negative.
pub open spec fn spec_int_string(v: i32) -> Seq<char> {
    if v >= 0 {
        dec_digits(v as nat)
    } else {
        "-"@ + dec_digits((-(v as int)) as nat)
    }
}

/// Four spaces per open indentation level.
pub open spec fn indent_seq(n: nat) -> Seq<char>
    decreases n,
{
    if n == 0 {
        Seq::empty()
    } else {
        indent_seq((n - 1) as nat) + "    "@
    }
}

/// One more indentation level, held inside the machine's index range.
pub open spec fn bump(indent: nat) -> nat {
    if indent < usize::MAX {
        indent + 1
    } else {
        indent
    }
}

/// The rendering of an expression: literals as decimal, identifiers as
/// their name, operator applications fully parenthesized, calls with
/// comma-separated arguments, assignments with `=`.
pub open spec fn spec_pretty_expr(e: ExprV, indent: nat) -> Seq<char>
    decreases e,
{
    match e {
        ExprV::IntLiteral(v) => spec_int_string(v),
        ExprV::Identifier(t) => t.text,
        ExprV::BinaryOp(l, r, op) => "("@ + spec_pretty_expr(*l, indent) + " "@ + op.text + " "@
            + spec_pretty_expr(*r, indent) + ")"@,
        ExprV::Call(f, args) => spec_pretty_expr(*f, indent) + "("@ + spec_pretty_args(
            args,
            indent,
        ) + ")"@,
        ExprV::Assign(t, v) => spec_pretty_expr(*t, indent) + " = "@ + spec_pretty_expr(
            *v,
            indent,
        ),
    }
}

/// A comma-separated expression list.
pub open spec fn spec_pretty_args(args: Seq<ExprV>, indent: nat) -> Seq<char>
    decreases args,
{
    if args.len() == 0 {
        Seq::empty()
    } else if args.len() == 1 {
        spec_pretty_expr(args[0], indent)
    } else {
        spec_pretty_expr(args[0], indent) + ", "@ + spec_pretty_args(args.drop_first(), indent)
    }
}

/// The rendering of a statement, at a given indentation level.
pub open spec fn spec_pretty_stmt(s: StmtV, indent: nat) -> Seq<char>
    decreases s,
{
    match s {
        StmtV::Def(name, params, body) => "def "@ + spec_pretty_expr(name, indent) + "("@
            + spec_pretty_args(params, indent) + "):\n"@ + spec_pretty_stmt(*body, indent),
        StmtV::If(c, t, els) => {
            let head = "if "@ + spec_pretty_expr(c, indent) + " :\n"@ + spec_pretty_stmt(
                *t,
                indent,
            );
            match els {
                Some(b) => head + " else "@ + spec_pretty_stmt(*b, indent),
                None => head,
            }
        },
        StmtV::Return(e) => "return "@ + spec_pretty_expr(e, indent) + "\n"@,
        StmtV::Print(e) => indent_seq(indent) + "print "@ + spec_pretty_expr(e, indent) + "\n"@,
        StmtV::Expr(e) => spec_pretty_expr(e, indent),
        StmtV::Block(ss) => spec_pretty_block(ss, indent) + "\n"@,
        StmtV::Break => indent_seq(indent) + "break\n\n"@,
        StmtV::While(c, b) => "while "@ + spec_pretty_expr(c, indent) + ":\n"@ + spec_pretty_stmt(
            *b,
            indent,
        ),
    }
}

/// The statements of a block, each on one more indentation level.
pub open spec fn spec_pretty_block(ss: Seq<StmtV>, indent: nat) -> Seq<char>
    decreases ss,
{
    if ss.len() == 0 {
        Seq::empty()
    } else {
        indent_seq(bump(indent)) + spec_pretty_stmt(ss[0], bump(indent)) + spec_pretty_block(
            ss.drop_first(),
            indent,
        )
    }
}

/// The one-character string of a digit value.
fn digit_str(d: u32) -> (r: &'static str)
    requires
        d < 10,
    ensures
        r@ == digit_seq(d as nat),
{
    if d == 0 {
        "0"
    } else if d == 1 {
        "1"
    } else if d == 2 {
        "2"
    } else if d == 3 {
        "3"
    } else if d == 4 {
        "4"
    } else if d == 5 {
        "5"
    } else if d == 6 {
        "6"
    } else if d == 7 {
        "7"
    } else if d == 8 {
        "8"
    } else {
        "9"
    }
}

/// Append the decimal digits of `n`.
fn push_digits(n: u32, out: &mut String)
    ensures
        final(out)@ == old(out)@ + dec_digits(n as nat),
    decreases n,
{
    if n < 10 {
        out.append(digit_str(n));
    } else {
        let ghost pre = out@;
        push_digits(n / 10, out);
        out.append(digit_str(n % 10));
        proof {
            assert(out@ =~= pre + (dec_digits(n as nat / 10) + digit_seq(n as nat % 10)));
        }
    }
}

/// The decimal rendering of an `i32`.
fn int_to_string(v: i32) -> (r: String)
    ensures
        r@ == spec_int_string(v),
{
    let mut out = String::new();
    if v >= 0 {
        push_digits(v as u32, &mut out);
        proof {
            assert(out@ =~= Seq::<char>::empty() + dec_digits(v as nat));
        }
    } else {
        out.append("-");
        let m = ((-(v as i64)) as u64) as u32;
        push_digits(m, &mut out);
        proof {
            assert(out@ =~= (Seq::<char>::empty() + "-"@) + dec_digits(m as nat));
            assert(out@ =~= "-"@ + dec_digits((-(v as int)) as nat));
        }
    }
    out
}

/// Append four spaces per open indentation level.
fn push_indent(indent: usize, out: &mut String)
    ensures
        final(out)@ == old(out)@ + indent_seq(indent as nat),
    decreases indent,
{
    if indent == 0 {
        proof {
            assert(old(out)@ + indent_seq(0) =~= old(out)@);
        }
    } else {
        let ghost pre = out@;
        push_indent(indent - 1, out);
        out.append("    ");
        proof {
            assert(out@ =~= pre + (indent_seq((indent - 1) as nat) + "    "@));
        }
    }
}

/// A syntax-tree node that can render itself as text.
pub trait PrettyPrint {
    /// The exact text this node renders to.
    spec fn spec_pretty(&self, indent: nat) -> Seq<char>;

    /// Render this node at the given indentation level.
    fn pretty_print(&self, indent: usize) -> (r: String)
        ensures
            r@ == self.spec_pretty(indent as nat),
    ;
}

/// A node of the abstract syntax tree.
pub trait AstNode: PrettyPrint {

}

impl PrettyPrint for Expr {
    open spec fn spec_pretty(&self, indent: nat) -> Seq<char> {
        spec_pretty_expr(view_expr(*self), indent)
    }

    fn pretty_print(&self, indent: usize) -> (r: String)
        decreases *self,
    {
        match self {
            Expr::IntLiteral(v) => int_to_string(*v),
            Expr::Identifier(t) => t.value.clone(),
            Expr::BinaryOp(l, r, op) => {
                let mut out = String::new();
                out.append("(");
                let ls = l.pretty_print(indent);
                out.append(ls.as_str());
                out.append(" ");
                out.append(op.value.as_str());
                out.append(" ");
                let rs = r.pretty_print(indent);
                out.append(rs.as_str());
                out.append(")");
                proof {
                    assert(out@ =~= spec_pretty_expr(view_expr(*self), indent as nat));
                }
                out
            },
            Expr::Call(f, args) => {
                let mut out = f.pretty_print(indent);
                out.append("(");
                let ghost argsv = view_exprs(args@);
                proof {
                    crate::ast::lemma_view_exprs(args@);
                    assert(argsv.skip(0) =~= argsv);
                }
                let mut i: usize = 0;
                #[verifier::loop_isolation(false)]
                while i < args.len()
                    invariant
                        i <= args.len(),
                        out@ + spec_pretty_args(argsv.skip(i as int), indent as nat)
                            =~= spec_pretty_expr(view_expr(**f), indent as nat) + "("@
                            + spec_pretty_args(argsv, indent as nat),
                    decreases args.len() - i,
                {
                    proof {
                        assert(argsv.skip(i as int)[0] == argsv[i as int]);
                        assert(argsv.skip(i as int).drop_first() =~= argsv.skip(i as int + 1));
                        assert(decreases_to!(*self => (*self)->Call_1));
                        assert(decreases_to!((*self)->Call_1 => (*self)->Call_1@));
                        assert(decreases_to!((*self)->Call_1@ => (*self)->Call_1@[i as int]));
                        assert(decreases_to!(*self => args@[i as int]));
                    }
                    let ghost pre = out@;
                    let piece = args[i].pretty_print(indent);
                    out.append(piece.as_str());
                    if i + 1 < args.len() {
                        out.append(", ");
                        proof {
                            assert(out@ =~= (pre + spec_pretty_expr(argsv[i as int], indent as nat))
                                + ", "@);
                        }
                    }
                    i = i + 1;
                }
                proof {
                    assert(spec_pretty_args(argsv.skip(args@.len() as int), indent as nat)
                        =~= Seq::<char>::empty());
                    assert(out@ =~= out@ + Seq::<char>::empty());
                }
                out.append(")");
                proof {
                    assert(out@ =~= spec_pretty_expr(view_expr(*self), indent as nat));
                }
                out
            },
            Expr::Assign(t, v) => {
                let mut out = t.pretty_print(indent);
                out.append(" = ");
                let vs = v.pretty_print(indent);
                out.append(vs.as_str());
                proof {
                    assert(out@ =~= spec_pretty_expr(view_expr(*self), indent as nat));
                }
                out
            },
        }
    }
}

impl AstNode for Expr {

}

impl PrettyPrint for Stmt {
    open spec fn spec_pretty(&self, indent: nat) -> Seq<char> {
        spec_pretty_stmt(view_stmt(*self), indent)
    }

    fn pretty_print(&self, indent: usize) -> (r: String)
        decreases *self,
    {
        match self {
            Stmt::Def(name, params, body) => {
                let mut out = String::new();
                out.append("def ");
                let ns = name.pretty_print(indent);
                out.append(ns.as_str());
                out.append("(");
                let ghost paramsv = view_exprs(params@);
                proof {
                    crate::ast::lemma_view_exprs(params@);
                    assert(paramsv.skip(0) =~= paramsv);
                }
                let mut i: usize = 0;
                #[verifier::loop_isolation(false)]
                while i < params.len()
                    invariant
                        i <= params.len(),
                        out@ + spec_pretty_args(paramsv.skip(i as int), indent as nat)
                            =~= ("def "@ + spec_pretty_expr(view_expr(*name), indent as nat)
                            + "("@) + spec_pretty_args(paramsv, indent as nat),
                    decreases params.len() - i,
                {
                    proof {
                        assert(paramsv.skip(i as int)[0] == paramsv[i as int]);
                        assert(paramsv.skip(i as int).drop_first() =~= paramsv.skip(i as int + 1));
                    }
                    let ghost pre = out@;
                    let piece = params[i].pretty_print(indent);
                    out.append(piece.as_str());
                    if i + 1 < params.len() {
                        out.append(", ");
                        proof {
                            assert(out@ =~= (pre + spec_pretty_expr(
                                paramsv[i as int],
                                indent as nat,
                            )) + ", "@);
                        }
                    }
                    i = i + 1;
                }
                proof {
                    assert(spec_pretty_args(paramsv.skip(params@.len() as int), indent as nat)
                        =~= Seq::<char>::empty());
                    assert(out@ =~= out@ + Seq::<char>::empty());
                }
                out.append("):\n");
                let bs = body.pretty_print(indent);
                out.append(bs.as_str());
                proof {
                    assert(out@ =~= spec_pretty_stmt(view_stmt(*self), indent as nat));
                }
                out
            },
            Stmt::If(c, t, els) => {
                let mut out = String::new();
                out.append("if ");
                let cs = c.pretty_print(indent);
                out.append(cs.as_str());
                out.append(" :\n");
                let ts = t.pretty_print(indent);
                out.append(ts.as_str());
                match els {
                    Some(b) => {
                        out.append(" else ");
                        let bs = b.pretty_print(indent);
                        out.append(bs.as_str());
                    },
                    None => {},
                }
                proof {
                    assert(out@ =~= spec_pretty_stmt(view_stmt(*self), indent as nat));
                }
                out
            },
            Stmt::Return(e) => {
                let mut out = String::new();
                out.append("return ");
                let es = e.pretty_print(indent);
                out.append(es.as_str());
                out.append("\n");
                proof {
                    assert(out@ =~= spec_pretty_stmt(view_stmt(*self), indent as nat));
                }
                out
            },
            Stmt::Print(e) => {
                let mut out = String::new();
                push_indent(indent, &mut out);
                out.append("print ");
                let es = e.pretty_print(indent);
                out.append(es.as_str());
                out.append("\n");
                proof {
                    assert(out@ =~= spec_pretty_stmt(view_stmt(*self), indent as nat));
                }
                out
            },
            Stmt::Expr(e) => {
                let r = e.pretty_print(indent);
                r
            },
            Stmt::Block(ss) => {
                let mut out = String::new();
                let ghost ssv = view_stmts(ss@);
                proof {
                    crate::ast::lemma_view_stmts(ss@);
                    assert(ssv.skip(0) =~= ssv);
                }
                let deeper = if indent < usize::MAX {
                    indent + 1
                } else {
                    indent
                };
                let mut i: usize = 0;
                #[verifier::loop_isolation(false)]
                while i < ss.len()
                    invariant
                        i <= ss.len(),
                        deeper as nat == bump(indent as nat),
                        out@ + spec_pretty_block(ssv.skip(i as int), indent as nat)
                            =~= spec_pretty_block(ssv, indent as nat),
                    decreases ss.len() - i,
                {
                    proof {
                        assert(ssv.skip(i as int)[0] == ssv[i as int]);
                        assert(ssv.skip(i as int).drop_first() =~= ssv.skip(i as int + 1));
                        assert(decreases_to!(*self => (*self)->Block_0));
                        assert(decreases_to!((*self)->Block_0 => (*self)->Block_0@));
                        assert(decreases_to!((*self)->Block_0@ => (*self)->Block_0@[i as int]));
                        assert(decreases_to!(*self => ss@[i as int]));
                    }
                    let ghost pre = out@;
                    push_indent(deeper, &mut out);
                    let piece = ss[i].pretty_print(deeper);
                    out.append(piece.as_str());
                    proof {
                        assert(out@ =~= (pre + indent_seq(bump(indent as nat))) + spec_pretty_stmt(
                            ssv[i as int],
                            bump(indent as nat),
                        ));
                    }
                    i = i + 1;
                }
                proof {
                    assert(spec_pretty_block(ssv.skip(ss@.len() as int), indent as nat)
                        =~= Seq::<char>::empty());
                    assert(out@ =~= out@ + Seq::<char>::empty());
                }
                out.append("\n");
                proof {
                    assert(out@ =~= spec_pretty_stmt(view_stmt(*self), indent as nat));
                }
                out
            },
            Stmt::Break => {
                let mut out = String::new();
                push_indent(indent, &mut out);
                out.append("break\n\n");
                proof {
                    assert(out@ =~= spec_pretty_stmt(view_stmt(*self), indent as nat));
                }
                out
            },
            Stmt::While(c, b) => {
                let mut out = String::new();
                out.append("while ");
                let cs = c.pretty_print(indent);
                out.append(cs.as_str());
                out.append(":\n");
                let bs = b.pretty_print(indent);
                out.append(bs.as_str());
                proof {
                    assert(out@ =~= spec_pretty_stmt(view_stmt(*self), indent as nat));
                }
                out
            },
        }
    }
}

impl AstNode for Stmt {

}

} // verus!
