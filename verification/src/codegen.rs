use vstd::prelude::*;

use crate::ast::{
    AssignOp, BinOp, Declarator, DeclView, Expr, ExprView, Program, Stmt, StmtView, UpdateOp,
};

verus! {

/// Fatal generation failure: the AST holds a construct the generator does not
/// model. `construct` names it.
#[derive(Debug)]
pub struct GenError {
    pub construct: String,
}

impl View for GenError {
    type V = Seq<char>;

    open spec fn view(&self) -> Seq<char> {
        self.construct@
    }
}

/// Target text of a binary operator. Strict and loose (in)equality render
/// identically: the distinction is intentionally erased.
pub open spec fn bin_op_text(op: BinOp) -> Seq<char> {
    match op {
        BinOp::Equality => "=="@,
        BinOp::Inequality => "!="@,
        BinOp::LessThan => "<"@,
        BinOp::LessEqualThan => "<="@,
        BinOp::GreaterThan => ">"@,
        BinOp::GreaterEqualThan => ">="@,
        BinOp::In => "in"@,
        BinOp::Instanceof => "instanceof"@,
        BinOp::ShiftLeft => "<<"@,
        BinOp::ShiftRight => ">>"@,
        BinOp::ShiftRightZeroFill => ">>>"@,
        BinOp::Addition => "+"@,
        BinOp::Subtraction => "-"@,
        BinOp::Multiplication => "*"@,
        BinOp::Division => "/"@,
        BinOp::Remainder => "%"@,
        BinOp::BitwiseAnd => "&"@,
        BinOp::BitwiseOr => "|"@,
        BinOp::BitwiseXor => "^"@,
        BinOp::StrictEquality => "=="@,
        BinOp::StrictInequality => "!="@,
        BinOp::Exponential => "**"@,
    }
}

/// The decimal digit characters, least significant last.
pub open spec fn digit_char(d: nat) -> char {
    if d == 0 { '0' }
    else if d == 1 { '1' }
    else if d == 2 { '2' }
    else if d == 3 { '3' }
    else if d == 4 { '4' }
    else if d == 5 { '5' }
    else if d == 6 { '6' }
    else if d == 7 { '7' }
    else if d == 8 { '8' }
    else { '9' }
}

/// Decimal text of a number, without sign or leading zeros.
pub open spec fn dec_rep(n: nat) -> Seq<char>
    decreases n,
{
    if n < 10 {
        seq![digit_char(n)]
    } else {
        dec_rep(n / 10) + seq![digit_char(n % 10)]
    }
}

/// Text of the target of an assignment: a simple identifier or an indexed
/// element; every other shape is unsupported.
pub open spec fn render_assign_target(t: ExprView) -> Result<Seq<char>, Seq<char>>
    decreases t, 1nat,
{
    match t {
        ExprView::Ident { name } => Ok(name),
        ExprView::Member { object, index } => match (render_expr(*object), render_expr(*index)) {
            (Ok(o), Ok(i)) => Ok(o + "["@ + i + "]"@),
            (Err(k), _) => Err(k),
            (_, Err(k)) => Err(k),
        },
        _ => Err("assignment target"@),
    }
}

/// Text of an assignment operator; only `=` and `+=` are modeled.
pub open spec fn render_assign_op(op: AssignOp) -> Result<Seq<char>, Seq<char>> {
    match op {
        AssignOp::Assign => Ok(" = "@),
        AssignOp::AddAssign => Ok(" += "@),
        AssignOp::Other => Err("assignment operator"@),
    }
}

/// Target text of an expression, or the name of the first unsupported
/// construct found in it. Binary expressions are always fully parenthesized.
pub open spec fn render_expr(e: ExprView) -> Result<Seq<char>, Seq<char>>
    decreases e, 2nat,
{
    match e {
        ExprView::Num { value } => Ok(dec_rep(value)),
        ExprView::Ident { name } => Ok(name),
        ExprView::Binary { op, left, right } => match (render_expr(*left), render_expr(*right)) {
            (Ok(l), Ok(r)) => Ok("("@ + l + bin_op_text(op) + r + ")"@),
            (Err(k), _) => Err(k),
            (_, Err(k)) => Err(k),
        },
        ExprView::Assign { op, target, value } => match (
            render_assign_target(*target),
            render_assign_op(op),
            render_expr(*value),
        ) {
            (Ok(t), Ok(o), Ok(v)) => Ok(t + o + v),
            (Err(k), _, _) => Err(k),
            (_, Err(k), _) => Err(k),
            (_, _, Err(k)) => Err(k),
        },
        ExprView::Member { object, index } => match (render_expr(*object), render_expr(*index)) {
            (Ok(o), Ok(i)) => Ok(o + "["@ + i + "]"@),
            (Err(k), _) => Err(k),
            (_, Err(k)) => Err(k),
        },
        ExprView::StaticMember { object, property } => match render_expr(*object) {
            Ok(o) => Ok(o + "::"@ + property),
            Err(k) => Err(k),
        },
        ExprView::Call { callee, args } => match (render_expr(*callee), render_args(args)) {
            (Ok(c), Ok(a)) => Ok(c + "("@ + a + ")"@),
            (Err(k), _) => Err(k),
            (_, Err(k)) => Err(k),
        },
        ExprView::New { callee, args } => match (render_expr(*callee), render_args(args)) {
            (Ok(c), Ok(a)) => Ok("js_constructor_"@ + c + "("@ + a + ")"@),
            (Err(k), _) => Err(k),
            (_, Err(k)) => Err(k),
        },
        ExprView::Update { op, prefix, target } => match *target {
            ExprView::Ident { name } => {
                if op == UpdateOp::Increment && !prefix {
                    Ok(name + "++"@)
                } else {
                    Err("update operator"@)
                }
            },
            _ => Err("update target"@),
        },
        ExprView::Unsupported { kind } => Err(kind),
    }
}

/// Text of a comma-separated argument list.
pub open spec fn render_args(s: Seq<ExprView>) -> Result<Seq<char>, Seq<char>>
    decreases s, 1nat,
{
    if s.len() == 0 {
        Ok(Seq::empty())
    } else {
        match (render_expr(s[0]), render_args_rest(s.drop_first())) {
            (Ok(a), Ok(rest)) => Ok(a + rest),
            (Err(k), _) => Err(k),
            (_, Err(k)) => Err(k),
        }
    }
}

/// Text of the arguments after the first, each preceded by a separator.
pub open spec fn render_args_rest(s: Seq<ExprView>) -> Result<Seq<char>, Seq<char>>
    decreases s, 0nat,
{
    if s.len() == 0 {
        Ok(Seq::empty())
    } else {
        match (render_expr(s[0]), render_args_rest(s.drop_first())) {
            (Ok(a), Ok(rest)) => Ok(", "@ + a + rest),
            (Err(k), _) => Err(k),
            (_, Err(k)) => Err(k),
        }
    }
}

/// Text of a plain variable declaration: one type-inferred declaration per
/// declarator, the initializer where present.
pub open spec fn render_decls(s: Seq<DeclView>) -> Result<Seq<char>, Seq<char>>
    decreases s, 0nat,
{
    if s.len() == 0 {
        Ok(Seq::empty())
    } else {
        let head = match s[0].init {
            Some(e) => match render_expr(e) {
                Ok(v) => Ok("auto "@ + s[0].name + " = "@ + v + ";\n"@),
                Err(k) => Err(k),
            },
            None => Ok("auto "@ + s[0].name + ";\n"@),
        };
        match (head, render_decls(s.drop_first())) {
            (Ok(h), Ok(rest)) => Ok(h + rest),
            (Err(k), _) => Err(k),
            (_, Err(k)) => Err(k),
        }
    }
}

/// Text of a loop initializer's declarators, one indented declaration each.
/// A declarator without an initializer is unsupported here.
pub open spec fn render_for_decls(s: Seq<DeclView>, ind: Seq<char>) -> Result<
    Seq<char>,
    Seq<char>,
>
    decreases s, 0nat,
{
    if s.len() == 0 {
        Ok(Seq::empty())
    } else {
        let head = match s[0].init {
            Some(e) => match render_expr(e) {
                Ok(v) => Ok(ind + "auto "@ + s[0].name + " = "@ + v + ";\n"@),
                Err(k) => Err(k),
            },
            None => Err("loop declarator without initializer"@),
        };
        match (head, render_for_decls(s.drop_first(), ind)) {
            (Ok(h), Ok(rest)) => Ok(h + rest),
            (Err(k), _) => Err(k),
            (_, Err(k)) => Err(k),
        }
    }
}

/// Target text of one statement at the given indentation, or the name of the
/// first unsupported construct in it. A loop is desugared into an explicitly
/// scoped block holding the declarations, an unconditional-style guarded
/// loop, the body, and the update as the loop's last statement.
pub open spec fn render_stmt(s: StmtView, ind: Seq<char>) -> Result<Seq<char>, Seq<char>>
    decreases s, 1nat,
{
    match s {
        StmtView::Block { body } => render_stmts(body, ind + "    "@),
        StmtView::Expr { expr } => match render_expr(expr) {
            Ok(e) => Ok(ind + e + ";\n"@),
            Err(k) => Err(k),
        },
        StmtView::If { test, consequent } => match (
            render_expr(test),
            render_stmt(*consequent, ind + "    "@),
        ) {
            (Ok(t), Ok(c)) => Ok(ind + "if ("@ + t + ") {\n"@ + c + ind + "}\n"@),
            (Err(k), _) => Err(k),
            (_, Err(k)) => Err(k),
        },
        StmtView::For { init, test, update, body } => {
            let init_text = match init {
                Some(ds) => render_for_decls(ds, ind),
                None => Ok(Seq::empty()),
            };
            let test_text = match test {
                Some(e) => render_expr(e),
                None => Ok("true"@),
            };
            let update_text = match update {
                Some(e) => match render_expr(e) {
                    Ok(u) => Ok(u + ";\n"@),
                    Err(k) => Err(k),
                },
                None => Ok(Seq::empty()),
            };
            match (init_text, test_text, render_stmt(*body, ind + "    "@), update_text) {
                (Ok(i), Ok(t), Ok(b), Ok(u)) => Ok(
                    ind + "{\n"@ + i + ind + "while ("@ + t + ") {\n"@ + b + u + ind + "}\n"@
                        + ind + "}\n"@,
                ),
                (Err(k), _, _, _) => Err(k),
                (_, Err(k), _, _) => Err(k),
                (_, _, Err(k), _) => Err(k),
                (_, _, _, Err(k)) => Err(k),
            }
        },
        StmtView::VarDecl { decls } => render_decls(decls),
        StmtView::Empty => Ok(Seq::empty()),
        StmtView::Unsupported { kind } => Err(kind),
    }
}

/// Text of a statement sequence, in order, each at the given indentation.
pub open spec fn render_stmts(s: Seq<StmtView>, ind: Seq<char>) -> Result<Seq<char>, Seq<char>>
    decreases s, 0nat,
{
    if s.len() == 0 {
        Ok(Seq::empty())
    } else {
        match (render_stmt(s[0], ind), render_stmts(s.drop_first(), ind)) {
            (Ok(h), Ok(rest)) => Ok(h + rest),
            (Err(k), _) => Err(k),
            (_, Err(k)) => Err(k),
        }
    }
}

/// The fixed text that precedes the rendered statements: the include set and
/// the entry point's opening, with the argument-registration call.
pub open spec fn preamble() -> Seq<char> {
    "#include <stdio.h>\n#include <stdlib.h>\n#include <math.h>\n#include <string.h>\n#include <stdbool.h>\n#include <stdint.h>\n#include \"js.h\"\nint main(int argc, char** argv) {\n    process::setargs(argc, argv);\n"@
}

/// The fixed text that follows the rendered statements: the trailing success
/// return and the entry point's closing.
pub open spec fn epilogue() -> Seq<char> {
    "return 0;\n}\n\n"@
}

/// Target text of a whole program: preamble, top-level statements, epilogue;
/// or the name of the first unsupported construct.
pub open spec fn render_program(p: Seq<StmtView>) -> Result<Seq<char>, Seq<char>> {
    match render_stmts(p, Seq::empty()) {
        Ok(t) => Ok(preamble() + t + epilogue()),
        Err(k) => Err(k),
    }
}

fn op_str(op: BinOp) -> (r: &'static str)
    ensures
        r@ == bin_op_text(op),
{
    match op {
        BinOp::Equality => "==",
        BinOp::Inequality => "!=",
        BinOp::LessThan => "<",
        BinOp::LessEqualThan => "<=",
        BinOp::GreaterThan => ">",
        BinOp::GreaterEqualThan => ">=",
        BinOp::In => "in",
        BinOp::Instanceof => "instanceof",
        BinOp::ShiftLeft => "<<",
        BinOp::ShiftRight => ">>",
        BinOp::ShiftRightZeroFill => ">>>",
        BinOp::Addition => "+",
        BinOp::Subtraction => "-",
        BinOp::Multiplication => "*",
        BinOp::Division => "/",
        BinOp::Remainder => "%",
        BinOp::BitwiseAnd => "&",
        BinOp::BitwiseOr => "|",
        BinOp::BitwiseXor => "^",
        BinOp::StrictEquality => "==",
        BinOp::StrictInequality => "!=",
        BinOp::Exponential => "**",
    }
}

fn digit_str(d: u64) -> (r: &'static str)
    requires
        d < 10,
    ensures
        r@ == seq![digit_char(d as nat)],
{
    let r: &'static str = if d == 0 { "0" }
    else if d == 1 { "1" }
    else if d == 2 { "2" }
    else if d == 3 { "3" }
    else if d == 4 { "4" }
    else if d == 5 { "5" }
    else if d == 6 { "6" }
    else if d == 7 { "7" }
    else if d == 8 { "8" }
    else { "9" };
    proof {
        reveal_strlit("0");
        reveal_strlit("1");
        reveal_strlit("2");
        reveal_strlit("3");
        reveal_strlit("4");
        reveal_strlit("5");
        reveal_strlit("6");
        reveal_strlit("7");
        reveal_strlit("8");
        reveal_strlit("9");
        assert(r@ =~= seq![digit_char(d as nat)]);
    }
    r
}

/// Appends the decimal text of `n`.
fn emit_num(n: u64, out: &mut String)
    ensures
        final(out)@ == old(out)@ + dec_rep(n as nat),
    decreases n,
{
    if n < 10 {
        out.append(digit_str(n));
    } else {
        emit_num(n / 10, out);
        out.append(digit_str(n % 10));
        proof {
            assert(final(out)@ =~= old(out)@ + dec_rep(n as nat));
        }
    }
}

/// Appends the text of an assignment's target; a simple identifier or an
/// indexed element, every other shape is unsupported.
fn emit_assign_target(t: &Expr, out: &mut String) -> (r: Result<(), GenError>)
    ensures
        match (r, render_assign_target(t@)) {
            (Ok(_), Ok(txt)) => final(out)@ == old(out)@ + txt,
            (Err(err), Err(k)) => err@ == k,
            _ => false,
        },
    decreases *t, 1nat,
{
    match t {
        Expr::Ident { name } => {
            out.append(name.as_str());
            Ok(())
        },
        Expr::Member { object, index } => {
            match emit_expr(&**object, out) {
                Ok(_) => {},
                Err(err) => {
                    return Err(err);
                },
            }
            out.append("[");
            match emit_expr(&**index, out) {
                Ok(_) => {},
                Err(err) => {
                    return Err(err);
                },
            }
            out.append("]");
            proof {
                assert(final(out)@ =~= old(out)@ + render_assign_target(t@)->Ok_0);
            }
            Ok(())
        },
        _ => Err(GenError { construct: "assignment target".to_owned() }),
    }
}

/// Appends the text of one expression, or reports the first unsupported
/// construct found in it.
fn emit_expr(e: &Expr, out: &mut String) -> (r: Result<(), GenError>)
    ensures
        match (r, render_expr(e@)) {
            (Ok(_), Ok(txt)) => final(out)@ == old(out)@ + txt,
            (Err(err), Err(k)) => err@ == k,
            _ => false,
        },
    decreases *e, 2nat,
{
    match e {
        Expr::Num { value } => {
            emit_num(*value, out);
            Ok(())
        },
        Expr::Ident { name } => {
            out.append(name.as_str());
            Ok(())
        },
        Expr::Binary { op, left, right } => {
            out.append("(");
            match emit_expr(&**left, out) {
                Ok(_) => {},
                Err(err) => {
                    return Err(err);
                },
            }
            out.append(op_str(*op));
            match emit_expr(&**right, out) {
                Ok(_) => {},
                Err(err) => {
                    return Err(err);
                },
            }
            out.append(")");
            proof {
                assert(final(out)@ =~= old(out)@ + render_expr(e@)->Ok_0);
            }
            Ok(())
        },
        Expr::Assign { op, target, value } => {
            match emit_assign_target(&**target, out) {
                Ok(_) => {},
                Err(err) => {
                    return Err(err);
                },
            }
            match op {
                AssignOp::Assign => out.append(" = "),
                AssignOp::AddAssign => out.append(" += "),
                AssignOp::Other => {
                    return Err(GenError { construct: "assignment operator".to_owned() });
                },
            }
            match emit_expr(&**value, out) {
                Ok(_) => {},
                Err(err) => {
                    return Err(err);
                },
            }
            proof {
                assert(final(out)@ =~= old(out)@ + render_expr(e@)->Ok_0);
            }
            Ok(())
        },
        Expr::Member { object, index } => {
            match emit_expr(&**object, out) {
                Ok(_) => {},
                Err(err) => {
                    return Err(err);
                },
            }
            out.append("[");
            match emit_expr(&**index, out) {
                Ok(_) => {},
                Err(err) => {
                    return Err(err);
                },
            }
            out.append("]");
            proof {
                assert(final(out)@ =~= old(out)@ + render_expr(e@)->Ok_0);
            }
            Ok(())
        },
        Expr::StaticMember { object, property } => {
            match emit_expr(&**object, out) {
                Ok(_) => {},
                Err(err) => {
                    return Err(err);
                },
            }
            out.append("::");
            out.append(property.as_str());
            proof {
                assert(final(out)@ =~= old(out)@ + render_expr(e@)->Ok_0);
            }
            Ok(())
        },
        Expr::Call { callee, args } => {
            match emit_expr(&**callee, out) {
                Ok(_) => {},
                Err(err) => {
                    return Err(err);
                },
            }
            out.append("(");
            proof {
                vstd::std_specs::vec::axiom_vec_decreases_to_view::<Expr>(*args);
            }
            match emit_args(args.as_slice(), true, out) {
                Ok(_) => {},
                Err(err) => {
                    return Err(err);
                },
            }
            out.append(")");
            proof {
                assert(final(out)@ =~= old(out)@ + render_expr(e@)->Ok_0);
            }
            Ok(())
        },
        Expr::New { callee, args } => {
            out.append("js_constructor_");
            match emit_expr(&**callee, out) {
                Ok(_) => {},
                Err(err) => {
                    return Err(err);
                },
            }
            out.append("(");
            proof {
                vstd::std_specs::vec::axiom_vec_decreases_to_view::<Expr>(*args);
            }
            match emit_args(args.as_slice(), true, out) {
                Ok(_) => {},
                Err(err) => {
                    return Err(err);
                },
            }
            out.append(")");
            proof {
                assert(final(out)@ =~= old(out)@ + render_expr(e@)->Ok_0);
            }
            Ok(())
        },
        Expr::Update { op, prefix, target } => {
            match &**target {
                Expr::Ident { name } => {
                    if *op == UpdateOp::Increment && !*prefix {
                        out.append(name.as_str());
                        out.append("++");
                        proof {
                            assert(crate::ast::expr_view(**target) == ExprView::Ident {
                                name: name@,
                            });
                            assert(final(out)@ =~= old(out)@ + render_expr(e@)->Ok_0);
                        }
                        Ok(())
                    } else {
                        proof {
                            assert(crate::ast::expr_view(**target) == ExprView::Ident {
                                name: name@,
                            });
                        }
                        Err(GenError { construct: "update operator".to_owned() })
                    }
                },
                _ => {
                    proof {
                        assert(!(crate::ast::expr_view(**target) matches ExprView::Ident { .. }));
                    }
                    Err(GenError { construct: "update target".to_owned() })
                },
            }
        },
        Expr::Unsupported { kind } => Err(GenError { construct: kind.clone() }),
    }
}

/// Appends a comma-separated argument list; `first` says whether the next
/// argument is the list's first (no separator before it).
fn emit_args(s: &[Expr], first: bool, out: &mut String) -> (r: Result<(), GenError>)
    ensures
        match (
            r,
            if first {
                render_args(crate::ast::exprs_view(s@))
            } else {
                render_args_rest(crate::ast::exprs_view(s@))
            },
        ) {
            (Ok(_), Ok(txt)) => final(out)@ == old(out)@ + txt,
            (Err(err), Err(k)) => err@ == k,
            _ => false,
        },
    decreases s@, 1nat,
{
    let ghost vs = crate::ast::exprs_view(s@);
    if s.len() == 0 {
        proof {
            assert(old(out)@ + Seq::<char>::empty() =~= old(out)@);
        }
        Ok(())
    } else {
        if !first {
            out.append(", ");
        }
        let head = vstd::slice::slice_index_get(s, 0);
        proof {
            vstd::seq::axiom_seq_index_decreases(s@, 0);
        }
        match emit_expr(head, out) {
            Ok(_) => {},
            Err(err) => {
                proof {
                    assert(vs[0] == crate::ast::expr_view(s@[0]));
                }
                return Err(err);
            },
        }
        let rest = vstd::slice::slice_subrange(s, 1, s.len());
        let res = emit_args(rest, false, out);
        proof {
            assert(s@.drop_first() =~= rest@);
            assert(vs[0] == crate::ast::expr_view(s@[0]));
            assert(vs.drop_first() =~= crate::ast::exprs_view(rest@));
        }
        match res {
            Ok(_) => {
                proof {
                    assert(final(out)@ =~= old(out)@ + (if first {
                        render_args(vs)
                    } else {
                        render_args_rest(vs)
                    })->Ok_0);
                }
                Ok(())
            },
            Err(err) => Err(err),
        }
    }
}

/// Appends the text of a plain variable declaration's declarators.
fn emit_decls(s: &[Declarator], out: &mut String) -> (r: Result<(), GenError>)
    ensures
        match (r, render_decls(crate::ast::decls_view(s@))) {
            (Ok(_), Ok(txt)) => final(out)@ == old(out)@ + txt,
            (Err(err), Err(k)) => err@ == k,
            _ => false,
        },
    decreases s@,
{
    let ghost vs = crate::ast::decls_view(s@);
    if s.len() == 0 {
        proof {
            assert(old(out)@ + Seq::<char>::empty() =~= old(out)@);
        }
        Ok(())
    } else {
        let head = vstd::slice::slice_index_get(s, 0);
        out.append("auto ");
        out.append(head.name.as_str());
        match &head.init {
            Some(init) => {
                out.append(" = ");
                proof {
                    vstd::seq::axiom_seq_index_decreases(s@, 0);
                }
                match emit_expr(init, out) {
                    Ok(_) => {},
                    Err(err) => {
                        proof {
                            assert(vs[0] == crate::ast::decl_view(s@[0]));
                        }
                        return Err(err);
                    },
                }
            },
            None => {},
        }
        out.append(";\n");
        let rest = vstd::slice::slice_subrange(s, 1, s.len());
        let res = emit_decls(rest, out);
        proof {
            assert(s@.drop_first() =~= rest@);
            assert(vs[0] == crate::ast::decl_view(s@[0]));
            assert(vs.drop_first() =~= crate::ast::decls_view(rest@));
        }
        match res {
            Ok(_) => {
                proof {
                    assert(final(out)@ =~= old(out)@ + render_decls(vs)->Ok_0);
                }
                Ok(())
            },
            Err(err) => Err(err),
        }
    }
}

/// Appends the text of a loop initializer's declarators, each indented; a
/// declarator without an initializer is unsupported here.
fn emit_for_decls(s: &[Declarator], ind: &str, out: &mut String) -> (r: Result<(), GenError>)
    ensures
        match (r, render_for_decls(crate::ast::decls_view(s@), ind@)) {
            (Ok(_), Ok(txt)) => final(out)@ == old(out)@ + txt,
            (Err(err), Err(k)) => err@ == k,
            _ => false,
        },
    decreases s@,
{
    let ghost vs = crate::ast::decls_view(s@);
    if s.len() == 0 {
        proof {
            assert(old(out)@ + Seq::<char>::empty() =~= old(out)@);
        }
        Ok(())
    } else {
        let head = vstd::slice::slice_index_get(s, 0);
        proof {
            assert(vs[0] == crate::ast::decl_view(s@[0]));
        }
        match &head.init {
            Some(init) => {
                out.append(ind);
                out.append("auto ");
                out.append(head.name.as_str());
                out.append(" = ");
                proof {
                    vstd::seq::axiom_seq_index_decreases(s@, 0);
                }
                match emit_expr(init, out) {
                    Ok(_) => {},
                    Err(err) => {
                        return Err(err);
                    },
                }
                out.append(";\n");
            },
            None => {
                return Err(GenError { construct: "loop declarator without initializer".to_owned() });
            },
        }
        let rest = vstd::slice::slice_subrange(s, 1, s.len());
        let res = emit_for_decls(rest, ind, out);
        proof {
            assert(s@.drop_first() =~= rest@);
            assert(vs.drop_first() =~= crate::ast::decls_view(rest@));
        }
        match res {
            Ok(_) => {
                proof {
                    assert(final(out)@ =~= old(out)@ + render_for_decls(vs, ind@)->Ok_0);
                }
                Ok(())
            },
            Err(err) => Err(err),
        }
    }
}

/// Appends the text of one statement at the given indentation.
#[verifier::rlimit(100)]
fn emit_stmt(s: &Stmt, ind: &str, out: &mut String) -> (r: Result<(), GenError>)
    ensures
        match (r, render_stmt(s@, ind@)) {
            (Ok(_), Ok(txt)) => final(out)@ == old(out)@ + txt,
            (Err(err), Err(k)) => err@ == k,
            _ => false,
        },
    decreases *s, 1nat,
{
    match s {
        Stmt::Block { body } => {
            let mut ind2 = ind.to_owned();
            ind2.append("    ");
            proof {
                vstd::std_specs::vec::axiom_vec_decreases_to_view::<Stmt>(*body);
            }
            emit_stmts(body.as_slice(), ind2.as_str(), out)
        },
        Stmt::Expr { expr } => {
            out.append(ind);
            match emit_expr(expr, out) {
                Ok(_) => {},
                Err(err) => {
                    return Err(err);
                },
            }
            out.append(";\n");
            proof {
                assert(final(out)@ =~= old(out)@ + render_stmt(s@, ind@)->Ok_0);
            }
            Ok(())
        },
        Stmt::If { test, consequent } => {
            out.append(ind);
            out.append("if (");
            match emit_expr(test, out) {
                Ok(_) => {},
                Err(err) => {
                    return Err(err);
                },
            }
            out.append(") {\n");
            let mut ind2 = ind.to_owned();
            ind2.append("    ");
            match emit_stmt(&**consequent, ind2.as_str(), out) {
                Ok(_) => {},
                Err(err) => {
                    return Err(err);
                },
            }
            out.append(ind);
            out.append("}\n");
            proof {
                assert(final(out)@ =~= old(out)@ + render_stmt(s@, ind@)->Ok_0);
            }
            Ok(())
        },
        Stmt::For { .. } => emit_for_stmt(s, ind, out),
        Stmt::VarDecl { decls } => {
            proof {
                vstd::std_specs::vec::axiom_vec_decreases_to_view::<Declarator>(*decls);
            }
            emit_decls(decls.as_slice(), out)
        },
        Stmt::Empty => {
            proof {
                assert(old(out)@ + Seq::<char>::empty() =~= old(out)@);
            }
            Ok(())
        },
        Stmt::Unsupported { kind } => Err(GenError { construct: kind.clone() }),
    }
}

/// Appends the desugared text of a loop statement: an explicitly scoped
/// block holding the declarations, the guarded loop, the body, and the
/// update as the loop's last statement.
#[verifier::rlimit(100)]
fn emit_for_stmt(s: &Stmt, ind: &str, out: &mut String) -> (r: Result<(), GenError>)
    requires
        s matches Stmt::For { .. },
    ensures
        match (r, render_stmt(s@, ind@)) {
            (Ok(_), Ok(txt)) => final(out)@ == old(out)@ + txt,
            (Err(err), Err(k)) => err@ == k,
            _ => false,
        },
    decreases *s, 0nat,
{
    match s {
        Stmt::For { init, test, update, body } => {
            out.append(ind);
            out.append("{\n");
            match init {
                Some(decls) => {
                    proof {
                        vstd::std_specs::vec::axiom_vec_decreases_to_view::<Declarator>(*decls);
                    }
                    match emit_for_decls(decls.as_slice(), ind, out) {
                        Ok(_) => {},
                        Err(err) => {
                            return Err(err);
                        },
                    }
                },
                None => {},
            }
            out.append(ind);
            out.append("while (");
            match test {
                Some(t) => {
                    match emit_expr(t, out) {
                        Ok(_) => {},
                        Err(err) => {
                            return Err(err);
                        },
                    }
                },
                None => {
                    out.append("true");
                },
            }
            out.append(") {\n");
            let mut ind2 = ind.to_owned();
            ind2.append("    ");
            match emit_stmt(&**body, ind2.as_str(), out) {
                Ok(_) => {},
                Err(err) => {
                    return Err(err);
                },
            }
            match update {
                Some(u) => {
                    match emit_expr(u, out) {
                        Ok(_) => {},
                        Err(err) => {
                            return Err(err);
                        },
                    }
                    out.append(";\n");
                },
                None => {},
            }
            out.append(ind);
            out.append("}\n");
            out.append(ind);
            out.append("}\n");
            proof {
                assert(final(out)@ =~= old(out)@ + render_stmt(s@, ind@)->Ok_0);
            }
            Ok(())
        },
        _ => vstd::pervasive::unreached(),
    }
}

/// Appends the text of a statement sequence, each statement at the given
/// indentation.
fn emit_stmts(s: &[Stmt], ind: &str, out: &mut String) -> (r: Result<(), GenError>)
    ensures
        match (r, render_stmts(crate::ast::stmts_view(s@), ind@)) {
            (Ok(_), Ok(txt)) => final(out)@ == old(out)@ + txt,
            (Err(err), Err(k)) => err@ == k,
            _ => false,
        },
    decreases s@, 0nat,
{
    let ghost vs = crate::ast::stmts_view(s@);
    if s.len() == 0 {
        proof {
            assert(old(out)@ + Seq::<char>::empty() =~= old(out)@);
        }
        Ok(())
    } else {
        let head = vstd::slice::slice_index_get(s, 0);
        proof {
            vstd::seq::axiom_seq_index_decreases(s@, 0);
            assert(vs[0] == crate::ast::stmt_view(s@[0]));
        }
        match emit_stmt(head, ind, out) {
            Ok(_) => {},
            Err(err) => {
                return Err(err);
            },
        }
        let rest = vstd::slice::slice_subrange(s, 1, s.len());
        let res = emit_stmts(rest, ind, out);
        proof {
            assert(s@.drop_first() =~= rest@);
            assert(vs.drop_first() =~= crate::ast::stmts_view(rest@));
        }
        match res {
            Ok(_) => {
                proof {
                    assert(final(out)@ =~= old(out)@ + render_stmts(vs, ind@)->Ok_0);
                }
                Ok(())
            },
            Err(err) => Err(err),
        }
    }
}

/// The code generator: renders an optimized program as target text.
pub struct Codegen {}

impl Codegen {
    /// A fresh generator.
    pub fn new() -> (c: Codegen) {
        Codegen {  }
    }

    /// Renders a whole program: fixed preamble, the top-level statements, the
    /// trailing success return. Fails, with the name of the offending
    /// construct, exactly when the program holds an unsupported construct.
    pub fn print_program(&self, program: &Program) -> (r: Result<String, GenError>)
        ensures
            match (r, render_program(program@)) {
                (Ok(text), Ok(t)) => text@ == t,
                (Err(err), Err(k)) => err@ == k,
                _ => false,
            },
    {
        let mut out = String::new();
        out.append(
            "#include <stdio.h>\n#include <stdlib.h>\n#include <math.h>\n#include <string.h>\n#include <stdbool.h>\n#include <stdint.h>\n#include \"js.h\"\nint main(int argc, char** argv) {\n    process::setargs(argc, argv);\n",
        );
        let empty_ind = String::new();
        match emit_stmts(program.body.as_slice(), empty_ind.as_str(), &mut out) {
            Ok(_) => {
                out.append("return 0;\n}\n\n");
                proof {
                    assert(out@ =~= render_program(program@)->Ok_0);
                }
                Ok(out)
            },
            Err(err) => Err(err),
        }
    }
}

} // verus!
