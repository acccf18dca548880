use vstd::prelude::*;

use crate::ast::{
    clone_decls, clone_expr, decls_view, exprs_view, get_ident, ident_name, lemma_decls_view_len,
    opt_name_view, stmts_view, BinOp, Declarator, DeclView, Expr, ExprView, Program, Stmt,
    StmtView,
};

verus! {

/// One candidate of the slotted-array idiom: an array read once by a loop's
/// own induction variable and once by a separately maintained boundary
/// index. A conflicting second use invalidates it permanently.
pub struct SlottedReadCandidate {
    pub array: String,
    pub loop_index: String,
    pub read_index: Option<String>,
    pub valid: bool,
}

/// Mathematical model of a candidate.
pub struct CandView {
    pub array: Seq<char>,
    pub loop_index: Seq<char>,
    pub read_index: Option<Seq<char>>,
    pub valid: bool,
}

impl View for SlottedReadCandidate {
    type V = CandView;

    open spec fn view(&self) -> CandView {
        CandView {
            array: self.array@,
            loop_index: self.loop_index@,
            read_index: opt_name_view(self.read_index),
            valid: self.valid,
        }
    }
}

/// Model of a candidate list.
pub open spec fn cands_view(s: Seq<SlottedReadCandidate>) -> Seq<CandView> {
    s.map_values(|c: SlottedReadCandidate| c@)
}

/// One observed indexed use of an array: `array[index]`, with `index`
/// classified against the stack of active loop induction variables at the
/// use's site.
pub struct Obs {
    pub array: String,
    pub index: String,
    pub loop_indexed: bool,
}

/// Mathematical model of an observation.
pub struct ObsView {
    pub array: Seq<char>,
    pub index: Seq<char>,
    pub loop_indexed: bool,
}

impl View for Obs {
    type V = ObsView;

    open spec fn view(&self) -> ObsView {
        ObsView { array: self.array@, index: self.index@, loop_indexed: self.loop_indexed }
    }
}

/// Model of an observation list.
pub open spec fn obs_seq_view(s: Seq<Obs>) -> Seq<ObsView> {
    s.map_values(|o: Obs| o@)
}

/// Model of a stack of names.
pub open spec fn names_view(s: Seq<String>) -> Seq<Seq<char>> {
    s.map_values(|n: String| n@)
}

/// The loop's induction variable, for this pass: its initializer must
/// declare exactly one simple identifier.
pub open spec fn slotted_induction_var(init: Option<Seq<DeclView>>) -> Option<Seq<char>> {
    match init {
        Some(ds) => if ds.len() == 1 {
            Some(ds[0].name)
        } else {
            None
        },
        None => None,
    }
}

/// The indexed uses inside one expression, in preorder: every `a[x]` with
/// both sides simple identifiers, classified against the active loop stack.
pub open spec fn obs_expr(e: ExprView, stack: Seq<Seq<char>>) -> Seq<ObsView>
    decreases e, 1nat,
{
    match e {
        ExprView::Binary { op: _, left, right } => obs_expr(*left, stack) + obs_expr(
            *right,
            stack,
        ),
        ExprView::Assign { op: _, target, value } => obs_expr(*target, stack) + obs_expr(
            *value,
            stack,
        ),
        ExprView::Member { object, index } => {
            let own = if ident_name(*object) is Some && ident_name(*index) is Some {
                seq![
                    ObsView {
                        array: ident_name(*object)->Some_0,
                        index: ident_name(*index)->Some_0,
                        loop_indexed: stack.contains(ident_name(*index)->Some_0),
                    },
                ]
            } else {
                Seq::empty()
            };
            own + obs_expr(*object, stack) + obs_expr(*index, stack)
        },
        ExprView::StaticMember { object, property: _ } => obs_expr(*object, stack),
        ExprView::Call { callee, args } => obs_expr(*callee, stack) + obs_exprs(args, stack),
        ExprView::New { callee, args } => obs_expr(*callee, stack) + obs_exprs(args, stack),
        ExprView::Update { op: _, prefix: _, target } => obs_expr(*target, stack),
        _ => Seq::empty(),
    }
}

/// The indexed uses inside a sequence of expressions.
pub open spec fn obs_exprs(s: Seq<ExprView>, stack: Seq<Seq<char>>) -> Seq<ObsView>
    decreases s, 0nat,
{
    if s.len() == 0 {
        Seq::empty()
    } else {
        obs_expr(s[0], stack) + obs_exprs(s.drop_first(), stack)
    }
}

/// The indexed uses inside a sequence of declarators' initializers.
pub open spec fn obs_decls(s: Seq<DeclView>, stack: Seq<Seq<char>>) -> Seq<ObsView>
    decreases s, 0nat,
{
    if s.len() == 0 {
        Seq::empty()
    } else {
        (match s[0].init {
            Some(e) => obs_expr(e, stack),
            None => Seq::empty(),
        }) + obs_decls(s.drop_first(), stack)
    }
}

/// The indexed uses inside one statement. Entering a loop that declares an
/// induction variable pushes that name for the loop's whole extent,
/// initializer included.
pub open spec fn obs_stmt(s: StmtView, stack: Seq<Seq<char>>) -> Seq<ObsView>
    decreases s, 1nat,
{
    match s {
        StmtView::Block { body } => obs_stmts(body, stack),
        StmtView::Expr { expr } => obs_expr(expr, stack),
        StmtView::If { test, consequent } => obs_expr(test, stack) + obs_stmt(*consequent, stack),
        StmtView::For { init, test, update, body } => {
            let stack2 = match slotted_induction_var(init) {
                Some(v) => stack.push(v),
                None => stack,
            };
            (match init {
                Some(ds) => obs_decls(ds, stack2),
                None => Seq::empty(),
            }) + (match test {
                Some(t) => obs_expr(t, stack2),
                None => Seq::empty(),
            }) + (match update {
                Some(u) => obs_expr(u, stack2),
                None => Seq::empty(),
            }) + obs_stmt(*body, stack2)
        },
        StmtView::VarDecl { decls } => obs_decls(decls, stack),
        _ => Seq::empty(),
    }
}

/// The indexed uses inside a statement sequence.
pub open spec fn obs_stmts(s: Seq<StmtView>, stack: Seq<Seq<char>>) -> Seq<ObsView>
    decreases s, 0nat,
{
    if s.len() == 0 {
        Seq::empty()
    } else {
        obs_stmt(s[0], stack) + obs_stmts(s.drop_first(), stack)
    }
}

/// How one observation changes one candidate of its own array.
pub open spec fn update_cand(c: CandView, o: ObsView) -> CandView {
    if o.loop_indexed {
        if c.loop_index != o.index {
            CandView { valid: false, ..c }
        } else {
            c
        }
    } else {
        match c.read_index {
            None => CandView { read_index: Some(o.index), ..c },
            Some(ri) => if ri != o.index {
                CandView { valid: false, ..c }
            } else {
                c
            },
        }
    }
}

/// How one observation changes the candidate list: the first candidate of
/// the observed array is updated; a loop-indexed use of an array without a
/// candidate creates one at the end; a boundary use of an array without a
/// candidate is ignored.
pub open spec fn cands_step(cands: Seq<CandView>, o: ObsView) -> Seq<CandView>
    decreases cands,
{
    if cands.len() == 0 {
        if o.loop_indexed {
            seq![
                CandView { array: o.array, loop_index: o.index, read_index: None, valid: true },
            ]
        } else {
            Seq::empty()
        }
    } else if cands[0].array == o.array {
        seq![update_cand(cands[0], o)] + cands.drop_first()
    } else {
        seq![cands[0]] + cands_step(cands.drop_first(), o)
    }
}

/// The candidate list after a whole observation sequence.
pub open spec fn cands_fold(cands: Seq<CandView>, os: Seq<ObsView>) -> Seq<CandView>
    decreases os,
{
    if os.len() == 0 {
        cands
    } else {
        cands_fold(cands_step(cands, os[0]), os.drop_first())
    }
}

/// The candidates the rewrite acts on: valid, with both indices populated.
pub open spec fn retained_cands(s: Seq<CandView>) -> Seq<CandView>
    decreases s,
{
    if s.len() == 0 {
        Seq::empty()
    } else {
        (if s[0].valid && s[0].read_index is Some {
            seq![s[0]]
        } else {
            Seq::empty()
        }) + retained_cands(s.drop_first())
    }
}

/// The first retained candidate whose loop index is the given name.
pub open spec fn cand_for_loop(s: Seq<CandView>, v: Seq<char>) -> Option<CandView>
    decreases s,
{
    if s.len() == 0 {
        None
    } else if s[0].loop_index == v {
        Some(s[0])
    } else {
        cand_for_loop(s.drop_first(), v)
    }
}

/// The rewrite on one statement: a loop whose induction variable matches a
/// retained candidate starts at the boundary variable instead of its old
/// initializer and runs while the induction variable differs from the
/// boundary. Update and body stay untouched; nested loops are visited too.
pub open spec fn slotted_rewrite_stmt(s: StmtView, t: Seq<CandView>) -> StmtView
    decreases s, 1nat,
{
    match s {
        StmtView::Block { body } => StmtView::Block { body: slotted_rewrite_stmts(body, t) },
        StmtView::If { test, consequent } => StmtView::If {
            test,
            consequent: Box::new(slotted_rewrite_stmt(*consequent, t)),
        },
        StmtView::For { init, test, update, body } => {
            let new_body = Box::new(slotted_rewrite_stmt(*body, t));
            match slotted_induction_var(init) {
                Some(v) => match cand_for_loop(t, v) {
                    Some(c) => match c.read_index {
                        Some(ri) => StmtView::For {
                            init: Some(
                                init->Some_0.update(
                                    0,
                                    DeclView {
                                        name: init->Some_0[0].name,
                                        init: Some(ExprView::Ident { name: ri }),
                                    },
                                ),
                            ),
                            test: Some(
                                ExprView::Binary {
                                    op: BinOp::Inequality,
                                    left: Box::new(ExprView::Ident { name: v }),
                                    right: Box::new(ExprView::Ident { name: ri }),
                                },
                            ),
                            update,
                            body: new_body,
                        },
                        None => StmtView::For { init, test, update, body: new_body },
                    },
                    None => StmtView::For { init, test, update, body: new_body },
                },
                None => StmtView::For { init, test, update, body: new_body },
            }
        },
        _ => s,
    }
}

/// The rewrite on a statement sequence.
pub open spec fn slotted_rewrite_stmts(s: Seq<StmtView>, t: Seq<CandView>) -> Seq<StmtView>
    decreases s, 0nat,
{
    if s.len() == 0 {
        Seq::empty()
    } else {
        seq![slotted_rewrite_stmt(s[0], t)] + slotted_rewrite_stmts(s.drop_first(), t)
    }
}

/// The whole pass: scan the program for indexed uses, fold them into
/// candidates, keep the unambiguous ones, and rewrite the matching loops.
pub open spec fn slotted_pass(p: Seq<StmtView>) -> Seq<StmtView> {
    slotted_rewrite_stmts(
        p,
        retained_cands(cands_fold(Seq::empty(), obs_stmts(p, Seq::empty()))),
    )
}

fn stack_contains(stack: &Vec<String>, name: &String) -> (r: bool)
    ensures
        r == names_view(stack@).contains(name@),
{
    let ghost sv = names_view(stack@);
    let mut i: usize = 0;
    while i < stack.len()
        invariant
            0 <= i <= stack.len(),
            sv == names_view(stack@),
            sv.len() == stack@.len(),
            forall|k: int| 0 <= k < i ==> sv[k] != name@,
        decreases stack.len() - i,
    {
        if stack[i] == *name {
            proof {
                assert(sv[i as int] == name@);
            }
            return true;
        }
        proof {
            assert(sv[i as int] == stack@[i as int]@);
        }
        i = i + 1;
    }
    proof {
        assert(!sv.contains(name@)) by {
            if sv.contains(name@) {
                let k = choose|k: int| 0 <= k < sv.len() && sv[k] == name@;
                assert(sv[k] != name@);
            }
        }
    }
    false
}

fn scan_expr(e: &Expr, stack: &Vec<String>, out: &mut Vec<Obs>)
    ensures
        obs_seq_view(final(out)@) == obs_seq_view(old(out)@) + obs_expr(e@, names_view(stack@)),
    decreases *e, 1nat,
{
    let ghost st = names_view(stack@);
    match e {
        Expr::Binary { op: _, left, right } => {
            scan_expr(&**left, stack, out);
            scan_expr(&**right, stack, out);
            proof {
                assert(obs_seq_view(out@) =~= obs_seq_view(old(out)@) + obs_expr(e@, st));
            }
        },
        Expr::Assign { op: _, target, value } => {
            scan_expr(&**target, stack, out);
            scan_expr(&**value, stack, out);
            proof {
                assert(obs_seq_view(out@) =~= obs_seq_view(old(out)@) + obs_expr(e@, st));
            }
        },
        Expr::Member { object, index } => {
            let mut own_pushed = false;
            if let Some(a) = get_ident(&**object) {
                if let Some(x) = get_ident(&**index) {
                    let li = stack_contains(stack, x);
                    let ghost before = out@;
                    out.push(Obs { array: a.clone(), index: x.clone(), loop_indexed: li });
                    own_pushed = true;
                    proof {
                        assert(obs_seq_view(out@) =~= obs_seq_view(before) + obs_expr(e@, st)
                            .take(1));
                    }
                }
            }
            let ghost mid = out@;
            scan_expr(&**object, stack, out);
            scan_expr(&**index, stack, out);
            proof {
                if !own_pushed {
                    assert(mid == old(out)@);
                }
                assert(obs_seq_view(out@) =~= obs_seq_view(old(out)@) + obs_expr(e@, st));
            }
        },
        Expr::StaticMember { object, property: _ } => {
            scan_expr(&**object, stack, out);
        },
        Expr::Call { callee, args } => {
            scan_expr(&**callee, stack, out);
            proof {
                vstd::std_specs::vec::axiom_vec_decreases_to_view::<Expr>(*args);
            }
            scan_exprs(args.as_slice(), stack, out);
            proof {
                assert(obs_seq_view(out@) =~= obs_seq_view(old(out)@) + obs_expr(e@, st));
            }
        },
        Expr::New { callee, args } => {
            scan_expr(&**callee, stack, out);
            proof {
                vstd::std_specs::vec::axiom_vec_decreases_to_view::<Expr>(*args);
            }
            scan_exprs(args.as_slice(), stack, out);
            proof {
                assert(obs_seq_view(out@) =~= obs_seq_view(old(out)@) + obs_expr(e@, st));
            }
        },
        Expr::Update { op: _, prefix: _, target } => {
            scan_expr(&**target, stack, out);
        },
        _ => {
            proof {
                assert(obs_seq_view(out@) =~= obs_seq_view(old(out)@) + obs_expr(e@, st));
            }
        },
    }
}

fn scan_exprs(s: &[Expr], stack: &Vec<String>, out: &mut Vec<Obs>)
    ensures
        obs_seq_view(final(out)@) == obs_seq_view(old(out)@) + obs_exprs(
            exprs_view(s@),
            names_view(stack@),
        ),
    decreases s@, 0nat,
{
    let ghost vs = exprs_view(s@);
    let ghost st = names_view(stack@);
    if s.len() == 0 {
        proof {
            assert(obs_seq_view(out@) =~= obs_seq_view(out@) + obs_exprs(vs, st));
        }
    } else {
        scan_expr(vstd::slice::slice_index_get(s, 0), stack, out);
        proof {
            vstd::seq::axiom_seq_index_decreases(s@, 0);
            assert(vs[0] == crate::ast::expr_view(s@[0]));
        }
        let rest = vstd::slice::slice_subrange(s, 1, s.len());
        scan_exprs(rest, stack, out);
        proof {
            assert(s@.drop_first() =~= rest@);
            assert(vs.drop_first() =~= exprs_view(rest@));
            assert(obs_seq_view(out@) =~= obs_seq_view(old(out)@) + obs_exprs(vs, st));
        }
    }
}

fn scan_decls(s: &[Declarator], stack: &Vec<String>, out: &mut Vec<Obs>)
    ensures
        obs_seq_view(final(out)@) == obs_seq_view(old(out)@) + obs_decls(
            decls_view(s@),
            names_view(stack@),
        ),
    decreases s@, 0nat,
{
    let ghost vs = decls_view(s@);
    let ghost st = names_view(stack@);
    if s.len() == 0 {
        proof {
            assert(obs_seq_view(out@) =~= obs_seq_view(out@) + obs_decls(vs, st));
        }
    } else {
        let head = vstd::slice::slice_index_get(s, 0);
        proof {
            vstd::seq::axiom_seq_index_decreases(s@, 0);
            assert(vs[0] == crate::ast::decl_view(s@[0]));
        }
        match &head.init {
            Some(e) => {
                scan_expr(e, stack, out);
            },
            None => {},
        }
        let rest = vstd::slice::slice_subrange(s, 1, s.len());
        scan_decls(rest, stack, out);
        proof {
            assert(s@.drop_first() =~= rest@);
            assert(vs.drop_first() =~= decls_view(rest@));
            assert(obs_seq_view(out@) =~= obs_seq_view(old(out)@) + obs_decls(vs, st));
        }
    }
}

#[verifier::rlimit(100)]
fn scan_stmt(s: &Stmt, stack: &mut Vec<String>, out: &mut Vec<Obs>)
    ensures
        final(stack)@ == old(stack)@,
        obs_seq_view(final(out)@) == obs_seq_view(old(out)@) + obs_stmt(
            s@,
            names_view(old(stack)@),
        ),
    decreases *s, 1nat,
{
    let ghost st = names_view(stack@);
    match s {
        Stmt::Block { body } => {
            proof {
                vstd::std_specs::vec::axiom_vec_decreases_to_view::<Stmt>(*body);
            }
            scan_stmts(body.as_slice(), stack, out);
        },
        Stmt::Expr { expr } => {
            scan_expr(expr, stack, out);
        },
        Stmt::If { test, consequent } => {
            scan_expr(test, stack, out);
            scan_stmt(&**consequent, stack, out);
            proof {
                assert(obs_seq_view(out@) =~= obs_seq_view(old(out)@) + obs_stmt(s@, st));
            }
        },
        Stmt::For { init, test, update, body } => {
            let mut pushed = false;
            if let Some(ds) = init {
                proof {
                    lemma_decls_view_len(ds@);
                }
                if ds.len() == 1 {
                    stack.push(ds[0].name.clone());
                    pushed = true;
                }
            }
            proof {
                if pushed {
                    assert(names_view(stack@) =~= st.push(
                        slotted_induction_var(stmt_init_view(s@))->Some_0,
                    ));
                } else {
                    assert(slotted_induction_var(stmt_init_view(s@)) is None);
                }
            }
            match init {
                Some(ds) => {
                    proof {
                        vstd::std_specs::vec::axiom_vec_decreases_to_view::<Declarator>(*ds);
                    }
                    scan_decls(ds.as_slice(), &*stack, out);
                },
                None => {},
            }
            match test {
                Some(t) => scan_expr(t, &*stack, out),
                None => {},
            }
            match update {
                Some(u) => scan_expr(u, &*stack, out),
                None => {},
            }
            scan_stmt(&**body, stack, out);
            if pushed {
                let _dropped = stack.pop();
            }
            proof {
                assert(stack@ =~= old(stack)@);
                assert(obs_seq_view(out@) =~= obs_seq_view(old(out)@) + obs_stmt(s@, st));
            }
        },
        Stmt::VarDecl { decls } => {
            proof {
                vstd::std_specs::vec::axiom_vec_decreases_to_view::<Declarator>(*decls);
            }
            scan_decls(decls.as_slice(), &*stack, out);
        },
        _ => {
            proof {
                assert(obs_seq_view(out@) =~= obs_seq_view(out@) + obs_stmt(s@, st));
            }
        },
    }
}

/// The initializer of a loop statement's model, where it is one.
pub open spec fn stmt_init_view(s: StmtView) -> Option<Seq<DeclView>> {
    match s {
        StmtView::For { init, .. } => init,
        _ => None,
    }
}

fn scan_stmts(s: &[Stmt], stack: &mut Vec<String>, out: &mut Vec<Obs>)
    ensures
        final(stack)@ == old(stack)@,
        obs_seq_view(final(out)@) == obs_seq_view(old(out)@) + obs_stmts(
            stmts_view(s@),
            names_view(old(stack)@),
        ),
    decreases s@, 0nat,
{
    let ghost vs = stmts_view(s@);
    let ghost st = names_view(stack@);
    if s.len() == 0 {
        proof {
            assert(obs_seq_view(out@) =~= obs_seq_view(out@) + obs_stmts(vs, st));
        }
    } else {
        scan_stmt(vstd::slice::slice_index_get(s, 0), stack, out);
        proof {
            vstd::seq::axiom_seq_index_decreases(s@, 0);
            assert(vs[0] == crate::ast::stmt_view(s@[0]));
        }
        let rest = vstd::slice::slice_subrange(s, 1, s.len());
        scan_stmts(rest, stack, out);
        proof {
            assert(s@.drop_first() =~= rest@);
            assert(vs.drop_first() =~= stmts_view(rest@));
            assert(obs_seq_view(out@) =~= obs_seq_view(old(out)@) + obs_stmts(vs, st));
        }
    }
}

fn clone_cand(c: &SlottedReadCandidate) -> (r: SlottedReadCandidate)
    ensures
        r@ == c@,
{
    SlottedReadCandidate {
        array: c.array.clone(),
        loop_index: c.loop_index.clone(),
        read_index: match &c.read_index {
            Some(ri) => Some(ri.clone()),
            None => None,
        },
        valid: c.valid,
    }
}

fn apply_obs(cands: &[SlottedReadCandidate], o: &Obs) -> (r: Vec<SlottedReadCandidate>)
    ensures
        cands_view(r@) == cands_step(cands_view(cands@), o@),
    decreases cands@,
{
    let ghost cv = cands_view(cands@);
    if cands.len() == 0 {
        let mut r: Vec<SlottedReadCandidate> = Vec::new();
        if o.loop_indexed {
            r.push(SlottedReadCandidate {
                array: o.array.clone(),
                loop_index: o.index.clone(),
                read_index: None,
                valid: true,
            });
        }
        proof {
            assert(cands_view(r@) =~= cands_step(cv, o@));
        }
        r
    } else {
        let head = vstd::slice::slice_index_get(cands, 0);
        proof {
            assert(cv[0] == cands@[0]@);
        }
        if head.array == o.array {
            let updated: SlottedReadCandidate = if o.loop_indexed {
                if head.loop_index != o.index {
                    SlottedReadCandidate { valid: false, ..clone_cand(head) }
                } else {
                    clone_cand(head)
                }
            } else {
                match &head.read_index {
                    None => SlottedReadCandidate {
                        read_index: Some(o.index.clone()),
                        ..clone_cand(head)
                    },
                    Some(ri) => {
                        if *ri != o.index {
                            SlottedReadCandidate { valid: false, ..clone_cand(head) }
                        } else {
                            clone_cand(head)
                        }
                    },
                }
            };
            proof {
                assert(updated@ == update_cand(cv[0], o@));
            }
            let rest = vstd::slice::slice_subrange(cands, 1, cands.len());
            let mut r: Vec<SlottedReadCandidate> = Vec::new();
            r.push(updated);
            let mut i: usize = 0;
            while i < rest.len()
                invariant
                    0 <= i <= rest@.len(),
                    r@.len() == i + 1,
                    r@[0]@ == update_cand(cv[0], o@),
                    forall|k: int| 0 <= k < i ==> r@[k + 1]@ == rest@[k]@,
                decreases rest@.len() - i,
            {
                r.push(clone_cand(vstd::slice::slice_index_get(rest, i)));
                i = i + 1;
            }
            proof {
                assert(cands@.drop_first() =~= rest@);
                assert(cv.drop_first() =~= cands_view(rest@));
                assert(cands_view(r@) =~= cands_step(cv, o@));
            }
            r
        } else {
            let rest = vstd::slice::slice_subrange(cands, 1, cands.len());
            let mut r = apply_obs(rest, o);
            let ghost tail = r@;
            r.insert(0, clone_cand(head));
            proof {
                assert(cands@.drop_first() =~= rest@);
                assert(cv.drop_first() =~= cands_view(rest@));
                assert(r@[0]@ == cv[0]);
                assert(r@.drop_first() =~= tail);
                assert(cands_view(r@) =~= cands_step(cv, o@));
            }
            r
        }
    }
}

fn fold_obs(cands: Vec<SlottedReadCandidate>, os: &Vec<Obs>) -> (r: Vec<SlottedReadCandidate>)
    ensures
        cands_view(r@) == cands_fold(cands_view(cands@), obs_seq_view(os@)),
{
    let ghost ov = obs_seq_view(os@);
    let ghost c0 = cands_view(cands@);
    proof {
        assert(ov.subrange(0, ov.len() as int) =~= ov);
    }
    let mut current = cands;
    let mut i: usize = 0;
    while i < os.len()
        invariant
            0 <= i <= os.len(),
            ov == obs_seq_view(os@),
            ov.len() == os@.len(),
            cands_fold(c0, ov) == cands_fold(
                cands_view(current@),
                ov.subrange(i as int, ov.len() as int),
            ),
        decreases os.len() - i,
    {
        let ghost sub = ov.subrange(i as int, ov.len() as int);
        proof {
            assert(sub[0] == ov[i as int]);
            assert(ov[i as int] == os@[i as int]@);
            assert(sub.drop_first() =~= ov.subrange(i as int + 1, ov.len() as int));
        }
        current = apply_obs(current.as_slice(), &os[i]);
        i = i + 1;
    }
    proof {
        assert(ov.subrange(i as int, ov.len() as int) =~= Seq::<ObsView>::empty());
    }
    current
}

fn retained_filter(s: &[SlottedReadCandidate]) -> (r: Vec<SlottedReadCandidate>)
    ensures
        cands_view(r@) == retained_cands(cands_view(s@)),
    decreases s@,
{
    let ghost cv = cands_view(s@);
    if s.len() == 0 {
        let r: Vec<SlottedReadCandidate> = Vec::new();
        proof {
            assert(cands_view(r@) =~= retained_cands(cv));
        }
        r
    } else {
        let head = vstd::slice::slice_index_get(s, 0);
        proof {
            assert(cv[0] == s@[0]@);
        }
        let keep = head.valid && head.read_index.is_some();
        let rest = vstd::slice::slice_subrange(s, 1, s.len());
        let mut r = retained_filter(rest);
        if keep {
            let ghost tail = r@;
            r.insert(0, clone_cand(head));
            proof {
                assert(r@[0]@ == cv[0]);
                assert(r@.drop_first() =~= tail);
            }
        }
        proof {
            assert(s@.drop_first() =~= rest@);
            assert(cv.drop_first() =~= cands_view(rest@));
            assert(cands_view(r@) =~= retained_cands(cv));
        }
        r
    }
}

fn cand_lookup(t: &Vec<SlottedReadCandidate>, v: &String) -> (r: Option<SlottedReadCandidate>)
    ensures
        match r {
            Some(c) => cand_for_loop(cands_view(t@), v@) == Some(c@),
            None => cand_for_loop(cands_view(t@), v@) is None,
        },
{
    let ghost tv = cands_view(t@);
    proof {
        assert(tv.subrange(0, tv.len() as int) =~= tv);
    }
    let mut i: usize = 0;
    while i < t.len()
        invariant
            0 <= i <= t.len(),
            tv == cands_view(t@),
            tv.len() == t@.len(),
            cand_for_loop(tv, v@) == cand_for_loop(
                tv.subrange(i as int, tv.len() as int),
                v@,
            ),
        decreases t.len() - i,
    {
        let entry = &t[i];
        proof {
            assert(tv[i as int] == t@[i as int]@);
            assert(tv.subrange(i as int, tv.len() as int)[0] == tv[i as int]);
        }
        if entry.loop_index == *v {
            return Some(clone_cand(entry));
        }
        proof {
            assert(tv.subrange(i as int, tv.len() as int).drop_first() =~= tv.subrange(
                i as int + 1,
                tv.len() as int,
            ));
        }
        i = i + 1;
    }
    proof {
        assert(tv.subrange(i as int, tv.len() as int) =~= Seq::<CandView>::empty());
    }
    None
}

fn rewrite_stmt(s: &Stmt, t: &Vec<SlottedReadCandidate>) -> (r: Stmt)
    ensures
        r@ == slotted_rewrite_stmt(s@, cands_view(t@)),
    decreases *s, 2nat,
{
    match s {
        Stmt::Block { body } => {
            proof {
                vstd::std_specs::vec::axiom_vec_decreases_to_view::<Stmt>(*body);
            }
            Stmt::Block { body: rewrite_stmts(body.as_slice(), t) }
        },
        Stmt::If { test, consequent } => Stmt::If {
            test: clone_expr(test),
            consequent: Box::new(rewrite_stmt(&**consequent, t)),
        },
        Stmt::For { .. } => rewrite_for_stmt(s, t),
        Stmt::Expr { expr } => Stmt::Expr { expr: clone_expr(expr) },
        Stmt::VarDecl { decls } => Stmt::VarDecl { decls: clone_decls(decls.as_slice()) },
        Stmt::Empty => Stmt::Empty,
        Stmt::Unsupported { kind } => Stmt::Unsupported { kind: kind.clone() },
    }
}

#[verifier::rlimit(100)]
fn rewrite_for_stmt(s: &Stmt, t: &Vec<SlottedReadCandidate>) -> (r: Stmt)
    requires
        s matches Stmt::For { .. },
    ensures
        r@ == slotted_rewrite_stmt(s@, cands_view(t@)),
    decreases *s, 1nat,
{
    match s {
        Stmt::For { init, test, update, body } => {
            let mut rinfo: Option<(String, String)> = None;
            let ghost tv = cands_view(t@);
            if let Some(ds) = init {
                proof {
                    lemma_decls_view_len(ds@);
                }
                if ds.len() == 1 {
                    if let Some(c) = cand_lookup(t, &ds[0].name) {
                        let ghost cv = c@;
                        if let Some(ri) = c.read_index {
                            proof {
                                assert(cand_for_loop(tv, ds@[0]@.name) == Some(cv));
                                assert(cv.read_index == Some(ri@));
                            }
                            rinfo = Some((ds[0].name.clone(), ri));
                        }
                    }
                }
            }
            let new_body = rewrite_stmt(&**body, t);
            match rinfo {
                Some((v, ri)) => {
                    proof {
                        assert(slotted_induction_var(stmt_init_view(s@)) == Some(v@));
                        assert(cand_for_loop(tv, v@) is Some);
                        assert(cand_for_loop(tv, v@)->Some_0.read_index == Some(ri@));
                    }
                    let mut new_init: Vec<Declarator> = Vec::new();
                    let d0 = Declarator {
                        name: v.clone(),
                        init: Some(Expr::Ident { name: ri.clone() }),
                    };
                    let ghost d0v = d0@;
                    new_init.push(d0);
                    proof {
                        reveal_with_fuel(crate::ast::expr_view, 2);
                        assert(d0v == DeclView {
                            name: v@,
                            init: Some(ExprView::Ident { name: ri@ }),
                        });
                        assert(decls_view(new_init@) =~= seq![d0v]) by {
                            lemma_decls_view_len(new_init@);
                        }
                        let ghost dsv = decls_view(init->Some_0@);
                        assert(dsv.len() == 1);
                        assert(dsv.update(0, d0v) =~= seq![d0v]);
                    }
                    let new_test = Expr::Binary {
                        op: BinOp::Inequality,
                        left: Box::new(Expr::Ident { name: v }),
                        right: Box::new(Expr::Ident { name: ri }),
                    };
                    proof {
                        reveal_with_fuel(crate::ast::expr_view, 3);
                        assert(crate::ast::expr_view(new_test) == ExprView::Binary {
                            op: BinOp::Inequality,
                            left: Box::new(ExprView::Ident { name: v@ }),
                            right: Box::new(ExprView::Ident { name: ri@ }),
                        });
                    }
                    let r = Stmt::For {
                        init: Some(new_init),
                        test: Some(new_test),
                        update: match update {
                            Some(u) => Some(clone_expr(u)),
                            None => None,
                        },
                        body: Box::new(new_body),
                    };
                    proof {
                        assert(r@ == slotted_rewrite_stmt(s@, cands_view(t@)));
                    }
                    r
                },
                None => Stmt::For {
                    init: match init {
                        Some(ds) => Some(clone_decls(ds.as_slice())),
                        None => None,
                    },
                    test: match test {
                        Some(tt) => Some(clone_expr(tt)),
                        None => None,
                    },
                    update: match update {
                        Some(u) => Some(clone_expr(u)),
                        None => None,
                    },
                    body: Box::new(new_body),
                },
            }
        },
        _ => vstd::pervasive::unreached(),
    }
}

fn rewrite_stmts(s: &[Stmt], t: &Vec<SlottedReadCandidate>) -> (r: Vec<Stmt>)
    ensures
        stmts_view(r@) == slotted_rewrite_stmts(stmts_view(s@), cands_view(t@)),
    decreases s@, 0nat,
{
    let ghost vs = stmts_view(s@);
    if s.len() == 0 {
        let r: Vec<Stmt> = Vec::new();
        proof {
            assert(stmts_view(r@) =~= slotted_rewrite_stmts(vs, cands_view(t@)));
        }
        r
    } else {
        let head = rewrite_stmt(vstd::slice::slice_index_get(s, 0), t);
        proof {
            vstd::seq::axiom_seq_index_decreases(s@, 0);
            assert(vs[0] == crate::ast::stmt_view(s@[0]));
        }
        let rest = vstd::slice::slice_subrange(s, 1, s.len());
        let mut r = rewrite_stmts(rest, t);
        let ghost tail = r@;
        r.insert(0, head);
        proof {
            assert(s@.drop_first() =~= rest@);
            assert(vs.drop_first() =~= stmts_view(rest@));
            assert(r@[0] == head);
            assert(r@.drop_first() =~= tail);
            assert(stmts_view(r@) =~= slotted_rewrite_stmts(vs, cands_view(t@)));
        }
        r
    }
}

/// Scans a program for indexed array uses and folds them into slotted-read
/// candidates, keeping a stack of the active loop induction variables.
pub struct FindSlottedRead {
    pub current_loop_vars: Vec<String>,
    pub candidates: Vec<SlottedReadCandidate>,
}

impl FindSlottedRead {
    /// A fresh scan with no active loops and no candidates.
    pub fn new() -> (f: FindSlottedRead)
        ensures
            f.current_loop_vars@.len() == 0,
            f.candidates@.len() == 0,
    {
        FindSlottedRead { current_loop_vars: Vec::new(), candidates: Vec::new() }
    }

    /// Scans a whole program, folding every observed use into the
    /// candidates in program order.
    pub fn visit_program(&mut self, program: &Program)
        ensures
            final(self).current_loop_vars@ == old(self).current_loop_vars@,
            cands_view(final(self).candidates@) == cands_fold(
                cands_view(old(self).candidates@),
                obs_stmts(program@, names_view(old(self).current_loop_vars@)),
            ),
    {
        let mut obs: Vec<Obs> = Vec::new();
        scan_stmts(program.body.as_slice(), &mut self.current_loop_vars, &mut obs);
        proof {
            assert(obs_seq_view(obs@) =~= obs_stmts(
                program@,
                names_view(self.current_loop_vars@),
            ));
        }
        let mut cands: Vec<SlottedReadCandidate> = Vec::new();
        core::mem::swap(&mut cands, &mut self.candidates);
        let folded = fold_obs(cands, &obs);
        self.candidates = folded;
    }
}

/// The slotted-array read optimization: loops that walk an array by their
/// own induction variable, while a second variable marks a dynamic
/// boundary, are rewritten to start at the boundary variable and run until
/// the induction variable reaches it again.
pub struct SlottedArrayReadOptimization {
    pub replacements: Vec<SlottedReadCandidate>,
}

impl SlottedArrayReadOptimization {
    /// A fresh pass with no retained candidates.
    pub fn new() -> (p: SlottedArrayReadOptimization)
        ensures
            p.replacements@.len() == 0,
    {
        SlottedArrayReadOptimization { replacements: Vec::new() }
    }

    /// Runs the whole pass over a program: scan, fold, keep the unambiguous
    /// candidates, rewrite the matching loops.
    pub fn visit_program(&mut self, program: &mut Program)
        ensures
            cands_view(final(self).replacements@) == retained_cands(
                cands_fold(Seq::empty(), obs_stmts(old(program)@, Seq::empty())),
            ),
            final(program)@ == slotted_pass(old(program)@),
    {
        let mut finder = FindSlottedRead::new();
        proof {
            assert(names_view(finder.current_loop_vars@) =~= Seq::<Seq<char>>::empty());
            assert(cands_view(finder.candidates@) =~= Seq::<CandView>::empty());
        }
        finder.visit_program(program);
        let kept = retained_filter(finder.candidates.as_slice());
        self.replacements = kept;
        let new_body = rewrite_stmts(program.body.as_slice(), &self.replacements);
        program.body = new_body;
    }
}

/// The first candidate of the given array.
pub open spec fn cand_of(s: Seq<CandView>, a: Seq<char>) -> Option<CandView>
    decreases s,
{
    if s.len() == 0 {
        None
    } else if s[0].array == a {
        Some(s[0])
    } else {
        cand_of(s.drop_first(), a)
    }
}

/// No two candidates cover the same array.
pub open spec fn no_dup_arrays(s: Seq<CandView>) -> bool {
    forall|j: int, k: int| 0 <= j < k < s.len() ==> s[j].array != s[k].array
}

/// Every boundary-indexed use of the array follows some earlier
/// loop-indexed use of it.
pub open spec fn reads_follow_writes(os: Seq<ObsView>, a: Seq<char>) -> bool {
    forall|k: int|
        0 <= k < os.len() && (#[trigger] os[k]).array == a && !os[k].loop_indexed ==> exists|j: int|
            0 <= j < k && (#[trigger] os[j]).array == a && os[j].loop_indexed
}

/// All loop-indexed uses of the array carry this index name.
pub open spec fn loop_uses_all(os: Seq<ObsView>, a: Seq<char>, idx: Seq<char>) -> bool {
    forall|k: int|
        0 <= k < os.len() && (#[trigger] os[k]).array == a && os[k].loop_indexed ==> os[k].index
            == idx
}

/// All boundary-indexed uses of the array carry this index name.
pub open spec fn read_uses_all(os: Seq<ObsView>, a: Seq<char>, idx: Seq<char>) -> bool {
    forall|k: int|
        0 <= k < os.len() && (#[trigger] os[k]).array == a && !os[k].loop_indexed ==> os[k].index
            == idx
}

/// No use of the array is loop-indexed.
pub open spec fn no_loop_uses(os: Seq<ObsView>, a: Seq<char>) -> bool {
    forall|k: int| 0 <= k < os.len() && (#[trigger] os[k]).array == a ==> !os[k].loop_indexed
}

/// No use of the array is boundary-indexed.
pub open spec fn no_read_uses(os: Seq<ObsView>, a: Seq<char>) -> bool {
    forall|k: int| 0 <= k < os.len() && (#[trigger] os[k]).array == a ==> os[k].loop_indexed
}

proof fn lemma_fold_push(c0: Seq<CandView>, os: Seq<ObsView>, o: ObsView)
    ensures
        cands_fold(c0, os.push(o)) == cands_step(cands_fold(c0, os), o),
    decreases os,
{
    reveal_with_fuel(cands_fold, 3);
    if os.len() == 0 {
        assert(os.push(o)[0] == o);
        assert(os.push(o).drop_first() =~= Seq::<ObsView>::empty());
    } else {
        assert(os.push(o)[0] == os[0]);
        assert(os.push(o).drop_first() =~= os.drop_first().push(o));
        lemma_fold_push(cands_step(c0, os[0]), os.drop_first(), o);
    }
}

proof fn lemma_step_other(s: Seq<CandView>, o: ObsView, a: Seq<char>)
    requires
        o.array != a,
    ensures
        cand_of(cands_step(s, o), a) == cand_of(s, a),
    decreases s,
{
    reveal_with_fuel(cand_of, 3);
    reveal_with_fuel(cands_step, 2);
    if s.len() == 0 {
    } else if s[0].array == o.array {
        let r = cands_step(s, o);
        assert(r[0] == update_cand(s[0], o));
        assert(r.drop_first() =~= s.drop_first());
    } else {
        lemma_step_other(s.drop_first(), o, a);
        let r = cands_step(s, o);
        assert(r[0] == s[0]);
        assert(r.drop_first() =~= cands_step(s.drop_first(), o));
    }
}

proof fn lemma_step_same_none(s: Seq<CandView>, o: ObsView)
    requires
        cand_of(s, o.array) is None,
    ensures
        cand_of(cands_step(s, o), o.array) == (if o.loop_indexed {
            Some(
                CandView {
                    array: o.array,
                    loop_index: o.index,
                    read_index: None,
                    valid: true,
                },
            )
        } else {
            None
        }),
        cands_step(s, o).len() == s.len() + (if o.loop_indexed {
            1int
        } else {
            0int
        }),
    decreases s,
{
    reveal_with_fuel(cand_of, 3);
    reveal_with_fuel(cands_step, 2);
    if s.len() == 0 {
    } else {
        lemma_step_same_none(s.drop_first(), o);
        let r = cands_step(s, o);
        assert(r[0] == s[0]);
        assert(r.drop_first() =~= cands_step(s.drop_first(), o));
    }
}

proof fn lemma_step_same_some(s: Seq<CandView>, o: ObsView, c: CandView)
    requires
        cand_of(s, o.array) == Some(c),
    ensures
        cand_of(cands_step(s, o), o.array) == Some(update_cand(c, o)),
        cands_step(s, o).len() == s.len(),
    decreases s,
{
    reveal_with_fuel(cand_of, 3);
    reveal_with_fuel(cands_step, 2);
    if s.len() == 0 {
    } else if s[0].array == o.array {
        let r = cands_step(s, o);
        assert(r[0] == update_cand(s[0], o));
    } else {
        lemma_step_same_some(s.drop_first(), o, c);
        let r = cands_step(s, o);
        assert(r[0] == s[0]);
        assert(r.drop_first() =~= cands_step(s.drop_first(), o));
    }
}

proof fn lemma_step_no_dup(s: Seq<CandView>, o: ObsView)
    requires
        no_dup_arrays(s),
    ensures
        no_dup_arrays(cands_step(s, o)),
        cands_step(s, o).len() >= s.len(),
        forall|j: int|
            0 <= j < s.len() ==> (#[trigger] cands_step(s, o)[j]).array == s[j].array,
    decreases s,
{
    let r = cands_step(s, o);
    if s.len() == 0 {
    } else if s[0].array == o.array {
        assert(r[0] == update_cand(s[0], o));
        assert(r.drop_first() =~= s.drop_first());
        assert(update_cand(s[0], o).array == s[0].array);
        assert forall|j: int| 0 <= j < s.len() implies (#[trigger] r[j]).array
            == s[j].array by {
            if j > 0 {
                assert(r[j] == s[j]);
            }
        }
    } else {
        assert(no_dup_arrays(s.drop_first())) by {
            assert forall|j: int, k: int|
                0 <= j < k < s.drop_first().len() implies (#[trigger] s.drop_first()[j]).array
                != (#[trigger] s.drop_first()[k]).array by {
                assert(s.drop_first()[j] == s[j + 1]);
                assert(s.drop_first()[k] == s[k + 1]);
            }
        }
        lemma_step_no_dup(s.drop_first(), o);
        assert(r[0] == s[0]);
        assert(r.drop_first() =~= cands_step(s.drop_first(), o));
        let rd = cands_step(s.drop_first(), o);
        assert forall|j: int, k: int| 0 <= j < k < r.len() implies (#[trigger] r[j]).array != (
        #[trigger] r[k]).array by {
            if j == 0 {
                assert(r[k] == rd[k - 1]);
                if k - 1 < s.drop_first().len() {
                    assert(rd[k - 1].array == s.drop_first()[k - 1].array);
                    assert(s.drop_first()[k - 1] == s[k]);
                } else {
                    lemma_new_cand_array(s.drop_first(), o, k - 1);
                }
            } else {
                assert(r[j] == rd[j - 1]);
                assert(r[k] == rd[k - 1]);
            }
        }
    }
}

proof fn lemma_new_cand_array(s: Seq<CandView>, o: ObsView, j: int)
    requires
        s.len() <= j < cands_step(s, o).len(),
    ensures
        cands_step(s, o)[j].array == o.array,
        cands_step(s, o).len() <= s.len() + 1,
    decreases s,
{
    reveal_with_fuel(cands_step, 2);
    if s.len() == 0 {
    } else if s[0].array == o.array {
        assert(cands_step(s, o).drop_first() =~= s.drop_first());
    } else {
        let r = cands_step(s, o);
        assert(r.drop_first() =~= cands_step(s.drop_first(), o));
        lemma_new_cand_array(s.drop_first(), o, j - 1);
        assert(r[j] == cands_step(s.drop_first(), o)[j - 1]);
    }
}

proof fn lemma_cand_of_none(s: Seq<CandView>, a: Seq<char>)
    ensures
        cand_of(s, a) is None <==> (forall|j: int|
            0 <= j < s.len() ==> (#[trigger] s[j]).array != a),
    decreases s,
{
    reveal_with_fuel(cand_of, 2);
    if s.len() > 0 {
        lemma_cand_of_none(s.drop_first(), a);
        if s[0].array != a {
            assert forall|j: int|
                (0 <= j < s.len() ==> (#[trigger] s[j]).array != a) == (1 <= j < s.len()
                    ==> s.drop_first()[j - 1].array != a) by {
                if 1 <= j < s.len() {
                    assert(s.drop_first()[j - 1] == s[j]);
                }
            }
        }
    }
}

proof fn lemma_fold_no_dup(os: Seq<ObsView>)
    ensures
        no_dup_arrays(cands_fold(Seq::empty(), os)),
    decreases os.len(),
{
    if os.len() == 0 {
    } else {
        let os0 = os.drop_last();
        let o = os.last();
        assert(os =~= os0.push(o));
        lemma_fold_no_dup(os0);
        lemma_fold_push(Seq::empty(), os0, o);
        lemma_step_no_dup(cands_fold(Seq::empty(), os0), o);
    }
}

/// What the analysis guarantees of its result, array by array, whenever the
/// array's boundary-indexed uses all follow some loop-indexed use: a
/// candidate that survives carries the one loop-index name of every
/// loop-indexed use, and, where its boundary index is set, the one name of
/// every boundary-indexed use. A conflicting second use leaves no surviving
/// candidate behind.
pub proof fn lemma_retained_candidate_sound(os: Seq<ObsView>, a: Seq<char>)
    requires
        reads_follow_writes(os, a),
    ensures
        cand_of(cands_fold(Seq::empty(), os), a) is None ==> no_loop_uses(os, a),
        cand_of(cands_fold(Seq::empty(), os), a) matches Some(c) ==> {
            &&& c.array == a
            &&& (c.valid ==> loop_uses_all(os, a, c.loop_index))
            &&& (c.valid && c.read_index is Some ==> read_uses_all(
                os,
                a,
                c.read_index->Some_0,
            ))
            &&& (c.valid && c.read_index is None ==> no_read_uses(os, a))
        },
    decreases os.len(),
{
    if os.len() == 0 {
    } else {
        let os0 = os.drop_last();
        let o = os.last();
        assert(os =~= os0.push(o));
        assert(reads_follow_writes(os0, a)) by {
            assert forall|k: int|
                0 <= k < os0.len() && (#[trigger] os0[k]).array == a
                    && !os0[k].loop_indexed implies exists|j: int|
                0 <= j < k && (#[trigger] os0[j]).array == a && os0[j].loop_indexed by {
                assert(os0[k] == os[k]);
                let j = choose|j: int|
                    0 <= j < k && (#[trigger] os[j]).array == a && os[j].loop_indexed;
                assert(os0[j] == os[j]);
            }
        }
        lemma_retained_candidate_sound(os0, a);
        let s0 = cands_fold(Seq::empty(), os0);
        let s1 = cands_fold(Seq::empty(), os);
        lemma_fold_push(Seq::empty(), os0, o);
        assert(s1 == cands_step(s0, o));
        if o.array != a {
            lemma_step_other(s0, o, a);
            assert(cand_of(s1, a) == cand_of(s0, a));
            assert forall|k: int|
                0 <= k < os.len() && (#[trigger] os[k]).array == a implies 0 <= k
                < os0.len() && os0[k] == os[k] by {}
        } else {
            match cand_of(s0, a) {
                None => {
                    lemma_step_same_none(s0, o);
                    if o.loop_indexed {
                        let c = CandView {
                            array: o.array,
                            loop_index: o.index,
                            read_index: None,
                            valid: true,
                        };
                        assert(cand_of(s1, a) == Some(c));
                        assert(loop_uses_all(os, a, c.loop_index)) by {
                            assert forall|k: int|
                                0 <= k < os.len() && (#[trigger] os[k]).array == a
                                    && os[k].loop_indexed implies os[k].index
                                == c.loop_index by {
                                if k < os0.len() {
                                    assert(os0[k] == os[k]);
                                    assert(!no_loop_uses(os0, a) ==> false);
                                }
                            }
                        }
                        assert(no_read_uses(os, a)) by {
                            assert forall|k: int|
                                0 <= k < os.len() && (#[trigger] os[k]).array
                                    == a implies os[k].loop_indexed by {
                                if !os[k].loop_indexed {
                                    let j = choose|j: int|
                                        0 <= j < k && (#[trigger] os[j]).array == a
                                            && os[j].loop_indexed;
                                    assert(os0[j] == os[j]);
                                }
                            }
                        }
                    } else {
                        assert(cand_of(s1, a) is None);
                        assert(no_loop_uses(os, a)) by {
                            assert forall|k: int|
                                0 <= k < os.len() && (#[trigger] os[k]).array
                                    == a implies !os[k].loop_indexed by {
                                if k < os0.len() {
                                    assert(os0[k] == os[k]);
                                }
                            }
                        }
                    }
                },
                Some(c0) => {
                    lemma_step_same_some(s0, o, c0);
                    let c = update_cand(c0, o);
                    assert(cand_of(s1, a) == Some(c));
                    if c.valid {
                        assert(c0.valid);
                        assert(loop_uses_all(os, a, c.loop_index)) by {
                            assert forall|k: int|
                                0 <= k < os.len() && (#[trigger] os[k]).array == a
                                    && os[k].loop_indexed implies os[k].index
                                == c.loop_index by {
                                if k < os0.len() {
                                    assert(os0[k] == os[k]);
                                }
                            }
                        }
                        if c.read_index is Some {
                            let ri = c.read_index->Some_0;
                            assert(read_uses_all(os, a, ri)) by {
                                assert forall|k: int|
                                    0 <= k < os.len() && (#[trigger] os[k]).array == a
                                        && !os[k].loop_indexed implies os[k].index == ri by {
                                    if k < os0.len() {
                                        assert(os0[k] == os[k]);
                                    }
                                }
                            }
                        } else {
                            assert(no_read_uses(os, a)) by {
                                assert forall|k: int|
                                    0 <= k < os.len() && (#[trigger] os[k]).array
                                        == a implies os[k].loop_indexed by {
                                    if k < os0.len() {
                                        assert(os0[k] == os[k]);
                                    }
                                }
                            }
                        }
                    }
                },
            }
        }
    }
}

proof fn lemma_retained_membership(s: Seq<CandView>, c: CandView)
    requires
        retained_cands(s).contains(c),
    ensures
        s.contains(c),
        c.valid,
        c.read_index is Some,
    decreases s,
{
    if s.len() == 0 {
    } else {
        let head = if s[0].valid && s[0].read_index is Some {
            seq![s[0]]
        } else {
            Seq::<CandView>::empty()
        };
        let i = choose|i: int| 0 <= i < retained_cands(s).len() && retained_cands(s)[i] == c;
        if i < head.len() {
            assert(c == s[0]);
        } else {
            assert(retained_cands(s)[i] == retained_cands(s.drop_first())[i - head.len()]);
            assert(retained_cands(s.drop_first()).contains(c));
            lemma_retained_membership(s.drop_first(), c);
            let j = choose|j: int|
                0 <= j < s.drop_first().len() && s.drop_first()[j] == c;
            assert(s[j + 1] == c);
        }
    }
}

proof fn lemma_no_dup_cand_of(s: Seq<CandView>, c: CandView)
    requires
        no_dup_arrays(s),
        s.contains(c),
    ensures
        cand_of(s, c.array) is Some,
        cand_of(s, c.array)->Some_0.array == c.array,
    decreases s,
{
    let i = choose|i: int| 0 <= i < s.len() && s[i] == c;
    if s[0].array == c.array {
    } else {
        assert(i > 0);
        assert(s.drop_first()[i - 1] == c);
        assert(no_dup_arrays(s.drop_first())) by {
            assert forall|j: int, k: int|
                0 <= j < k < s.drop_first().len() implies (#[trigger] s.drop_first()[j]).array
                != (#[trigger] s.drop_first()[k]).array by {
                assert(s.drop_first()[j] == s[j + 1]);
                assert(s.drop_first()[k] == s[k + 1]);
            }
        }
        lemma_no_dup_cand_of(s.drop_first(), c);
    }
}

/// Two boundary-indexed uses of one array under different names leave no
/// surviving candidate for that array, so none of its loops is rewritten on
/// its account.
pub proof fn lemma_conflicting_reads_suppress(
    os: Seq<ObsView>,
    a: Seq<char>,
    k1: int,
    k2: int,
)
    requires
        reads_follow_writes(os, a),
        0 <= k1 < os.len(),
        0 <= k2 < os.len(),
        os[k1].array == a,
        os[k2].array == a,
        !os[k1].loop_indexed,
        !os[k2].loop_indexed,
        os[k1].index != os[k2].index,
    ensures
        forall|c: CandView|
            retained_cands(cands_fold(Seq::empty(), os)).contains(c) ==> (#[trigger] c.array)
                != a,
{
    let s = cands_fold(Seq::empty(), os);
    lemma_fold_no_dup(os);
    lemma_retained_candidate_sound(os, a);
    assert forall|c: CandView|
        retained_cands(s).contains(c) implies (#[trigger] c.array) != a by {
        if c.array == a {
            lemma_retained_membership(s, c);
            lemma_no_dup_cand_of(s, c);
            let c0 = cand_of(s, a)->Some_0;
            assert(s.contains(c));
            let i = choose|i: int| 0 <= i < s.len() && s[i] == c;
            lemma_cand_of_first_index(s, a);
            let f = choose|f: int|
                0 <= f < s.len() && s[f] == cand_of(s, a)->Some_0 && s[f].array == a;
            // both indices cover array `a`, and arrays are unique, so the
            // retained candidate is the one the analysis characterizes
            assert(i == f);
            assert(c == c0);
            assert(c0.valid && c0.read_index is Some);
            assert(read_uses_all(os, a, c0.read_index->Some_0));
            assert(os[k1].index == c0.read_index->Some_0);
            assert(os[k2].index == c0.read_index->Some_0);
        }
    }
}

proof fn lemma_cand_of_first_index(s: Seq<CandView>, a: Seq<char>)
    requires
        cand_of(s, a) is Some,
    ensures
        exists|f: int|
            0 <= f < s.len() && s[f] == cand_of(s, a)->Some_0 && (#[trigger] s[f]).array == a,
    decreases s,
{
    if s.len() == 0 {
    } else if s[0].array == a {
        assert(s[0] == cand_of(s, a)->Some_0);
    } else {
        lemma_cand_of_first_index(s.drop_first(), a);
        let f = choose|f: int|
            0 <= f < s.drop_first().len() && s.drop_first()[f] == cand_of(s.drop_first(), a)
                ->Some_0 && (#[trigger] s.drop_first()[f]).array == a;
        assert(s[f + 1] == s.drop_first()[f]);
    }
}

/// A loop whose induction variable matches no retained candidate keeps its
/// initializer, test and update exactly; only its body is visited further.
pub proof fn lemma_unmatched_loop_untouched(s: StmtView, t: Seq<CandView>)
    requires
        s matches StmtView::For { .. },
        match slotted_induction_var(stmt_init_view(s)) {
            Some(v) => cand_for_loop(t, v) is None,
            None => true,
        },
    ensures
        match s {
            StmtView::For { init, test, update, body } => slotted_rewrite_stmt(s, t)
                == (StmtView::For {
                init,
                test,
                update,
                body: Box::new(slotted_rewrite_stmt(*body, t)),
            }),
            _ => true,
        },
{
}

} // verus!
