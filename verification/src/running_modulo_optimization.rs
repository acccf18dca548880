use vstd::prelude::*;

use crate::ast::{
    clone_decls, clone_expr, decls_view, exprs_view, get_ident, ident_name, lemma_decls_view_len,
    opt_name_view, stmts_view, AssignOp, BinOp, Declarator, DeclView, Expr, ExprView, Program,
    Stmt, StmtView, UpdateOp,
};

verus! {

/// One strength-reduction directive: occurrences of `num % den` are to be
/// replaced by a reference to the shadow variable.
pub struct ModEntry {
    pub num: String,
    pub den: String,
    pub shadow: String,
}

/// Mathematical model of a directive.
pub struct ModEntryView {
    pub num: Seq<char>,
    pub den: Seq<char>,
    pub shadow: Seq<char>,
}

impl View for ModEntry {
    type V = ModEntryView;

    open spec fn view(&self) -> ModEntryView {
        ModEntryView { num: self.num@, den: self.den@, shadow: self.shadow@ }
    }
}

/// Model of a whole replacement table.
pub open spec fn table_view(t: Seq<ModEntry>) -> Seq<ModEntryView> {
    t.map_values(|m: ModEntry| m@)
}

/// The shadow variable's name: the induction variable's name with a fixed
/// suffix. Collisions with user identifiers are not checked.
pub open spec fn shadow_name(num: Seq<char>) -> Seq<char> {
    num + "_modulo"@
}

/// The first denominator, in preorder, of a `num % den` expression (both
/// sides simple identifiers) inside this expression.
pub open spec fn find_mod_expr(e: ExprView, num: Seq<char>) -> Option<Seq<char>>
    decreases e, 1nat,
{
    match e {
        ExprView::Binary { op, left, right } => {
            if op == BinOp::Remainder && ident_name(*left) == Some(num) && ident_name(
                *right,
            ) is Some {
                ident_name(*right)
            } else {
                opt_first(find_mod_expr(*left, num), find_mod_expr(*right, num))
            }
        },
        ExprView::Assign { op: _, target, value } => opt_first(
            find_mod_expr(*target, num),
            find_mod_expr(*value, num),
        ),
        ExprView::Member { object, index } => opt_first(
            find_mod_expr(*object, num),
            find_mod_expr(*index, num),
        ),
        ExprView::StaticMember { object, property: _ } => find_mod_expr(*object, num),
        ExprView::Call { callee, args } => opt_first(
            find_mod_expr(*callee, num),
            find_mod_exprs(args, num),
        ),
        ExprView::New { callee, args } => opt_first(
            find_mod_expr(*callee, num),
            find_mod_exprs(args, num),
        ),
        ExprView::Update { op: _, prefix: _, target } => find_mod_expr(*target, num),
        _ => None,
    }
}

/// The first find among a sequence of expressions.
pub open spec fn find_mod_exprs(s: Seq<ExprView>, num: Seq<char>) -> Option<Seq<char>>
    decreases s, 0nat,
{
    if s.len() == 0 {
        None
    } else {
        opt_first(find_mod_expr(s[0], num), find_mod_exprs(s.drop_first(), num))
    }
}

/// The first find among a sequence of declarators' initializers.
pub open spec fn find_mod_decls(s: Seq<DeclView>, num: Seq<char>) -> Option<Seq<char>>
    decreases s, 0nat,
{
    if s.len() == 0 {
        None
    } else {
        let head = match s[0].init {
            Some(e) => find_mod_expr(e, num),
            None => None,
        };
        opt_first(head, find_mod_decls(s.drop_first(), num))
    }
}

/// The first find, in preorder, inside a statement.
pub open spec fn find_mod_stmt(s: StmtView, num: Seq<char>) -> Option<Seq<char>>
    decreases s, 1nat,
{
    match s {
        StmtView::Block { body } => find_mod_stmts(body, num),
        StmtView::Expr { expr } => find_mod_expr(expr, num),
        StmtView::If { test, consequent } => opt_first(
            find_mod_expr(test, num),
            find_mod_stmt(*consequent, num),
        ),
        StmtView::For { init, test, update, body } => {
            let in_init = match init {
                Some(ds) => find_mod_decls(ds, num),
                None => None,
            };
            let in_test = match test {
                Some(e) => find_mod_expr(e, num),
                None => None,
            };
            let in_update = match update {
                Some(e) => find_mod_expr(e, num),
                None => None,
            };
            opt_first(in_init, opt_first(in_test, opt_first(in_update, find_mod_stmt(*body, num))))
        },
        StmtView::VarDecl { decls } => find_mod_decls(decls, num),
        _ => None,
    }
}

/// The first find among a sequence of statements.
pub open spec fn find_mod_stmts(s: Seq<StmtView>, num: Seq<char>) -> Option<Seq<char>>
    decreases s, 0nat,
{
    if s.len() == 0 {
        None
    } else {
        opt_first(find_mod_stmt(s[0], num), find_mod_stmts(s.drop_first(), num))
    }
}

/// The earlier of two finds.
pub open spec fn opt_first(a: Option<Seq<char>>, b: Option<Seq<char>>) -> Option<Seq<char>> {
    if a is Some {
        a
    } else {
        b
    }
}


/// Whether the loop is strength-reduced, and with which names: its
/// initializer must declare an induction variable, its body must already be
/// a block, and the body must hold a `inductionVar % den` expression. The
/// search spans the loop body, nested statements included.
pub open spec fn modulo_loop_match(s: StmtView) -> Option<(Seq<char>, Seq<char>)> {
    match s {
        StmtView::For { init: Some(ds), test: _, update: _, body } => {
            if ds.len() >= 1 && (*body matches StmtView::Block { .. }) {
                match find_mod_stmt(*body, ds[0].name) {
                    Some(den) => Some((ds[0].name, den)),
                    None => None,
                }
            } else {
                None
            }
        },
        _ => None,
    }
}

/// The two statements appended to a rewritten loop's body: advance the
/// shadow counter, then reset it on reaching the denominator.
pub open spec fn modulo_epilogue(num: Seq<char>, den: Seq<char>) -> Seq<StmtView> {
    seq![
        StmtView::Expr {
            expr: ExprView::Update {
                op: UpdateOp::Increment,
                prefix: false,
                target: Box::new(ExprView::Ident { name: shadow_name(num) }),
            },
        },
        StmtView::If {
            test: ExprView::Binary {
                op: BinOp::Equality,
                left: Box::new(ExprView::Ident { name: shadow_name(num) }),
                right: Box::new(ExprView::Ident { name: den }),
            },
            consequent: Box::new(StmtView::Expr {
                expr: ExprView::Assign {
                    op: AssignOp::Assign,
                    target: Box::new(ExprView::Ident { name: shadow_name(num) }),
                    value: Box::new(ExprView::Num { value: 0 }),
                },
            }),
        },
    ]
}

/// The zero-initialized declarator of the shadow variable.
pub open spec fn shadow_decl(num: Seq<char>) -> DeclView {
    DeclView { name: shadow_name(num), init: Some(ExprView::Num { value: 0 }) }
}

/// First phase of the pass on one statement: every matching loop, at any
/// depth, gains the shadow declarator at the end of its initializer list and
/// the counter-maintenance epilogue at the end of its body.
pub open spec fn modulo_rewrite_stmt(s: StmtView) -> StmtView
    decreases s, 1nat,
{
    match s {
        StmtView::Block { body } => StmtView::Block { body: modulo_rewrite_stmts(body) },
        StmtView::If { test, consequent } => StmtView::If {
            test,
            consequent: Box::new(modulo_rewrite_stmt(*consequent)),
        },
        StmtView::For { init, test, update, body } => {
            let new_body = modulo_rewrite_stmt(*body);
            match modulo_loop_match(s) {
                Some((num, den)) => StmtView::For {
                    init: Some(
                        match init {
                            Some(ds) => ds,
                            None => Seq::empty(),
                        }.push(shadow_decl(num)),
                    ),
                    test,
                    update,
                    body: Box::new(match new_body {
                        StmtView::Block { body: b } => StmtView::Block {
                            body: b + modulo_epilogue(num, den),
                        },
                        _ => new_body,
                    }),
                },
                None => StmtView::For { init, test, update, body: Box::new(new_body) },
            }
        },
        _ => s,
    }
}

/// First phase of the pass on a statement sequence.
pub open spec fn modulo_rewrite_stmts(s: Seq<StmtView>) -> Seq<StmtView>
    decreases s, 0nat,
{
    if s.len() == 0 {
        Seq::empty()
    } else {
        seq![modulo_rewrite_stmt(s[0])] + modulo_rewrite_stmts(s.drop_first())
    }
}

/// The replacement directives discovered in one statement, in preorder.
pub open spec fn modulo_entries_stmt(s: StmtView) -> Seq<ModEntryView>
    decreases s, 1nat,
{
    match s {
        StmtView::Block { body } => modulo_entries_stmts(body),
        StmtView::If { test: _, consequent } => modulo_entries_stmt(*consequent),
        StmtView::For { init: _, test: _, update: _, body } => {
            let own = match modulo_loop_match(s) {
                Some((num, den)) => seq![
                    ModEntryView { num, den, shadow: shadow_name(num) },
                ],
                None => Seq::empty(),
            };
            own + modulo_entries_stmt(*body)
        },
        _ => Seq::empty(),
    }
}

/// The replacement directives discovered in a statement sequence.
pub open spec fn modulo_entries_stmts(s: Seq<StmtView>) -> Seq<ModEntryView>
    decreases s, 0nat,
{
    if s.len() == 0 {
        Seq::empty()
    } else {
        modulo_entries_stmt(s[0]) + modulo_entries_stmts(s.drop_first())
    }
}

/// The shadow variable of the first directive for the name pair, if any.
pub open spec fn table_lookup(t: Seq<ModEntryView>, l: Seq<char>, r: Seq<char>) -> Option<
    Seq<char>,
>
    decreases t,
{
    if t.len() == 0 {
        None
    } else if t[0].num == l && t[0].den == r {
        Some(t[0].shadow)
    } else {
        table_lookup(t.drop_first(), l, r)
    }
}

/// Second phase on one expression: every `l % r` over simple identifiers
/// whose name pair stands in the table becomes a reference to the shadow
/// variable.
pub open spec fn modulo_subst_expr(e: ExprView, t: Seq<ModEntryView>) -> ExprView
    decreases e, 1nat,
{
    match e {
        ExprView::Binary { op, left, right } => {
            if op == BinOp::Remainder && ident_name(*left) is Some && ident_name(*right) is Some
                && table_lookup(t, ident_name(*left)->Some_0, ident_name(*right)->Some_0)
                is Some {
                ExprView::Ident {
                    name: table_lookup(
                        t,
                        ident_name(*left)->Some_0,
                        ident_name(*right)->Some_0,
                    )->Some_0,
                }
            } else {
                ExprView::Binary {
                    op,
                    left: Box::new(modulo_subst_expr(*left, t)),
                    right: Box::new(modulo_subst_expr(*right, t)),
                }
            }
        },
        ExprView::Assign { op, target, value } => ExprView::Assign {
            op,
            target: Box::new(modulo_subst_expr(*target, t)),
            value: Box::new(modulo_subst_expr(*value, t)),
        },
        ExprView::Member { object, index } => ExprView::Member {
            object: Box::new(modulo_subst_expr(*object, t)),
            index: Box::new(modulo_subst_expr(*index, t)),
        },
        ExprView::StaticMember { object, property } => ExprView::StaticMember {
            object: Box::new(modulo_subst_expr(*object, t)),
            property,
        },
        ExprView::Call { callee, args } => ExprView::Call {
            callee: Box::new(modulo_subst_expr(*callee, t)),
            args: modulo_subst_exprs(args, t),
        },
        ExprView::New { callee, args } => ExprView::New {
            callee: Box::new(modulo_subst_expr(*callee, t)),
            args: modulo_subst_exprs(args, t),
        },
        ExprView::Update { op, prefix, target } => ExprView::Update {
            op,
            prefix,
            target: Box::new(modulo_subst_expr(*target, t)),
        },
        _ => e,
    }
}

/// Second phase on a sequence of expressions.
pub open spec fn modulo_subst_exprs(s: Seq<ExprView>, t: Seq<ModEntryView>) -> Seq<ExprView>
    decreases s, 0nat,
{
    if s.len() == 0 {
        Seq::empty()
    } else {
        seq![modulo_subst_expr(s[0], t)] + modulo_subst_exprs(s.drop_first(), t)
    }
}

/// Second phase on a sequence of declarators.
pub open spec fn modulo_subst_decls(s: Seq<DeclView>, t: Seq<ModEntryView>) -> Seq<DeclView>
    decreases s, 0nat,
{
    if s.len() == 0 {
        Seq::empty()
    } else {
        let head = DeclView {
            name: s[0].name,
            init: match s[0].init {
                Some(e) => Some(modulo_subst_expr(e, t)),
                None => None,
            },
        };
        seq![head] + modulo_subst_decls(s.drop_first(), t)
    }
}

/// Second phase on one statement.
pub open spec fn modulo_subst_stmt(s: StmtView, t: Seq<ModEntryView>) -> StmtView
    decreases s, 1nat,
{
    match s {
        StmtView::Block { body } => StmtView::Block { body: modulo_subst_stmts(body, t) },
        StmtView::Expr { expr } => StmtView::Expr { expr: modulo_subst_expr(expr, t) },
        StmtView::If { test, consequent } => StmtView::If {
            test: modulo_subst_expr(test, t),
            consequent: Box::new(modulo_subst_stmt(*consequent, t)),
        },
        StmtView::For { init, test, update, body } => StmtView::For {
            init: match init {
                Some(ds) => Some(modulo_subst_decls(ds, t)),
                None => None,
            },
            test: match test {
                Some(e) => Some(modulo_subst_expr(e, t)),
                None => None,
            },
            update: match update {
                Some(e) => Some(modulo_subst_expr(e, t)),
                None => None,
            },
            body: Box::new(modulo_subst_stmt(*body, t)),
        },
        StmtView::VarDecl { decls } => StmtView::VarDecl { decls: modulo_subst_decls(decls, t) },
        _ => s,
    }
}

/// Second phase on a statement sequence.
pub open spec fn modulo_subst_stmts(s: Seq<StmtView>, t: Seq<ModEntryView>) -> Seq<StmtView>
    decreases s, 0nat,
{
    if s.len() == 0 {
        Seq::empty()
    } else {
        seq![modulo_subst_stmt(s[0], t)] + modulo_subst_stmts(s.drop_first(), t)
    }
}

/// The whole pass over a program: the loops are rewritten and the directives
/// gathered in one analysis of the input, then the substitution runs over
/// the entire rewritten program, not scoped to the originating loops.
pub open spec fn modulo_pass(p: Seq<StmtView>) -> Seq<StmtView> {
    modulo_subst_stmts(modulo_rewrite_stmts(p), modulo_entries_stmts(p))
}

fn find_in_expr(e: &Expr, num: &String) -> (r: Option<String>)
    ensures
        opt_name_view(r) == find_mod_expr(e@, num@),
    decreases *e, 1nat,
{
    match e {
        Expr::Binary { op, left, right } => {
            let mut matched: Option<String> = None;
            if *op == BinOp::Remainder {
                if let Some(l) = get_ident(&**left) {
                    if *l == *num {
                        if let Some(rn) = get_ident(&**right) {
                            matched = Some(rn.clone());
                        }
                    }
                }
            }
            match matched {
                Some(x) => Some(x),
                None => {
                    let a = find_in_expr(&**left, num);
                    if a.is_some() {
                        a
                    } else {
                        find_in_expr(&**right, num)
                    }
                },
            }
        },
        Expr::Assign { op: _, target, value } => {
            let a = find_in_expr(&**target, num);
            if a.is_some() {
                a
            } else {
                find_in_expr(&**value, num)
            }
        },
        Expr::Member { object, index } => {
            let a = find_in_expr(&**object, num);
            if a.is_some() {
                a
            } else {
                find_in_expr(&**index, num)
            }
        },
        Expr::StaticMember { object, property: _ } => find_in_expr(&**object, num),
        Expr::Call { callee, args } => {
            let a = find_in_expr(&**callee, num);
            if a.is_some() {
                a
            } else {
                proof {
                    vstd::std_specs::vec::axiom_vec_decreases_to_view::<Expr>(*args);
                }
                find_in_exprs(args.as_slice(), num)
            }
        },
        Expr::New { callee, args } => {
            let a = find_in_expr(&**callee, num);
            if a.is_some() {
                a
            } else {
                proof {
                    vstd::std_specs::vec::axiom_vec_decreases_to_view::<Expr>(*args);
                }
                find_in_exprs(args.as_slice(), num)
            }
        },
        Expr::Update { op: _, prefix: _, target } => find_in_expr(&**target, num),
        _ => None,
    }
}

fn find_in_exprs(s: &[Expr], num: &String) -> (r: Option<String>)
    ensures
        opt_name_view(r) == find_mod_exprs(exprs_view(s@), num@),
    decreases s@, 0nat,
{
    let ghost vs = exprs_view(s@);
    if s.len() == 0 {
        None
    } else {
        let a = find_in_expr(vstd::slice::slice_index_get(s, 0), num);
        proof {
            vstd::seq::axiom_seq_index_decreases(s@, 0);
            assert(vs[0] == crate::ast::expr_view(s@[0]));
        }
        if a.is_some() {
            a
        } else {
            let rest = vstd::slice::slice_subrange(s, 1, s.len());
            let r = find_in_exprs(rest, num);
            proof {
                assert(s@.drop_first() =~= rest@);
                assert(vs.drop_first() =~= exprs_view(rest@));
            }
            r
        }
    }
}

fn find_in_decls(s: &[Declarator], num: &String) -> (r: Option<String>)
    ensures
        opt_name_view(r) == find_mod_decls(decls_view(s@), num@),
    decreases s@, 0nat,
{
    let ghost vs = decls_view(s@);
    if s.len() == 0 {
        None
    } else {
        let head = vstd::slice::slice_index_get(s, 0);
        proof {
            vstd::seq::axiom_seq_index_decreases(s@, 0);
            assert(vs[0] == crate::ast::decl_view(s@[0]));
        }
        let a = match &head.init {
            Some(e) => find_in_expr(e, num),
            None => None,
        };
        if a.is_some() {
            a
        } else {
            let rest = vstd::slice::slice_subrange(s, 1, s.len());
            let r = find_in_decls(rest, num);
            proof {
                assert(s@.drop_first() =~= rest@);
                assert(vs.drop_first() =~= decls_view(rest@));
            }
            r
        }
    }
}

fn find_in_stmt(s: &Stmt, num: &String) -> (r: Option<String>)
    ensures
        opt_name_view(r) == find_mod_stmt(s@, num@),
    decreases *s, 1nat,
{
    match s {
        Stmt::Block { body } => {
            proof {
                vstd::std_specs::vec::axiom_vec_decreases_to_view::<Stmt>(*body);
            }
            find_in_stmts(body.as_slice(), num)
        },
        Stmt::Expr { expr } => find_in_expr(expr, num),
        Stmt::If { test, consequent } => {
            let a = find_in_expr(test, num);
            if a.is_some() {
                a
            } else {
                find_in_stmt(&**consequent, num)
            }
        },
        Stmt::For { init, test, update, body } => {
            let a = match init {
                Some(ds) => {
                    proof {
                        vstd::std_specs::vec::axiom_vec_decreases_to_view::<Declarator>(*ds);
                    }
                    find_in_decls(ds.as_slice(), num)
                },
                None => None,
            };
            if a.is_some() {
                return a;
            }
            let b = match test {
                Some(t) => find_in_expr(t, num),
                None => None,
            };
            if b.is_some() {
                return b;
            }
            let c = match update {
                Some(u) => find_in_expr(u, num),
                None => None,
            };
            if c.is_some() {
                return c;
            }
            find_in_stmt(&**body, num)
        },
        Stmt::VarDecl { decls } => {
            proof {
                vstd::std_specs::vec::axiom_vec_decreases_to_view::<Declarator>(*decls);
            }
            find_in_decls(decls.as_slice(), num)
        },
        _ => None,
    }
}

fn find_in_stmts(s: &[Stmt], num: &String) -> (r: Option<String>)
    ensures
        opt_name_view(r) == find_mod_stmts(stmts_view(s@), num@),
    decreases s@, 0nat,
{
    let ghost vs = stmts_view(s@);
    if s.len() == 0 {
        None
    } else {
        let a = find_in_stmt(vstd::slice::slice_index_get(s, 0), num);
        proof {
            vstd::seq::axiom_seq_index_decreases(s@, 0);
            assert(vs[0] == crate::ast::stmt_view(s@[0]));
        }
        if a.is_some() {
            a
        } else {
            let rest = vstd::slice::slice_subrange(s, 1, s.len());
            let r = find_in_stmts(rest, num);
            proof {
                assert(s@.drop_first() =~= rest@);
                assert(vs.drop_first() =~= stmts_view(rest@));
            }
            r
        }
    }
}

/// Searches a loop for the first `numerator % den` expression over simple
/// identifiers and records the denominator's name.
pub struct FindModuloVar {
    pub numerator: String,
    pub denominator: Option<String>,
}

impl FindModuloVar {
    /// A fresh search for remainders of the given induction variable.
    pub fn new(numerator: &str) -> (f: FindModuloVar)
        ensures
            f.numerator@ == numerator@,
            f.denominator is None,
    {
        FindModuloVar { numerator: numerator.to_owned(), denominator: None }
    }

    /// Scans a statement; records the first matching denominator if none was
    /// recorded yet.
    pub fn visit_statement(&mut self, s: &Stmt)
        ensures
            final(self).numerator == old(self).numerator,
            opt_name_view(final(self).denominator) == opt_first(
                opt_name_view(old(self).denominator),
                find_mod_stmt(s@, old(self).numerator@),
            ),
    {
        if self.denominator.is_none() {
            self.denominator = find_in_stmt(s, &self.numerator);
        }
    }
}

fn lookup_shadow(table: &Vec<ModEntry>, l: &String, r: &String) -> (res: Option<String>)
    ensures
        opt_name_view(res) == table_lookup(table_view(table@), l@, r@),
{
    let ghost tv = table_view(table@);
    proof {
        assert(tv.subrange(0, tv.len() as int) =~= tv);
    }
    let mut i: usize = 0;
    while i < table.len()
        invariant
            0 <= i <= table.len(),
            tv == table_view(table@),
            tv.len() == table@.len(),
            table_lookup(tv, l@, r@) == table_lookup(
                tv.subrange(i as int, tv.len() as int),
                l@,
                r@,
            ),
        decreases table.len() - i,
    {
        let entry = &table[i];
        proof {
            assert(tv[i as int] == table@[i as int]@);
            assert(tv.subrange(i as int, tv.len() as int)[0] == tv[i as int]);
        }
        if entry.num == *l && entry.den == *r {
            return Some(entry.shadow.clone());
        }
        proof {
            assert(tv.subrange(i as int, tv.len() as int).drop_first() =~= tv.subrange(
                i as int + 1,
                tv.len() as int,
            ));
        }
        i = i + 1;
    }
    proof {
        assert(tv.subrange(i as int, tv.len() as int) =~= Seq::<ModEntryView>::empty());
    }
    None
}

fn subst_expr(e: &Expr, table: &Vec<ModEntry>) -> (r: Expr)
    ensures
        r@ == modulo_subst_expr(e@, table_view(table@)),
    decreases *e, 1nat,
{
    match e {
        Expr::Binary { op, left, right } => {
            let mut replacement: Option<String> = None;
            if *op == BinOp::Remainder {
                if let Some(l) = get_ident(&**left) {
                    if let Some(rn) = get_ident(&**right) {
                        replacement = lookup_shadow(table, l, rn);
                    }
                }
            }
            match replacement {
                Some(sh) => Expr::Ident { name: sh },
                None => Expr::Binary {
                    op: *op,
                    left: Box::new(subst_expr(&**left, table)),
                    right: Box::new(subst_expr(&**right, table)),
                },
            }
        },
        Expr::Assign { op, target, value } => Expr::Assign {
            op: *op,
            target: Box::new(subst_expr(&**target, table)),
            value: Box::new(subst_expr(&**value, table)),
        },
        Expr::Member { object, index } => Expr::Member {
            object: Box::new(subst_expr(&**object, table)),
            index: Box::new(subst_expr(&**index, table)),
        },
        Expr::StaticMember { object, property } => Expr::StaticMember {
            object: Box::new(subst_expr(&**object, table)),
            property: property.clone(),
        },
        Expr::Call { callee, args } => {
            proof {
                vstd::std_specs::vec::axiom_vec_decreases_to_view::<Expr>(*args);
            }
            Expr::Call {
                callee: Box::new(subst_expr(&**callee, table)),
                args: subst_exprs(args.as_slice(), table),
            }
        },
        Expr::New { callee, args } => {
            proof {
                vstd::std_specs::vec::axiom_vec_decreases_to_view::<Expr>(*args);
            }
            Expr::New {
                callee: Box::new(subst_expr(&**callee, table)),
                args: subst_exprs(args.as_slice(), table),
            }
        },
        Expr::Update { op, prefix, target } => Expr::Update {
            op: *op,
            prefix: *prefix,
            target: Box::new(subst_expr(&**target, table)),
        },
        Expr::Num { value } => Expr::Num { value: *value },
        Expr::Ident { name } => Expr::Ident { name: name.clone() },
        Expr::Unsupported { kind } => Expr::Unsupported { kind: kind.clone() },
    }
}

fn subst_exprs(s: &[Expr], table: &Vec<ModEntry>) -> (r: Vec<Expr>)
    ensures
        exprs_view(r@) == modulo_subst_exprs(exprs_view(s@), table_view(table@)),
    decreases s@, 0nat,
{
    let ghost vs = exprs_view(s@);
    if s.len() == 0 {
        let r: Vec<Expr> = Vec::new();
        proof {
            assert(exprs_view(r@) =~= modulo_subst_exprs(vs, table_view(table@)));
        }
        r
    } else {
        let head = subst_expr(vstd::slice::slice_index_get(s, 0), table);
        proof {
            vstd::seq::axiom_seq_index_decreases(s@, 0);
            assert(vs[0] == crate::ast::expr_view(s@[0]));
        }
        let rest = vstd::slice::slice_subrange(s, 1, s.len());
        let mut r = subst_exprs(rest, table);
        let ghost tail = r@;
        r.insert(0, head);
        proof {
            assert(s@.drop_first() =~= rest@);
            assert(vs.drop_first() =~= exprs_view(rest@));
            assert(r@[0] == head);
            assert(r@.drop_first() =~= tail);
            assert(exprs_view(r@) =~= modulo_subst_exprs(vs, table_view(table@)));
        }
        r
    }
}

fn subst_decls(s: &[Declarator], table: &Vec<ModEntry>) -> (r: Vec<Declarator>)
    ensures
        decls_view(r@) == modulo_subst_decls(decls_view(s@), table_view(table@)),
    decreases s@, 0nat,
{
    let ghost vs = decls_view(s@);
    if s.len() == 0 {
        let r: Vec<Declarator> = Vec::new();
        proof {
            assert(decls_view(r@) =~= modulo_subst_decls(vs, table_view(table@)));
        }
        r
    } else {
        let d = vstd::slice::slice_index_get(s, 0);
        proof {
            vstd::seq::axiom_seq_index_decreases(s@, 0);
            assert(vs[0] == crate::ast::decl_view(s@[0]));
        }
        let head = Declarator {
            name: d.name.clone(),
            init: match &d.init {
                Some(e) => Some(subst_expr(e, table)),
                None => None,
            },
        };
        let rest = vstd::slice::slice_subrange(s, 1, s.len());
        let mut r = subst_decls(rest, table);
        let ghost tail = r@;
        r.insert(0, head);
        proof {
            assert(s@.drop_first() =~= rest@);
            assert(vs.drop_first() =~= decls_view(rest@));
            assert(r@[0] == head);
            assert(r@.drop_first() =~= tail);
            assert(decls_view(r@) =~= modulo_subst_decls(vs, table_view(table@)));
        }
        r
    }
}

fn subst_stmt(s: &Stmt, table: &Vec<ModEntry>) -> (r: Stmt)
    ensures
        r@ == modulo_subst_stmt(s@, table_view(table@)),
    decreases *s, 1nat,
{
    match s {
        Stmt::Block { body } => {
            proof {
                vstd::std_specs::vec::axiom_vec_decreases_to_view::<Stmt>(*body);
            }
            Stmt::Block { body: subst_stmts(body.as_slice(), table) }
        },
        Stmt::Expr { expr } => Stmt::Expr { expr: subst_expr(expr, table) },
        Stmt::If { test, consequent } => Stmt::If {
            test: subst_expr(test, table),
            consequent: Box::new(subst_stmt(&**consequent, table)),
        },
        Stmt::For { init, test, update, body } => Stmt::For {
            init: match init {
                Some(ds) => {
                    proof {
                        vstd::std_specs::vec::axiom_vec_decreases_to_view::<Declarator>(*ds);
                    }
                    Some(subst_decls(ds.as_slice(), table))
                },
                None => None,
            },
            test: match test {
                Some(t) => Some(subst_expr(t, table)),
                None => None,
            },
            update: match update {
                Some(u) => Some(subst_expr(u, table)),
                None => None,
            },
            body: Box::new(subst_stmt(&**body, table)),
        },
        Stmt::VarDecl { decls } => {
            proof {
                vstd::std_specs::vec::axiom_vec_decreases_to_view::<Declarator>(*decls);
            }
            Stmt::VarDecl { decls: subst_decls(decls.as_slice(), table) }
        },
        Stmt::Empty => Stmt::Empty,
        Stmt::Unsupported { kind } => Stmt::Unsupported { kind: kind.clone() },
    }
}

fn subst_stmts(s: &[Stmt], table: &Vec<ModEntry>) -> (r: Vec<Stmt>)
    ensures
        stmts_view(r@) == modulo_subst_stmts(stmts_view(s@), table_view(table@)),
    decreases s@, 0nat,
{
    let ghost vs = stmts_view(s@);
    if s.len() == 0 {
        let r: Vec<Stmt> = Vec::new();
        proof {
            assert(stmts_view(r@) =~= modulo_subst_stmts(vs, table_view(table@)));
        }
        r
    } else {
        let head = subst_stmt(vstd::slice::slice_index_get(s, 0), table);
        proof {
            vstd::seq::axiom_seq_index_decreases(s@, 0);
            assert(vs[0] == crate::ast::stmt_view(s@[0]));
        }
        let rest = vstd::slice::slice_subrange(s, 1, s.len());
        let mut r = subst_stmts(rest, table);
        let ghost tail = r@;
        r.insert(0, head);
        proof {
            assert(s@.drop_first() =~= rest@);
            assert(vs.drop_first() =~= stmts_view(rest@));
            assert(r@[0] == head);
            assert(r@.drop_first() =~= tail);
            assert(stmts_view(r@) =~= modulo_subst_stmts(vs, table_view(table@)));
        }
        r
    }
}

fn rewrite_stmt(s: &Stmt, table: &mut Vec<ModEntry>) -> (r: Stmt)
    ensures
        r@ == modulo_rewrite_stmt(s@),
        table_view(final(table)@) == table_view(old(table)@) + modulo_entries_stmt(s@),
    decreases *s, 2nat,
{
    match s {
        Stmt::Block { body } => {
            proof {
                vstd::std_specs::vec::axiom_vec_decreases_to_view::<Stmt>(*body);
            }
            Stmt::Block { body: rewrite_stmts(body.as_slice(), table) }
        },
        Stmt::If { test, consequent } => {
            let c = rewrite_stmt(&**consequent, table);
            Stmt::If { test: clone_expr(test), consequent: Box::new(c) }
        },
        Stmt::For { .. } => rewrite_for_stmt(s, table),
        Stmt::Expr { expr } => {
            proof {
                assert(table_view(table@) + modulo_entries_stmt(s@) =~= table_view(table@));
            }
            Stmt::Expr { expr: clone_expr(expr) }
        },
        Stmt::VarDecl { decls } => {
            proof {
                assert(table_view(table@) + modulo_entries_stmt(s@) =~= table_view(table@));
            }
            Stmt::VarDecl { decls: clone_decls(decls.as_slice()) }
        },
        Stmt::Empty => {
            proof {
                assert(table_view(table@) + modulo_entries_stmt(s@) =~= table_view(table@));
            }
            Stmt::Empty
        },
        Stmt::Unsupported { kind } => {
            proof {
                assert(table_view(table@) + modulo_entries_stmt(s@) =~= table_view(table@));
            }
            Stmt::Unsupported { kind: kind.clone() }
        },
    }
}

#[verifier::rlimit(100)]
fn rewrite_for_stmt(s: &Stmt, table: &mut Vec<ModEntry>) -> (r: Stmt)
    requires
        s matches Stmt::For { .. },
    ensures
        r@ == modulo_rewrite_stmt(s@),
        table_view(final(table)@) == table_view(old(table)@) + modulo_entries_stmt(s@),
    decreases *s, 1nat,
{
    match s {
        Stmt::For { init, test, update, body } => {
            let mut matched: Option<(String, String)> = None;
            if let Some(ds) = init {
                if ds.len() >= 1 {
                    let is_block = match &**body {
                        Stmt::Block { .. } => true,
                        _ => false,
                    };
                    if is_block {
                        proof {
                            lemma_decls_view_len(ds@);
                        }
                        if let Some(den) = find_in_stmt(&**body, &ds[0].name) {
                            matched = Some((ds[0].name.clone(), den));
                        }
                    }
                }
            }
            proof {
                if matched is Some {
                    assert(modulo_loop_match(s@) == Some(
                        (matched->Some_0.0@, matched->Some_0.1@),
                    ));
                } else {
                    assert(modulo_loop_match(s@) is None);
                }
            }
            match matched {
                Some((num, den)) => {
                    let mut shadow = num.clone();
                    shadow.append("_modulo");
                    let ghost t0 = table@;
                    table.push(ModEntry {
                        num: num.clone(),
                        den: den.clone(),
                        shadow: shadow.clone(),
                    });
                    proof {
                        assert(table_view(table@) =~= table_view(t0) + modulo_entries_stmt(s@)
                            .take(1));
                        assert(modulo_entries_stmt(s@).take(1) =~= seq![
                            ModEntryView { num: num@, den: den@, shadow: shadow_name(num@) },
                        ]);
                    }
                    let new_body = rewrite_stmt(&**body, table);
                    let final_body = match new_body {
                        Stmt::Block { body: b } => {
                            let mut b2 = b;
                            let upd_stmt = Stmt::Expr {
                                expr: Expr::Update {
                                    op: UpdateOp::Increment,
                                    prefix: false,
                                    target: Box::new(Expr::Ident { name: shadow.clone() }),
                                },
                            };
                            let reset_stmt = Stmt::If {
                                test: Expr::Binary {
                                    op: BinOp::Equality,
                                    left: Box::new(Expr::Ident { name: shadow.clone() }),
                                    right: Box::new(Expr::Ident { name: den.clone() }),
                                },
                                consequent: Box::new(
                                    Stmt::Expr {
                                        expr: Expr::Assign {
                                            op: AssignOp::Assign,
                                            target: Box::new(
                                                Expr::Ident { name: shadow.clone() },
                                            ),
                                            value: Box::new(Expr::Num { value: 0 }),
                                        },
                                    },
                                ),
                            };
                            proof {
                                reveal_with_fuel(crate::ast::expr_view, 4);
                                reveal_with_fuel(crate::ast::stmt_view, 3);
                                assert(upd_stmt@ == modulo_epilogue(num@, den@)[0]);
                                assert(reset_stmt@ == modulo_epilogue(num@, den@)[1]);
                            }
                            let ghost b_before = b2@;
                            b2.push(upd_stmt);
                            b2.push(reset_stmt);
                            proof {
                                assert(stmts_view(b2@) =~= stmts_view(b_before) + modulo_epilogue(
                                    num@,
                                    den@,
                                )) by {
                                    crate::ast::lemma_stmts_view_len(b2@);
                                    crate::ast::lemma_stmts_view_len(b_before);
                                }
                            }
                            Stmt::Block { body: b2 }
                        },
                        other => other,
                    };
                    let mut new_ds = match init {
                        Some(ds) => clone_decls(ds.as_slice()),
                        None => Vec::new(),
                    };
                    let ghost ds_before = new_ds@;
                    new_ds.push(Declarator { name: shadow, init: Some(Expr::Num { value: 0 }) });
                    proof {
                        assert(decls_view(new_ds@) =~= decls_view(ds_before).push(
                            shadow_decl(num@),
                        )) by {
                            lemma_decls_view_len(new_ds@);
                            lemma_decls_view_len(ds_before);
                        }
                    }
                    let r = Stmt::For {
                        init: Some(new_ds),
                        test: match test {
                            Some(t) => Some(clone_expr(t)),
                            None => None,
                        },
                        update: match update {
                            Some(u) => Some(clone_expr(u)),
                            None => None,
                        },
                        body: Box::new(final_body),
                    };
                    proof {
                        assert(r@ == modulo_rewrite_stmt(s@));
                        assert(table_view(table@) =~= table_view(old(table)@)
                            + modulo_entries_stmt(s@));
                    }
                    r
                },
                None => {
                    let new_body = rewrite_stmt(&**body, table);
                    Stmt::For {
                        init: match init {
                            Some(ds) => Some(clone_decls(ds.as_slice())),
                            None => None,
                        },
                        test: match test {
                            Some(t) => Some(clone_expr(t)),
                            None => None,
                        },
                        update: match update {
                            Some(u) => Some(clone_expr(u)),
                            None => None,
                        },
                        body: Box::new(new_body),
                    }
                },
            }
        },
        _ => vstd::pervasive::unreached(),
    }
}

fn rewrite_stmts(s: &[Stmt], table: &mut Vec<ModEntry>) -> (r: Vec<Stmt>)
    ensures
        stmts_view(r@) == modulo_rewrite_stmts(stmts_view(s@)),
        table_view(final(table)@) == table_view(old(table)@) + modulo_entries_stmts(
            stmts_view(s@),
        ),
    decreases s@, 0nat,
{
    let ghost vs = stmts_view(s@);
    if s.len() == 0 {
        let r: Vec<Stmt> = Vec::new();
        proof {
            assert(stmts_view(r@) =~= modulo_rewrite_stmts(vs));
            assert(table_view(table@) + modulo_entries_stmts(vs) =~= table_view(table@));
        }
        r
    } else {
        let head = rewrite_stmt(vstd::slice::slice_index_get(s, 0), table);
        proof {
            vstd::seq::axiom_seq_index_decreases(s@, 0);
            assert(vs[0] == crate::ast::stmt_view(s@[0]));
        }
        let rest = vstd::slice::slice_subrange(s, 1, s.len());
        let mut r = rewrite_stmts(rest, table);
        let ghost tail = r@;
        r.insert(0, head);
        proof {
            assert(s@.drop_first() =~= rest@);
            assert(vs.drop_first() =~= stmts_view(rest@));
            assert(r@[0] == head);
            assert(r@.drop_first() =~= tail);
            assert(stmts_view(r@) =~= modulo_rewrite_stmts(vs));
            assert(table_view(table@) =~= table_view(old(table)@) + modulo_entries_stmts(vs));
        }
        r
    }
}

/// The running-modulo strength reduction: rewrites every matching counting
/// loop to maintain an incremental shadow counter, then substitutes the
/// shadow for every matching remainder expression program-wide.
pub struct RunningModuloOptimization {
    pub replacements: Vec<ModEntry>,
}

impl RunningModuloOptimization {
    /// A fresh pass with an empty replacement table.
    pub fn new() -> (p: RunningModuloOptimization)
        ensures
            p.replacements@.len() == 0,
    {
        RunningModuloOptimization { replacements: Vec::new() }
    }

    /// Runs the whole pass over a program: analysis and loop rewrite first,
    /// then the program-wide substitution against the accumulated table.
    pub fn visit_program(&mut self, program: &mut Program)
        ensures
            table_view(final(self).replacements@) == table_view(old(self).replacements@)
                + modulo_entries_stmts(old(program)@),
            final(program)@ == modulo_subst_stmts(
                modulo_rewrite_stmts(old(program)@),
                table_view(final(self).replacements@),
            ),
            old(self).replacements@.len() == 0 ==> final(program)@ == modulo_pass(old(program)@),
    {
        let ghost p0 = program@;
        let rewritten = rewrite_stmts(program.body.as_slice(), &mut self.replacements);
        let substituted = subst_stmts(rewritten.as_slice(), &self.replacements);
        program.body = substituted;
        proof {
            if old(self).replacements@.len() == 0 {
                assert(table_view(old(self).replacements@) =~= Seq::<ModEntryView>::empty());
                assert(table_view(self.replacements@) =~= modulo_entries_stmts(p0));
            }
        }
    }
}

/// The value of the shadow counter after `i` iterations of a rewritten
/// loop's body: it starts at zero, and each iteration increments it and
/// resets it to zero on reaching the denominator.
pub open spec fn shadow_counter(i: nat, d: nat) -> nat
    decreases i,
{
    if i == 0 {
        0
    } else {
        let p = shadow_counter((i - 1) as nat, d);
        if p + 1 == d {
            0
        } else {
            p + 1
        }
    }
}

/// The rewritten loop computes the remainder without evaluating one: after
/// any number of iterations the shadow counter equals the induction
/// variable's value modulo the denominator.
pub proof fn lemma_shadow_counter_is_mod(i: nat, d: nat)
    requires
        d > 0,
    ensures
        shadow_counter(i, d) == i as int % (d as int),
    decreases i,
{
    if i == 0 {
        vstd::arithmetic::div_mod::lemma_small_mod(0, d);
    } else {
        lemma_shadow_counter_is_mod((i - 1) as nat, d);
        let p = shadow_counter((i - 1) as nat, d);
        vstd::arithmetic::div_mod::lemma_fundamental_div_mod((i - 1) as int, d as int);
        let q = (i - 1) as int / d as int;
        if p + 1 == d {
            assert((q + 1) * (d as int) == q * (d as int) + d) by (nonlinear_arith);
            vstd::arithmetic::div_mod::lemma_fundamental_div_mod_converse(
                i as int,
                d as int,
                q + 1,
                0,
            );
        } else {
            vstd::arithmetic::div_mod::lemma_fundamental_div_mod_converse(
                i as int,
                d as int,
                q,
                p as int + 1,
            );
        }
    }
}

/// One step of the strength-reduced remainder counter, as the generated
/// loop epilogue computes it: increment, then reset to zero on reaching the
/// denominator `d`.
pub fn running_modulo_step(m: u64, d: u64) -> (r: u64)
    requires
        d > 0,
        m < d,
    ensures
        r < d,
        r == (m + 1) % (d as int),
{
    let next = m + 1;
    if next == d {
        proof {
            vstd::arithmetic::div_mod::lemma_mod_self_0(d as int);
        }
        0
    } else {
        proof {
            vstd::arithmetic::div_mod::lemma_small_mod(next as nat, d as nat);
        }
        next
    }
}

/// No loop anywhere in the statement matches the strength-reduction
/// pattern.
pub open spec fn no_mod_loops_stmt(s: StmtView) -> bool
    decreases s, 1nat,
{
    match s {
        StmtView::Block { body } => no_mod_loops_stmts(body),
        StmtView::If { test: _, consequent } => no_mod_loops_stmt(*consequent),
        StmtView::For { init: _, test: _, update: _, body } => modulo_loop_match(s) is None
            && no_mod_loops_stmt(*body),
        _ => true,
    }
}

/// No loop anywhere in the statement sequence matches.
pub open spec fn no_mod_loops_stmts(s: Seq<StmtView>) -> bool
    decreases s, 0nat,
{
    if s.len() == 0 {
        true
    } else {
        no_mod_loops_stmt(s[0]) && no_mod_loops_stmts(s.drop_first())
    }
}

proof fn lemma_no_match_no_entries_stmt(s: StmtView)
    requires
        no_mod_loops_stmt(s),
    ensures
        modulo_entries_stmt(s) == Seq::<ModEntryView>::empty(),
        modulo_rewrite_stmt(s) == s,
    decreases s, 1nat,
{
    match s {
        StmtView::Block { body } => {
            lemma_no_match_no_entries_stmts(body);
            assert(modulo_rewrite_stmt(s) == s);
        },
        StmtView::If { test: _, consequent } => {
            lemma_no_match_no_entries_stmt(*consequent);
        },
        StmtView::For { init, test, update, body } => {
            lemma_no_match_no_entries_stmt(*body);
            assert(modulo_entries_stmt(s) =~= Seq::<ModEntryView>::empty());
        },
        _ => {},
    }
}

proof fn lemma_no_match_no_entries_stmts(s: Seq<StmtView>)
    requires
        no_mod_loops_stmts(s),
    ensures
        modulo_entries_stmts(s) == Seq::<ModEntryView>::empty(),
        modulo_rewrite_stmts(s) == s,
    decreases s, 0nat,
{
    if s.len() == 0 {
        assert(modulo_rewrite_stmts(s) =~= s);
    } else {
        lemma_no_match_no_entries_stmt(s[0]);
        lemma_no_match_no_entries_stmts(s.drop_first());
        assert(modulo_entries_stmts(s) =~= Seq::<ModEntryView>::empty());
        assert(modulo_rewrite_stmts(s) =~= s);
    }
}

proof fn lemma_subst_empty_expr(e: ExprView)
    ensures
        modulo_subst_expr(e, Seq::empty()) == e,
    decreases e, 1nat,
{
    match e {
        ExprView::Binary { op, left, right } => {
            lemma_subst_empty_expr(*left);
            lemma_subst_empty_expr(*right);
        },
        ExprView::Assign { op: _, target, value } => {
            lemma_subst_empty_expr(*target);
            lemma_subst_empty_expr(*value);
        },
        ExprView::Member { object, index } => {
            lemma_subst_empty_expr(*object);
            lemma_subst_empty_expr(*index);
        },
        ExprView::StaticMember { object, property: _ } => {
            lemma_subst_empty_expr(*object);
        },
        ExprView::Call { callee, args } => {
            lemma_subst_empty_expr(*callee);
            lemma_subst_empty_exprs(args);
        },
        ExprView::New { callee, args } => {
            lemma_subst_empty_expr(*callee);
            lemma_subst_empty_exprs(args);
        },
        ExprView::Update { op: _, prefix: _, target } => {
            lemma_subst_empty_expr(*target);
        },
        _ => {},
    }
}

proof fn lemma_subst_empty_exprs(s: Seq<ExprView>)
    ensures
        modulo_subst_exprs(s, Seq::empty()) == s,
    decreases s, 0nat,
{
    if s.len() == 0 {
        assert(modulo_subst_exprs(s, Seq::empty()) =~= s);
    } else {
        lemma_subst_empty_expr(s[0]);
        lemma_subst_empty_exprs(s.drop_first());
        assert(modulo_subst_exprs(s, Seq::empty()) =~= s);
    }
}

proof fn lemma_subst_empty_decls(s: Seq<DeclView>)
    ensures
        modulo_subst_decls(s, Seq::empty()) == s,
    decreases s, 0nat,
{
    if s.len() == 0 {
        assert(modulo_subst_decls(s, Seq::empty()) =~= s);
    } else {
        match s[0].init {
            Some(e) => lemma_subst_empty_expr(e),
            None => {},
        }
        lemma_subst_empty_decls(s.drop_first());
        assert(modulo_subst_decls(s, Seq::empty()) =~= s);
    }
}

proof fn lemma_subst_empty_stmt(s: StmtView)
    ensures
        modulo_subst_stmt(s, Seq::empty()) == s,
    decreases s, 1nat,
{
    match s {
        StmtView::Block { body } => {
            lemma_subst_empty_stmts(body);
        },
        StmtView::Expr { expr } => {
            lemma_subst_empty_expr(expr);
        },
        StmtView::If { test, consequent } => {
            lemma_subst_empty_expr(test);
            lemma_subst_empty_stmt(*consequent);
        },
        StmtView::For { init, test, update, body } => {
            match init {
                Some(ds) => lemma_subst_empty_decls(ds),
                None => {},
            }
            match test {
                Some(t) => lemma_subst_empty_expr(t),
                None => {},
            }
            match update {
                Some(u) => lemma_subst_empty_expr(u),
                None => {},
            }
            lemma_subst_empty_stmt(*body);
        },
        StmtView::VarDecl { decls } => {
            lemma_subst_empty_decls(decls);
        },
        _ => {},
    }
}

proof fn lemma_subst_empty_stmts(s: Seq<StmtView>)
    ensures
        modulo_subst_stmts(s, Seq::empty()) == s,
    decreases s, 0nat,
{
    if s.len() == 0 {
        assert(modulo_subst_stmts(s, Seq::empty()) =~= s);
    } else {
        lemma_subst_empty_stmt(s[0]);
        lemma_subst_empty_stmts(s.drop_first());
        assert(modulo_subst_stmts(s, Seq::empty()) =~= s);
    }
}

/// A remainder over simple identifiers whose name pair stands in the table,
/// somewhere in this expression.
pub open spec fn expr_has_pair(e: ExprView, t: Seq<ModEntryView>) -> bool
    decreases e, 1nat,
{
    match e {
        ExprView::Binary { op, left, right } => (op == BinOp::Remainder && ident_name(
            *left,
        ) is Some && ident_name(*right) is Some && table_lookup(
            t,
            ident_name(*left)->Some_0,
            ident_name(*right)->Some_0,
        ) is Some) || expr_has_pair(*left, t) || expr_has_pair(*right, t),
        ExprView::Assign { op: _, target, value } => expr_has_pair(*target, t) || expr_has_pair(
            *value,
            t,
        ),
        ExprView::Member { object, index } => expr_has_pair(*object, t) || expr_has_pair(
            *index,
            t,
        ),
        ExprView::StaticMember { object, property: _ } => expr_has_pair(*object, t),
        ExprView::Call { callee, args } => expr_has_pair(*callee, t) || exprs_have_pair(args, t),
        ExprView::New { callee, args } => expr_has_pair(*callee, t) || exprs_have_pair(args, t),
        ExprView::Update { op: _, prefix: _, target } => expr_has_pair(*target, t),
        _ => false,
    }
}

/// A matched remainder somewhere in a sequence of expressions.
pub open spec fn exprs_have_pair(s: Seq<ExprView>, t: Seq<ModEntryView>) -> bool
    decreases s, 0nat,
{
    if s.len() == 0 {
        false
    } else {
        expr_has_pair(s[0], t) || exprs_have_pair(s.drop_first(), t)
    }
}

/// A matched remainder somewhere in a sequence of declarators.
pub open spec fn decls_have_pair(s: Seq<DeclView>, t: Seq<ModEntryView>) -> bool
    decreases s, 0nat,
{
    if s.len() == 0 {
        false
    } else {
        (match s[0].init {
            Some(e) => expr_has_pair(e, t),
            None => false,
        }) || decls_have_pair(s.drop_first(), t)
    }
}

/// A matched remainder somewhere in a statement.
pub open spec fn stmt_has_pair(s: StmtView, t: Seq<ModEntryView>) -> bool
    decreases s, 1nat,
{
    match s {
        StmtView::Block { body } => stmts_have_pair(body, t),
        StmtView::Expr { expr } => expr_has_pair(expr, t),
        StmtView::If { test, consequent } => expr_has_pair(test, t) || stmt_has_pair(
            *consequent,
            t,
        ),
        StmtView::For { init, test, update, body } => (match init {
            Some(ds) => decls_have_pair(ds, t),
            None => false,
        }) || (match test {
            Some(e) => expr_has_pair(e, t),
            None => false,
        }) || (match update {
            Some(e) => expr_has_pair(e, t),
            None => false,
        }) || stmt_has_pair(*body, t),
        StmtView::VarDecl { decls } => decls_have_pair(decls, t),
        _ => false,
    }
}

/// A matched remainder somewhere in a statement sequence.
pub open spec fn stmts_have_pair(s: Seq<StmtView>, t: Seq<ModEntryView>) -> bool
    decreases s, 0nat,
{
    if s.len() == 0 {
        false
    } else {
        stmt_has_pair(s[0], t) || stmts_have_pair(s.drop_first(), t)
    }
}

/// The shadow names are fresh: no directive's shadow variable is also some
/// directive's numerator or denominator name.
pub open spec fn shadows_fresh(t: Seq<ModEntryView>) -> bool {
    forall|j: int, k: int|
        0 <= j < t.len() && 0 <= k < t.len() ==> (#[trigger] t[k]).num != (
        #[trigger] t[j]).shadow && t[k].den != t[j].shadow
}

proof fn lemma_lookup_hits_entry(t: Seq<ModEntryView>, l: Seq<char>, r: Seq<char>)
    requires
        table_lookup(t, l, r) is Some,
    ensures
        exists|k: int| 0 <= k < t.len() && (#[trigger] t[k]).num == l && t[k].den == r,
    decreases t,
{
    if t.len() > 0 {
        if t[0].num == l && t[0].den == r {
        } else {
            lemma_lookup_hits_entry(t.drop_first(), l, r);
            let k = choose|k: int|
                0 <= k < t.drop_first().len() && (#[trigger] t.drop_first()[k]).num == l
                    && t.drop_first()[k].den == r;
            assert(t[k + 1] == t.drop_first()[k]);
        }
    }
}

proof fn lemma_shadow_name_not_looked_up(t: Seq<ModEntryView>, j: int, l: Seq<char>, r: Seq<char>)
    requires
        shadows_fresh(t),
        0 <= j < t.len(),
        l == t[j].shadow || r == t[j].shadow,
    ensures
        table_lookup(t, l, r) is None,
{
    if table_lookup(t, l, r) is Some {
        lemma_lookup_hits_entry(t, l, r);
    }
}

proof fn lemma_subst_complete_expr(e: ExprView, t: Seq<ModEntryView>)
    requires
        shadows_fresh(t),
    ensures
        !expr_has_pair(modulo_subst_expr(e, t), t),
        (modulo_subst_expr(e, t) matches ExprView::Ident { .. }) ==> (e matches ExprView::Ident {
            ..
        }
            || exists|j: int|
            0 <= j < t.len() && modulo_subst_expr(e, t) == (ExprView::Ident {
                name: (#[trigger] t[j]).shadow,
            })),
        (e matches ExprView::Ident { .. }) ==> modulo_subst_expr(e, t) == e,
    decreases e, 1nat,
{
    match e {
        ExprView::Binary { op, left, right } => {
            lemma_subst_complete_expr(*left, t);
            lemma_subst_complete_expr(*right, t);
            if op == BinOp::Remainder && ident_name(*left) is Some && ident_name(*right) is Some
                && table_lookup(t, ident_name(*left)->Some_0, ident_name(*right)->Some_0)
                is Some {
                lemma_lookup_is_shadow(t, ident_name(*left)->Some_0, ident_name(*right)->Some_0);
            } else {
                let l2 = modulo_subst_expr(*left, t);
                let r2 = modulo_subst_expr(*right, t);
                if op == BinOp::Remainder && ident_name(l2) is Some && ident_name(r2) is Some
                    && table_lookup(t, ident_name(l2)->Some_0, ident_name(r2)->Some_0)
                    is Some {
                    if !(*left matches ExprView::Ident { .. }) {
                        let j = choose|j: int|
                            0 <= j < t.len() && l2 == (ExprView::Ident {
                                name: (#[trigger] t[j]).shadow,
                            });
                        lemma_shadow_name_not_looked_up(
                            t,
                            j,
                            ident_name(l2)->Some_0,
                            ident_name(r2)->Some_0,
                        );
                    } else if !(*right matches ExprView::Ident { .. }) {
                        let j = choose|j: int|
                            0 <= j < t.len() && r2 == (ExprView::Ident {
                                name: (#[trigger] t[j]).shadow,
                            });
                        lemma_shadow_name_not_looked_up(
                            t,
                            j,
                            ident_name(l2)->Some_0,
                            ident_name(r2)->Some_0,
                        );
                    }
                }
            }
        },
        ExprView::Assign { op: _, target, value } => {
            lemma_subst_complete_expr(*target, t);
            lemma_subst_complete_expr(*value, t);
        },
        ExprView::Member { object, index } => {
            lemma_subst_complete_expr(*object, t);
            lemma_subst_complete_expr(*index, t);
        },
        ExprView::StaticMember { object, property: _ } => {
            lemma_subst_complete_expr(*object, t);
        },
        ExprView::Call { callee, args } => {
            lemma_subst_complete_expr(*callee, t);
            lemma_subst_complete_exprs(args, t);
        },
        ExprView::New { callee, args } => {
            lemma_subst_complete_expr(*callee, t);
            lemma_subst_complete_exprs(args, t);
        },
        ExprView::Update { op: _, prefix: _, target } => {
            lemma_subst_complete_expr(*target, t);
        },
        _ => {},
    }
}

proof fn lemma_lookup_is_shadow(t: Seq<ModEntryView>, l: Seq<char>, r: Seq<char>)
    requires
        table_lookup(t, l, r) is Some,
    ensures
        exists|j: int|
            0 <= j < t.len() && table_lookup(t, l, r)->Some_0 == (#[trigger] t[j]).shadow,
    decreases t,
{
    if t.len() > 0 {
        if t[0].num == l && t[0].den == r {
            assert(table_lookup(t, l, r)->Some_0 == t[0].shadow);
        } else {
            lemma_lookup_is_shadow(t.drop_first(), l, r);
            let j = choose|j: int|
                0 <= j < t.drop_first().len() && table_lookup(t.drop_first(), l, r)->Some_0 == (
                #[trigger] t.drop_first()[j]).shadow;
            assert(t[j + 1] == t.drop_first()[j]);
        }
    }
}

proof fn lemma_subst_complete_exprs(s: Seq<ExprView>, t: Seq<ModEntryView>)
    requires
        shadows_fresh(t),
    ensures
        !exprs_have_pair(modulo_subst_exprs(s, t), t),
    decreases s, 0nat,
{
    if s.len() > 0 {
        lemma_subst_complete_expr(s[0], t);
        lemma_subst_complete_exprs(s.drop_first(), t);
        let r = modulo_subst_exprs(s, t);
        assert(r[0] == modulo_subst_expr(s[0], t));
        assert(r.drop_first() =~= modulo_subst_exprs(s.drop_first(), t));
    }
}

proof fn lemma_subst_complete_decls(s: Seq<DeclView>, t: Seq<ModEntryView>)
    requires
        shadows_fresh(t),
    ensures
        !decls_have_pair(modulo_subst_decls(s, t), t),
    decreases s, 0nat,
{
    if s.len() > 0 {
        match s[0].init {
            Some(e) => lemma_subst_complete_expr(e, t),
            None => {},
        }
        lemma_subst_complete_decls(s.drop_first(), t);
        let r = modulo_subst_decls(s, t);
        assert(r.drop_first() =~= modulo_subst_decls(s.drop_first(), t));
    }
}

proof fn lemma_subst_complete_stmt(s: StmtView, t: Seq<ModEntryView>)
    requires
        shadows_fresh(t),
    ensures
        !stmt_has_pair(modulo_subst_stmt(s, t), t),
    decreases s, 1nat,
{
    match s {
        StmtView::Block { body } => {
            lemma_subst_complete_stmts(body, t);
        },
        StmtView::Expr { expr } => {
            lemma_subst_complete_expr(expr, t);
        },
        StmtView::If { test, consequent } => {
            lemma_subst_complete_expr(test, t);
            lemma_subst_complete_stmt(*consequent, t);
        },
        StmtView::For { init, test, update, body } => {
            match init {
                Some(ds) => lemma_subst_complete_decls(ds, t),
                None => {},
            }
            match test {
                Some(e) => lemma_subst_complete_expr(e, t),
                None => {},
            }
            match update {
                Some(e) => lemma_subst_complete_expr(e, t),
                None => {},
            }
            lemma_subst_complete_stmt(*body, t);
        },
        StmtView::VarDecl { decls } => {
            lemma_subst_complete_decls(decls, t);
        },
        _ => {},
    }
}

proof fn lemma_subst_complete_stmts(s: Seq<StmtView>, t: Seq<ModEntryView>)
    requires
        shadows_fresh(t),
    ensures
        !stmts_have_pair(modulo_subst_stmts(s, t), t),
    decreases s, 0nat,
{
    if s.len() > 0 {
        lemma_subst_complete_stmt(s[0], t);
        lemma_subst_complete_stmts(s.drop_first(), t);
        let r = modulo_subst_stmts(s, t);
        assert(r[0] == modulo_subst_stmt(s[0], t));
        assert(r.drop_first() =~= modulo_subst_stmts(s.drop_first(), t));
    }
}

/// The substitution is complete: provided the shadow names collide with no
/// numerator or denominator name in the table (they are assumed, unchecked,
/// not to collide with user identifiers), the program the pass leaves behind
/// holds no remainder expression over a replaced name pair anywhere.
pub proof fn lemma_pass_leaves_no_matched_remainder(p: Seq<StmtView>)
    requires
        shadows_fresh(modulo_entries_stmts(p)),
    ensures
        !stmts_have_pair(modulo_pass(p), modulo_entries_stmts(p)),
{
    lemma_subst_complete_stmts(modulo_rewrite_stmts(p), modulo_entries_stmts(p));
}

/// A program in which no counting loop holds a remainder of its own
/// induction variable is left exactly as it was by the whole pass: no
/// shadow variable is introduced and no expression is replaced.
pub proof fn lemma_no_match_no_change(p: Seq<StmtView>)
    requires
        no_mod_loops_stmts(p),
    ensures
        modulo_pass(p) == p,
{
    lemma_no_match_no_entries_stmts(p);
    lemma_subst_empty_stmts(p);
}

} // verus!
