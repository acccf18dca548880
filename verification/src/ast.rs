use vstd::prelude::*;

verus! {

/// Binary operators of the source subset. Strict and loose (in)equality are
/// both modeled; the generator renders them identically on purpose.
#[derive(Clone, Copy, PartialEq, Eq, Structural, Debug)]
pub enum BinOp {
    Equality,
    Inequality,
    LessThan,
    LessEqualThan,
    GreaterThan,
    GreaterEqualThan,
    In,
    Instanceof,
    ShiftLeft,
    ShiftRight,
    ShiftRightZeroFill,
    Addition,
    Subtraction,
    Multiplication,
    Division,
    Remainder,
    BitwiseAnd,
    BitwiseOr,
    BitwiseXor,
    StrictEquality,
    StrictInequality,
    Exponential,
}

/// Assignment operators. Only `=` and `+=` are supported by the generator;
/// every other source operator is carried as `Other` and rejected there.
#[derive(Clone, Copy, PartialEq, Eq, Structural, Debug)]
pub enum AssignOp {
    Assign,
    AddAssign,
    Other,
}

/// Update operators. Only postfix `++` is supported by the generator.
#[derive(Clone, Copy, PartialEq, Eq, Structural, Debug)]
pub enum UpdateOp {
    Increment,
    Decrement,
}

/// An expression of the modeled source subset. Unmodeled source expressions
/// arrive as `Unsupported`, carrying a short description of their kind.
#[allow(inconsistent_fields)]
pub enum Expr {
    Num { value: u64 },
    Ident { name: String },
    Binary { op: BinOp, left: Box<Expr>, right: Box<Expr> },
    Assign { op: AssignOp, target: Box<Expr>, value: Box<Expr> },
    Member { object: Box<Expr>, index: Box<Expr> },
    StaticMember { object: Box<Expr>, property: String },
    Call { callee: Box<Expr>, args: Vec<Expr> },
    New { callee: Box<Expr>, args: Vec<Expr> },
    Update { op: UpdateOp, prefix: bool, target: Box<Expr> },
    Unsupported { kind: String },
}

/// One declarator of a variable declaration: a simple name and an optional
/// initializer.
pub struct Declarator {
    pub name: String,
    pub init: Option<Expr>,
}

/// A statement of the modeled source subset. Unmodeled source statements
/// arrive as `Unsupported`; `Empty` stands for the source forms with no
/// observable effect.
#[allow(inconsistent_fields)]
pub enum Stmt {
    Block { body: Vec<Stmt> },
    Expr { expr: Expr },
    If { test: Expr, consequent: Box<Stmt> },
    For {
        init: Option<Vec<Declarator>>,
        test: Option<Expr>,
        update: Option<Expr>,
        body: Box<Stmt>,
    },
    VarDecl { decls: Vec<Declarator> },
    Empty,
    Unsupported { kind: String },
}

/// A whole program: its top-level statements in order.
pub struct Program {
    pub body: Vec<Stmt>,
}

/// Mathematical model of an expression: names are character sequences,
/// argument lists are sequences.
#[allow(inconsistent_fields)]
pub enum ExprView {
    Num { value: nat },
    Ident { name: Seq<char> },
    Binary { op: BinOp, left: Box<ExprView>, right: Box<ExprView> },
    Assign { op: AssignOp, target: Box<ExprView>, value: Box<ExprView> },
    Member { object: Box<ExprView>, index: Box<ExprView> },
    StaticMember { object: Box<ExprView>, property: Seq<char> },
    Call { callee: Box<ExprView>, args: Seq<ExprView> },
    New { callee: Box<ExprView>, args: Seq<ExprView> },
    Update { op: UpdateOp, prefix: bool, target: Box<ExprView> },
    Unsupported { kind: Seq<char> },
}

/// Mathematical model of a declarator.
pub struct DeclView {
    pub name: Seq<char>,
    pub init: Option<ExprView>,
}

/// Mathematical model of a statement.
#[allow(inconsistent_fields)]
pub enum StmtView {
    Block { body: Seq<StmtView> },
    Expr { expr: ExprView },
    If { test: ExprView, consequent: Box<StmtView> },
    For {
        init: Option<Seq<DeclView>>,
        test: Option<ExprView>,
        update: Option<ExprView>,
        body: Box<StmtView>,
    },
    VarDecl { decls: Seq<DeclView> },
    Empty,
    Unsupported { kind: Seq<char> },
}

pub open spec fn expr_view(e: Expr) -> ExprView
    decreases e,
{
    match e {
        Expr::Num { value } => ExprView::Num { value: value as nat },
        Expr::Ident { name } => ExprView::Ident { name: name@ },
        Expr::Binary { op, left, right } => ExprView::Binary {
            op,
            left: Box::new(expr_view(*left)),
            right: Box::new(expr_view(*right)),
        },
        Expr::Assign { op, target, value } => ExprView::Assign {
            op,
            target: Box::new(expr_view(*target)),
            value: Box::new(expr_view(*value)),
        },
        Expr::Member { object, index } => ExprView::Member {
            object: Box::new(expr_view(*object)),
            index: Box::new(expr_view(*index)),
        },
        Expr::StaticMember { object, property } => ExprView::StaticMember {
            object: Box::new(expr_view(*object)),
            property: property@,
        },
        Expr::Call { callee, args } => ExprView::Call {
            callee: Box::new(expr_view(*callee)),
            args: exprs_view(args@),
        },
        Expr::New { callee, args } => ExprView::New {
            callee: Box::new(expr_view(*callee)),
            args: exprs_view(args@),
        },
        Expr::Update { op, prefix, target } => ExprView::Update {
            op,
            prefix,
            target: Box::new(expr_view(*target)),
        },
        Expr::Unsupported { kind } => ExprView::Unsupported { kind: kind@ },
    }
}

pub open spec fn exprs_view(s: Seq<Expr>) -> Seq<ExprView>
    decreases s,
{
    if s.len() == 0 {
        Seq::empty()
    } else {
        seq![expr_view(s[0])] + exprs_view(s.drop_first())
    }
}

pub open spec fn decl_view(d: Declarator) -> DeclView {
    DeclView {
        name: d.name@,
        init: match d.init {
            Option::Some(e) => Option::Some(expr_view(e)),
            Option::None => Option::None,
        },
    }
}

pub open spec fn decls_view(s: Seq<Declarator>) -> Seq<DeclView>
    decreases s,
{
    if s.len() == 0 {
        Seq::empty()
    } else {
        seq![decl_view(s[0])] + decls_view(s.drop_first())
    }
}

pub open spec fn stmt_view(s: Stmt) -> StmtView
    decreases s,
{
    match s {
        Stmt::Block { body } => StmtView::Block { body: stmts_view(body@) },
        Stmt::Expr { expr } => StmtView::Expr { expr: expr_view(expr) },
        Stmt::If { test, consequent } => StmtView::If {
            test: expr_view(test),
            consequent: Box::new(stmt_view(*consequent)),
        },
        Stmt::For { init, test, update, body } => StmtView::For {
            init: match init {
                Option::Some(ds) => Option::Some(decls_view(ds@)),
                Option::None => Option::None,
            },
            test: match test {
                Option::Some(e) => Option::Some(expr_view(e)),
                Option::None => Option::None,
            },
            update: match update {
                Option::Some(e) => Option::Some(expr_view(e)),
                Option::None => Option::None,
            },
            body: Box::new(stmt_view(*body)),
        },
        Stmt::VarDecl { decls } => StmtView::VarDecl { decls: decls_view(decls@) },
        Stmt::Empty => StmtView::Empty,
        Stmt::Unsupported { kind } => StmtView::Unsupported { kind: kind@ },
    }
}

pub open spec fn stmts_view(s: Seq<Stmt>) -> Seq<StmtView>
    decreases s,
{
    if s.len() == 0 {
        Seq::empty()
    } else {
        seq![stmt_view(s[0])] + stmts_view(s.drop_first())
    }
}

impl View for Expr {
    type V = ExprView;

    open spec fn view(&self) -> ExprView {
        expr_view(*self)
    }
}

impl View for Declarator {
    type V = DeclView;

    open spec fn view(&self) -> DeclView {
        decl_view(*self)
    }
}

impl View for Stmt {
    type V = StmtView;

    open spec fn view(&self) -> StmtView {
        stmt_view(*self)
    }
}

impl View for Program {
    type V = Seq<StmtView>;

    open spec fn view(&self) -> Seq<StmtView> {
        stmts_view(self.body@)
    }
}

/// The name of a simple identifier expression, if the expression is one.
pub open spec fn ident_name(e: ExprView) -> Option<Seq<char>> {
    match e {
        ExprView::Ident { name } => Some(name),
        _ => None,
    }
}

/// Model of an optional name.
pub open spec fn opt_name_view(o: Option<String>) -> Option<Seq<char>> {
    match o {
        Some(n) => Some(n@),
        None => None,
    }
}

/// The name under a simple identifier expression, if the expression is one.
pub fn get_ident(e: &Expr) -> (r: Option<&String>)
    ensures
        match r {
            Some(n) => ident_name(e@) == Some(n@),
            None => ident_name(e@) is None,
        },
{
    match e {
        Expr::Ident { name } => Some(name),
        _ => None,
    }
}

/// A structural copy of an expression, equal under the view.
pub fn clone_expr(e: &Expr) -> (r: Expr)
    ensures
        r@ == e@,
    decreases *e, 1nat,
{
    match e {
        Expr::Num { value } => Expr::Num { value: *value },
        Expr::Ident { name } => Expr::Ident { name: name.clone() },
        Expr::Binary { op, left, right } => Expr::Binary {
            op: *op,
            left: Box::new(clone_expr(&**left)),
            right: Box::new(clone_expr(&**right)),
        },
        Expr::Assign { op, target, value } => Expr::Assign {
            op: *op,
            target: Box::new(clone_expr(&**target)),
            value: Box::new(clone_expr(&**value)),
        },
        Expr::Member { object, index } => Expr::Member {
            object: Box::new(clone_expr(&**object)),
            index: Box::new(clone_expr(&**index)),
        },
        Expr::StaticMember { object, property } => Expr::StaticMember {
            object: Box::new(clone_expr(&**object)),
            property: property.clone(),
        },
        Expr::Call { callee, args } => {
            proof {
                vstd::std_specs::vec::axiom_vec_decreases_to_view::<Expr>(*args);
            }
            Expr::Call {
                callee: Box::new(clone_expr(&**callee)),
                args: clone_exprs(args.as_slice()),
            }
        },
        Expr::New { callee, args } => {
            proof {
                vstd::std_specs::vec::axiom_vec_decreases_to_view::<Expr>(*args);
            }
            Expr::New {
                callee: Box::new(clone_expr(&**callee)),
                args: clone_exprs(args.as_slice()),
            }
        },
        Expr::Update { op, prefix, target } => Expr::Update {
            op: *op,
            prefix: *prefix,
            target: Box::new(clone_expr(&**target)),
        },
        Expr::Unsupported { kind } => Expr::Unsupported { kind: kind.clone() },
    }
}

/// A structural copy of an expression sequence, equal under the view.
pub fn clone_exprs(s: &[Expr]) -> (r: Vec<Expr>)
    ensures
        exprs_view(r@) == exprs_view(s@),
        r@.len() == s@.len(),
    decreases s@, 0nat,
{
    if s.len() == 0 {
        let r: Vec<Expr> = Vec::new();
        proof {
            assert(exprs_view(r@) =~= exprs_view(s@));
        }
        r
    } else {
        let head = clone_expr(vstd::slice::slice_index_get(s, 0));
        proof {
            vstd::seq::axiom_seq_index_decreases(s@, 0);
        }
        let rest = vstd::slice::slice_subrange(s, 1, s.len());
        let mut r = clone_exprs(rest);
        let ghost tail = r@;
        r.insert(0, head);
        proof {
            assert(s@.drop_first() =~= rest@);
            assert(r@[0] == head);
            assert(r@.drop_first() =~= tail);
            assert(exprs_view(r@) =~= exprs_view(s@));
        }
        r
    }
}

/// A structural copy of a declarator, equal under the view.
pub fn clone_decl(d: &Declarator) -> (r: Declarator)
    ensures
        r@ == d@,
{
    Declarator {
        name: d.name.clone(),
        init: match &d.init {
            Some(e) => Some(clone_expr(e)),
            None => None,
        },
    }
}

/// A structural copy of a declarator sequence, equal under the view.
pub fn clone_decls(s: &[Declarator]) -> (r: Vec<Declarator>)
    ensures
        decls_view(r@) == decls_view(s@),
        r@.len() == s@.len(),
    decreases s@,
{
    if s.len() == 0 {
        let r: Vec<Declarator> = Vec::new();
        proof {
            assert(decls_view(r@) =~= decls_view(s@));
        }
        r
    } else {
        let head = clone_decl(vstd::slice::slice_index_get(s, 0));
        let rest = vstd::slice::slice_subrange(s, 1, s.len());
        let mut r = clone_decls(rest);
        let ghost tail = r@;
        r.insert(0, head);
        proof {
            assert(s@.drop_first() =~= rest@);
            assert(r@[0] == head);
            assert(r@.drop_first() =~= tail);
            assert(decls_view(r@) =~= decls_view(s@));
        }
        r
    }
}

/// The view of a sequence of declarators has the same length, element by
/// element.
pub proof fn lemma_decls_view_len(s: Seq<Declarator>)
    ensures
        decls_view(s).len() == s.len(),
        forall|i: int| 0 <= i < s.len() ==> decls_view(s)[i] == decl_view(s[i]),
    decreases s,
{
    if s.len() > 0 {
        lemma_decls_view_len(s.drop_first());
    }
}

/// The view of a sequence of statements has the same length, element by
/// element.
pub proof fn lemma_stmts_view_len(s: Seq<Stmt>)
    ensures
        stmts_view(s).len() == s.len(),
        forall|i: int| 0 <= i < s.len() ==> stmts_view(s)[i] == stmt_view(s[i]),
    decreases s,
{
    if s.len() > 0 {
        lemma_stmts_view_len(s.drop_first());
    }
}

} // verus!
