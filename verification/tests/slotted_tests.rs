use crushscript::ast::{AssignOp, BinOp, Declarator, Expr, Program, Stmt, UpdateOp};
use crushscript::codegen::Codegen;
use crushscript::slotted_array_read_optimization::{
    FindSlottedRead, SlottedArrayReadOptimization,
};

fn ident(n: &str) -> Expr {
    Expr::Ident { name: n.to_string() }
}

fn num(v: u64) -> Expr {
    Expr::Num { value: v }
}

fn member(a: &str, i: &str) -> Expr {
    Expr::Member { object: Box::new(ident(a)), index: Box::new(ident(i)) }
}

fn assign(target: Expr, value: Expr) -> Stmt {
    Stmt::Expr {
        expr: Expr::Assign { op: AssignOp::Assign, target: Box::new(target), value: Box::new(value) },
    }
}

fn counting_loop(var: &str, bound: &str, body: Vec<Stmt>) -> Stmt {
    Stmt::For {
        init: Some(vec![Declarator { name: var.to_string(), init: Some(num(0)) }]),
        test: Some(Expr::Binary {
            op: BinOp::LessThan,
            left: Box::new(ident(var)),
            right: Box::new(ident(bound)),
        }),
        update: Some(Expr::Update {
            op: UpdateOp::Increment,
            prefix: false,
            target: Box::new(ident(var)),
        }),
        body: Box::new(Stmt::Block { body }),
    }
}

fn gen(p: &Program) -> String {
    Codegen::new().print_program(p).expect("generation should succeed")
}

fn slotted_program(second_read_index: &str) -> Program {
    // for (let i = 0; i < n; i++) { sum = A[i]; }
    // x = A[<second_read_index>];
    Program {
        body: vec![
            counting_loop("i", "n", vec![assign(ident("sum"), member("A", "i"))]),
            assign(ident("x"), member("A", second_read_index)),
        ],
    }
}

#[test]
fn slotted_rewrite_fires_on_single_boundary_read() {
    let mut program = slotted_program("r");
    SlottedArrayReadOptimization::new().visit_program(&mut program);
    let out = gen(&program);
    // initializer now starts at the boundary variable, and the loop runs
    // while the induction variable differs from it
    assert!(out.contains("auto i = r;"), "got:\n{}", out);
    assert!(out.contains("while ((i!=r))"), "got:\n{}", out);
}

#[test]
fn two_differing_boundary_reads_suppress_the_rewrite() {
    let mut program = Program {
        body: vec![
            counting_loop("i", "n", vec![assign(ident("sum"), member("A", "i"))]),
            assign(ident("x"), member("A", "r1")),
            assign(ident("y"), member("A", "r2")),
        ],
    };
    SlottedArrayReadOptimization::new().visit_program(&mut program);
    let out = gen(&program);
    assert!(out.contains("auto i = 0;"), "got:\n{}", out);
    assert!(out.contains("while ((i<n))"), "got:\n{}", out);
}

#[test]
fn two_differing_loop_indexed_uses_suppress_the_rewrite() {
    let mut program = Program {
        body: vec![
            counting_loop("i", "n", vec![assign(ident("sum"), member("A", "i"))]),
            counting_loop("j", "n", vec![assign(ident("sum"), member("A", "j"))]),
            assign(ident("x"), member("A", "r")),
        ],
    };
    SlottedArrayReadOptimization::new().visit_program(&mut program);
    let out = gen(&program);
    assert!(out.contains("auto i = 0;"), "got:\n{}", out);
    assert!(out.contains("while ((i<n))"), "got:\n{}", out);
    assert!(out.contains("auto j = 0;"), "got:\n{}", out);
    assert!(out.contains("while ((j<n))"), "got:\n{}", out);
}

#[test]
fn array_without_boundary_read_is_left_alone() {
    let mut program = Program {
        body: vec![counting_loop("i", "n", vec![assign(ident("sum"), member("A", "i"))])],
    };
    SlottedArrayReadOptimization::new().visit_program(&mut program);
    let out = gen(&program);
    assert!(out.contains("auto i = 0;"), "got:\n{}", out);
    assert!(out.contains("while ((i<n))"), "got:\n{}", out);
}

#[test]
fn find_slotted_read_builds_candidates() {
    let program = slotted_program("r");
    let mut finder = FindSlottedRead::new();
    finder.visit_program(&program);
    assert_eq!(finder.candidates.len(), 1);
    let c = &finder.candidates[0];
    assert_eq!(c.array, "A");
    assert_eq!(c.loop_index, "i");
    assert_eq!(c.read_index, Some("r".to_string()));
    assert!(c.valid);
}

#[test]
fn find_slotted_read_invalidates_on_conflict() {
    let mut program = slotted_program("r1");
    program.body.push(assign(ident("y"), member("A", "r2")));
    let mut finder = FindSlottedRead::new();
    finder.visit_program(&program);
    assert_eq!(finder.candidates.len(), 1);
    assert!(!finder.candidates[0].valid);
}

#[test]
fn untouched_statements_survive_the_pass_unchanged() {
    let build = || Program {
        body: vec![
            Stmt::VarDecl {
                decls: vec![Declarator { name: "n".to_string(), init: Some(num(8)) }],
            },
            Stmt::If {
                test: Expr::Binary {
                    op: BinOp::GreaterThan,
                    left: Box::new(ident("n")),
                    right: Box::new(num(0)),
                },
                consequent: Box::new(assign(ident("n"), num(0))),
            },
            Stmt::Empty,
        ],
    };
    let before = gen(&build());
    let mut program = build();
    SlottedArrayReadOptimization::new().visit_program(&mut program);
    assert_eq!(before, gen(&program));
}
