use crushscript::ast::{BinOp, Declarator, Expr, Program, Stmt, UpdateOp};
use crushscript::codegen::Codegen;
use crushscript::running_modulo_optimization::{
    running_modulo_step, FindModuloVar, RunningModuloOptimization,
};
use crushscript::slotted_array_read_optimization::SlottedArrayReadOptimization;

const PRE: &str = "#include <stdio.h>\n#include <stdlib.h>\n#include <math.h>\n#include <string.h>\n#include <stdbool.h>\n#include <stdint.h>\n#include \"js.h\"\nint main(int argc, char** argv) {\n    process::setargs(argc, argv);\n";
const EPI: &str = "return 0;\n}\n\n";

fn ident(n: &str) -> Expr {
    Expr::Ident { name: n.to_string() }
}

fn num(v: u64) -> Expr {
    Expr::Num { value: v }
}

fn incr(n: &str) -> Expr {
    Expr::Update { op: UpdateOp::Increment, prefix: false, target: Box::new(ident(n)) }
}

fn counting_loop(var: &str, bound: u64, body: Vec<Stmt>) -> Stmt {
    Stmt::For {
        init: Some(vec![Declarator { name: var.to_string(), init: Some(num(0)) }]),
        test: Some(Expr::Binary {
            op: BinOp::LessThan,
            left: Box::new(ident(var)),
            right: Box::new(num(bound)),
        }),
        update: Some(incr(var)),
        body: Box::new(Stmt::Block { body }),
    }
}

fn log_call(arg: Expr) -> Stmt {
    Stmt::Expr {
        expr: Expr::Call {
            callee: Box::new(Expr::StaticMember {
                object: Box::new(ident("console")),
                property: "log".to_string(),
            }),
            args: vec![arg],
        },
    }
}

fn gen(p: &Program) -> String {
    Codegen::new().print_program(p).expect("generation should succeed")
}

#[test]
fn loop_without_remainder_is_left_unchanged() {
    let build = || Program {
        body: vec![counting_loop("i", 10, vec![log_call(ident("i"))])],
    };
    let before = gen(&build());
    let mut program = build();
    RunningModuloOptimization::new().visit_program(&mut program);
    let after = gen(&program);
    assert_eq!(before, after);
    assert!(!after.contains("_modulo"));
}

#[test]
fn shadow_counter_matches_remainder_over_grid() {
    for d in [1u64, 2, 3, 7] {
        for n in [0u64, 1, 2, 50] {
            let mut shadow = 0u64;
            for i in 0..n {
                // at the top of each iteration the shadow holds i % d
                assert_eq!(shadow, i % d, "d={} i={}", d, i);
                shadow = running_modulo_step(shadow, d);
            }
        }
    }
}

#[test]
fn end_to_end_modulo_loop_rewrites_and_drops_remainder() {
    // auto d = 3; for (let i = 0; i < 10; i++) { console.log(i % d); }
    let build = || Program {
        body: vec![
            Stmt::VarDecl {
                decls: vec![Declarator { name: "d".to_string(), init: Some(num(3)) }],
            },
            counting_loop(
                "i",
                10,
                vec![log_call(Expr::Binary {
                    op: BinOp::Remainder,
                    left: Box::new(ident("i")),
                    right: Box::new(ident("d")),
                })],
            ),
        ],
    };
    let mut program = build();
    SlottedArrayReadOptimization::new().visit_program(&mut program);
    RunningModuloOptimization::new().visit_program(&mut program);
    let out = gen(&program);
    let expected_body = "auto d = 3;\n{\nauto i = 0;\nauto i_modulo = 0;\nwhile ((i<10)) {\n        console::log(i_modulo);\n        i_modulo++;\n        if ((i_modulo==d)) {\n            i_modulo = 0;\n        }\ni++;\n}\n}\n";
    assert_eq!(out, format!("{}{}{}", PRE, expected_body, EPI));
    // the loop's generated text holds no remainder operator at all
    assert!(!out.contains('%'));
    assert!(out.contains("i_modulo"));
    // the shadow counter resets every 3rd iteration: the printed values are
    // 0,1,2,0,1,2,0,1,2,0
    let mut shadow = 0u64;
    let mut printed = Vec::new();
    for _ in 0..10 {
        printed.push(shadow);
        shadow = running_modulo_step(shadow, 3);
    }
    assert_eq!(printed, vec![0, 1, 2, 0, 1, 2, 0, 1, 2, 0]);
}

#[test]
fn substitution_is_program_wide() {
    // the same name pair outside the originating loop is replaced too
    let mut program = Program {
        body: vec![
            counting_loop(
                "i",
                4,
                vec![log_call(Expr::Binary {
                    op: BinOp::Remainder,
                    left: Box::new(ident("i")),
                    right: Box::new(ident("d")),
                })],
            ),
            log_call(Expr::Binary {
                op: BinOp::Remainder,
                left: Box::new(ident("i")),
                right: Box::new(ident("d")),
            }),
        ],
    };
    RunningModuloOptimization::new().visit_program(&mut program);
    let out = gen(&program);
    assert!(!out.contains('%'));
    assert!(out.ends_with(&format!("console::log(i_modulo);\n{}", EPI)));
}

#[test]
fn literal_denominator_is_not_reduced() {
    // the denominator must be a simple identifier; i % 3 stays a remainder
    let mut program = Program {
        body: vec![counting_loop(
            "i",
            10,
            vec![log_call(Expr::Binary {
                op: BinOp::Remainder,
                left: Box::new(ident("i")),
                right: Box::new(num(3)),
            })],
        )],
    };
    RunningModuloOptimization::new().visit_program(&mut program);
    let out = gen(&program);
    assert!(out.contains("(i%3)"));
    assert!(!out.contains("_modulo"));
}

#[test]
fn remainder_in_loop_test_alone_is_not_reduced() {
    // the search spans the loop body only, not the loop's own test
    let mut program = Program {
        body: vec![Stmt::For {
            init: Some(vec![Declarator { name: "i".to_string(), init: Some(num(0)) }]),
            test: Some(Expr::Binary {
                op: BinOp::LessThan,
                left: Box::new(Expr::Binary {
                    op: BinOp::Remainder,
                    left: Box::new(ident("i")),
                    right: Box::new(ident("d")),
                }),
                right: Box::new(num(5)),
            }),
            update: Some(incr("i")),
            body: Box::new(Stmt::Block { body: vec![log_call(ident("i"))] }),
        }],
    };
    RunningModuloOptimization::new().visit_program(&mut program);
    let out = gen(&program);
    assert!(!out.contains("_modulo"));
    assert!(out.contains("(i%d)"));
}

#[test]
fn remainder_inside_nested_loop_reduces_the_outer_loop() {
    let inner = counting_loop(
        "j",
        5,
        vec![Stmt::Expr {
            expr: Expr::Assign {
                op: crushscript::ast::AssignOp::Assign,
                target: Box::new(ident("x")),
                value: Box::new(Expr::Binary {
                    op: BinOp::Remainder,
                    left: Box::new(ident("i")),
                    right: Box::new(ident("d")),
                }),
            },
        }],
    );
    let mut program = Program { body: vec![counting_loop("i", 10, vec![inner])] };
    RunningModuloOptimization::new().visit_program(&mut program);
    let out = gen(&program);
    assert!(out.contains("auto i_modulo = 0;"));
    assert!(!out.contains("j_modulo"));
    assert!(out.contains("x = i_modulo;"));
    assert!(!out.contains('%'));
}

#[test]
fn find_modulo_var_records_first_denominator() {
    let body = Stmt::Block {
        body: vec![
            log_call(Expr::Binary {
                op: BinOp::Remainder,
                left: Box::new(ident("i")),
                right: Box::new(ident("d")),
            }),
            log_call(Expr::Binary {
                op: BinOp::Remainder,
                left: Box::new(ident("i")),
                right: Box::new(ident("e")),
            }),
        ],
    };
    let mut finder = FindModuloVar::new("i");
    finder.visit_statement(&body);
    assert_eq!(finder.denominator, Some("d".to_string()));
}

#[test]
fn find_modulo_var_ignores_other_numerators() {
    let body = log_call(Expr::Binary {
        op: BinOp::Remainder,
        left: Box::new(ident("j")),
        right: Box::new(ident("d")),
    });
    let mut finder = FindModuloVar::new("i");
    finder.visit_statement(&body);
    assert_eq!(finder.denominator, None);
}
