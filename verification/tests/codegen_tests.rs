use crushscript::ast::{AssignOp, BinOp, Declarator, Expr, Program, Stmt, UpdateOp};
use crushscript::codegen::Codegen;

const PRE: &str = "#include <stdio.h>\n#include <stdlib.h>\n#include <math.h>\n#include <string.h>\n#include <stdbool.h>\n#include <stdint.h>\n#include \"js.h\"\nint main(int argc, char** argv) {\n    process::setargs(argc, argv);\n";
const EPI: &str = "return 0;\n}\n\n";

fn ident(n: &str) -> Expr {
    Expr::Ident { name: n.to_string() }
}

fn num(v: u64) -> Expr {
    Expr::Num { value: v }
}

fn gen(body: Vec<Stmt>) -> Result<String, String> {
    let codegen = Codegen::new();
    codegen
        .print_program(&Program { body })
        .map_err(|e| e.construct)
}

fn gen_ok(body: Vec<Stmt>) -> String {
    gen(body).expect("generation should succeed")
}

#[test]
fn empty_program_is_preamble_and_epilogue() {
    assert_eq!(gen_ok(vec![]), format!("{}{}", PRE, EPI));
}

#[test]
fn indexed_add_assign_round_trips() {
    // a[i] += 1  ->  a[i] += 1;
    let stmt = Stmt::Expr {
        expr: Expr::Assign {
            op: AssignOp::AddAssign,
            target: Box::new(Expr::Member {
                object: Box::new(ident("a")),
                index: Box::new(ident("i")),
            }),
            value: Box::new(num(1)),
        },
    };
    assert_eq!(gen_ok(vec![stmt]), format!("{}a[i] += 1;\n{}", PRE, EPI));
}

#[test]
fn new_expression_renders_as_prefixed_constructor_call() {
    // new Foo(1, 2)  ->  js_constructor_Foo(1, 2);
    let stmt = Stmt::Expr {
        expr: Expr::New {
            callee: Box::new(ident("Foo")),
            args: vec![num(1), num(2)],
        },
    };
    assert_eq!(
        gen_ok(vec![stmt]),
        format!("{}js_constructor_Foo(1, 2);\n{}", PRE, EPI)
    );
}

#[test]
fn binary_expressions_are_fully_parenthesized() {
    let stmt = Stmt::Expr {
        expr: Expr::Binary {
            op: BinOp::Addition,
            left: Box::new(Expr::Binary {
                op: BinOp::Multiplication,
                left: Box::new(ident("x")),
                right: Box::new(num(2)),
            }),
            right: Box::new(num(7)),
        },
    };
    assert_eq!(gen_ok(vec![stmt]), format!("{}((x*2)+7);\n{}", PRE, EPI));
}

#[test]
fn strict_and_loose_equality_render_identically() {
    let mk = |op: BinOp| Stmt::Expr {
        expr: Expr::Binary {
            op,
            left: Box::new(ident("x")),
            right: Box::new(ident("y")),
        },
    };
    let loose = gen_ok(vec![mk(BinOp::Equality)]);
    let strict = gen_ok(vec![mk(BinOp::StrictEquality)]);
    assert_eq!(loose, strict);
    assert!(loose.contains("(x==y);\n"));
    let loose_ne = gen_ok(vec![mk(BinOp::Inequality)]);
    let strict_ne = gen_ok(vec![mk(BinOp::StrictInequality)]);
    assert_eq!(loose_ne, strict_ne);
}

#[test]
fn static_member_uses_scope_resolution() {
    // console.log(x)  ->  console::log(x);
    let stmt = Stmt::Expr {
        expr: Expr::Call {
            callee: Box::new(Expr::StaticMember {
                object: Box::new(ident("console")),
                property: "log".to_string(),
            }),
            args: vec![ident("x")],
        },
    };
    assert_eq!(gen_ok(vec![stmt]), format!("{}console::log(x);\n{}", PRE, EPI));
}

#[test]
fn postfix_increment_renders() {
    let stmt = Stmt::Expr {
        expr: Expr::Update {
            op: UpdateOp::Increment,
            prefix: false,
            target: Box::new(ident("k")),
        },
    };
    assert_eq!(gen_ok(vec![stmt]), format!("{}k++;\n{}", PRE, EPI));
}

#[test]
fn numbers_render_in_decimal() {
    let stmt = Stmt::Expr {
        expr: Expr::Call {
            callee: Box::new(ident("f")),
            args: vec![num(0), num(10), num(12345)],
        },
    };
    assert_eq!(gen_ok(vec![stmt]), format!("{}f(0, 10, 12345);\n{}", PRE, EPI));
}

#[test]
fn if_statement_renders_braced() {
    let stmt = Stmt::If {
        test: Expr::Binary {
            op: BinOp::GreaterThan,
            left: Box::new(ident("x")),
            right: Box::new(num(0)),
        },
        consequent: Box::new(Stmt::Expr {
            expr: Expr::Assign {
                op: AssignOp::Assign,
                target: Box::new(ident("x")),
                value: Box::new(num(0)),
            },
        }),
    };
    assert_eq!(
        gen_ok(vec![stmt]),
        format!("{}if ((x>0)) {{\n    x = 0;\n}}\n{}", PRE, EPI)
    );
}

#[test]
fn variable_declaration_renders_type_inferred() {
    let stmt = Stmt::VarDecl {
        decls: vec![
            Declarator { name: "a".to_string(), init: Some(num(5)) },
            Declarator { name: "b".to_string(), init: None },
        ],
    };
    assert_eq!(gen_ok(vec![stmt]), format!("{}auto a = 5;\nauto b;\n{}", PRE, EPI));
}

#[test]
fn for_loop_desugars_into_scoped_while() {
    // for (let i = 0; i < 3; i++) { f(i); }
    let stmt = Stmt::For {
        init: Some(vec![Declarator { name: "i".to_string(), init: Some(num(0)) }]),
        test: Some(Expr::Binary {
            op: BinOp::LessThan,
            left: Box::new(ident("i")),
            right: Box::new(num(3)),
        }),
        update: Some(Expr::Update {
            op: UpdateOp::Increment,
            prefix: false,
            target: Box::new(ident("i")),
        }),
        body: Box::new(Stmt::Block {
            body: vec![Stmt::Expr {
                expr: Expr::Call { callee: Box::new(ident("f")), args: vec![ident("i")] },
            }],
        }),
    };
    assert_eq!(
        gen_ok(vec![stmt]),
        format!(
            "{}{{\nauto i = 0;\nwhile ((i<3)) {{\n        f(i);\ni++;\n}}\n}}\n{}",
            PRE, EPI
        )
    );
}

#[test]
fn for_loop_without_test_renders_true() {
    let stmt = Stmt::For {
        init: None,
        test: None,
        update: None,
        body: Box::new(Stmt::Block { body: vec![] }),
    };
    assert_eq!(gen_ok(vec![stmt]), format!("{}{{\nwhile (true) {{\n}}\n}}\n{}", PRE, EPI));
}

#[test]
fn empty_statement_emits_nothing() {
    assert_eq!(gen_ok(vec![Stmt::Empty]), format!("{}{}", PRE, EPI));
}

#[test]
fn unsupported_statement_is_a_fatal_error() {
    let out = gen(vec![
        Stmt::Expr { expr: ident("x") },
        Stmt::Unsupported { kind: "while statement".to_string() },
    ]);
    assert_eq!(out, Err("while statement".to_string()));
}

#[test]
fn unsupported_assignment_operator_is_a_fatal_error() {
    let stmt = Stmt::Expr {
        expr: Expr::Assign {
            op: AssignOp::Other,
            target: Box::new(ident("x")),
            value: Box::new(num(1)),
        },
    };
    assert_eq!(gen(vec![stmt]), Err("assignment operator".to_string()));
}

#[test]
fn prefix_increment_is_a_fatal_error() {
    let stmt = Stmt::Expr {
        expr: Expr::Update {
            op: UpdateOp::Increment,
            prefix: true,
            target: Box::new(ident("x")),
        },
    };
    assert_eq!(gen(vec![stmt]), Err("update operator".to_string()));
}

#[test]
fn loop_declarator_without_initializer_is_a_fatal_error() {
    let stmt = Stmt::For {
        init: Some(vec![Declarator { name: "i".to_string(), init: None }]),
        test: None,
        update: None,
        body: Box::new(Stmt::Block { body: vec![] }),
    };
    assert_eq!(gen(vec![stmt]), Err("loop declarator without initializer".to_string()));
}

#[test]
fn generation_is_deterministic() {
    let build = || {
        vec![Stmt::For {
            init: Some(vec![Declarator { name: "i".to_string(), init: Some(num(0)) }]),
            test: Some(Expr::Binary {
                op: BinOp::LessThan,
                left: Box::new(ident("i")),
                right: Box::new(num(9)),
            }),
            update: Some(Expr::Update {
                op: UpdateOp::Increment,
                prefix: false,
                target: Box::new(ident("i")),
            }),
            body: Box::new(Stmt::Block {
                body: vec![Stmt::Expr {
                    expr: Expr::Call {
                        callee: Box::new(ident("g")),
                        args: vec![ident("i")],
                    },
                }],
            }),
        }]
    };
    let first = gen_ok(build());
    let second = gen_ok(build());
    assert_eq!(first.into_bytes(), second.into_bytes());
}
