use shitty_vm::parser::parse_from_str;
use shitty_vm::script::ast::Arguments;
use shitty_vm::script::ast::Block;
use shitty_vm::script::ast::Expression;
use shitty_vm::script::ast::FunctionArguments;
use shitty_vm::script::ast::FunctionCall;
use shitty_vm::script::ast::FunctionDef;
use shitty_vm::script::ast::Ident;
use shitty_vm::script::ast::Integer;
use shitty_vm::script::ast::Line;
use shitty_vm::script::ast::PointerRef;
use shitty_vm::script::ast::Program;
use shitty_vm::script::ast::ReturnStatement;
use shitty_vm::script::ast::Script;
use shitty_vm::script::ast::Statement;
use shitty_vm::script::ast::StringLiteral;
use shitty_vm::script::ast::Term;
use shitty_vm::script::ast::EOI;
use shitty_vm::script::convert::script_to_program;
use shitty_vm::script::parser::parse;

fn ident(name: &str) -> Ident {
    Ident { ident: name.to_string() }
}

fn function(name: &str, params: Option<Vec<&str>>, statements: Vec<Statement>) -> Line {
    Line::FunctionDef(FunctionDef {
        ident: ident(name),
        params: params.map(|names| Arguments { args: names.into_iter().map(ident).collect() }),
        body: Block { statements },
    })
}

fn returning(item: Term) -> Statement {
    Statement::Return(ReturnStatement { item })
}

fn number(value: u64) -> Term {
    Term::Number(Integer { value })
}

fn text(value: &str) -> Term {
    Term::String(StringLiteral { value: value.to_string() })
}

fn call(name: &str, arguments: Option<Vec<Expression>>) -> FunctionCall {
    FunctionCall {
        ident: ident(name),
        params: arguments.map(|arguments| FunctionArguments { arguments }),
    }
}

fn script_of(lines: Vec<Line>) -> Script {
    Script { program: Program { lines }, _eoi: EOI {} }
}

#[test]
fn convert_script_to_commands() {
    let mut script = Script {
        program: Program {
            lines: vec![
                Line::FunctionDef(FunctionDef {
                    ident: Ident {
                        ident: "foo".to_string(),
                    },
                    params: None,
                    body: Block {
                        statements: vec![Statement::Return(ReturnStatement {
                            item: Term::Number(Integer { value: 1234 }),
                        })],
                    },
                }),
                Line::FunctionDef(FunctionDef {
                    ident: Ident {
                        ident: "bar".to_string(),
                    },
                    params: None,
                    body: Block {
                        statements: vec![Statement::Return(ReturnStatement {
                            item: Term::String(StringLiteral {
                                value: "hallo".to_string(),
                            }),
                        })],
                    },
                }),
                Line::FunctionDef(FunctionDef {
                    ident: Ident {
                        ident: "echo".to_string(),
                    },
                    params: Some(Arguments {
                        args: vec![Ident {
                            ident: "i".to_string(),
                        }],
                    }),
                    body: Block {
                        statements: vec![Statement::Return(ReturnStatement {
                            item: Term::Ident(Ident {
                                ident: "i".to_string(),
                            }),
                        })],
                    },
                }),
                Line::FunctionCall(FunctionCall {
                    ident: Ident {
                        ident: "echo".to_string(),
                    },
                    params: Some(FunctionArguments {
                        arguments: vec![Expression::Term(Term::Number(Integer { value: 1234 }))],
                    }),
                }),
            ],
        },
        _eoi: EOI {},
    };

    let program = script_to_program(&mut script).unwrap();

    println!("{}", shitty_vm::format::format_program(&program));

    let expected_program = r#"b :.main
bar_0: db "hallo"
foo:
    push #1234
    ret
bar:
    push :bar_0
    ret
echo:
    pop r1
    push r1
    ret
.main:
    push #1234
    call :echo
    pop r0
    "#;

    let expected_program = parse_from_str(expected_program).unwrap();

    assert_eq!(expected_program, program);
}

#[test]
fn string_literals_are_hoisted_in_place() {
    let mut script = script_of(vec![function(
        "f",
        None,
        vec![
            Statement::Expression(Expression::FunctionCall(call(
                "g",
                Some(vec![Expression::Term(text("a")), Expression::Term(text("b"))]),
            ))),
            returning(text("c")),
        ],
    )]);
    script_to_program(&mut script).unwrap();
    assert_eq!(
        script,
        script_of(vec![function(
            "f",
            None,
            vec![
                Statement::Expression(Expression::FunctionCall(call(
                    "g",
                    Some(vec![
                        Expression::Term(Term::PointerRef(PointerRef { ident: "f_0".to_string() })),
                        Expression::Term(Term::PointerRef(PointerRef { ident: "f_1".to_string() })),
                    ]),
                ))),
                returning(Term::PointerRef(PointerRef { ident: "f_2".to_string() })),
            ],
        )])
    );
}

#[test]
fn add_heap_values_lists_the_literals() {
    let block = Block {
        statements: vec![
            returning(text("x")),
            returning(number(1)),
            Statement::Expression(Expression::FunctionCall(call(
                "g",
                Some(vec![
                    Expression::Term(Term::Ident(ident("a"))),
                    Expression::Term(text("y")),
                    Expression::FunctionCall(call("h", Some(vec![Expression::Term(text("z"))]))),
                ]),
            ))),
        ],
    };
    let given = block.clone();
    let mut list = Vec::new();
    block.add_heap_values(&mut list);
    assert_eq!(list, vec![&text("x"), &text("y"), &text("z")]);
    match &block.statements[0] {
        Statement::Return(statement) => assert!(std::ptr::eq(list[0], &statement.item)),
        _ => unreachable!(),
    }
    assert_eq!(block, given);

    let term = text("t");
    let mut list = vec![&term];
    term.add_heap_values(&mut list);
    assert_eq!(list.len(), 2);
    assert!(std::ptr::eq(list[1], &term));
    assert_eq!(term, text("t"));
    for other in [number(3), Term::Ident(ident("i")), Term::PointerRef(PointerRef { ident: "p".to_string() })] {
        let mut list = Vec::new();
        other.add_heap_values(&mut list);
        assert!(list.is_empty());
    }
}

#[test]
fn hoist_puts_references_where_the_literals_stood() {
    let mut block = Block {
        statements: vec![returning(text("x")), returning(number(1)), returning(text("y"))],
    };
    assert_eq!(block.hoist("name", 0), 2);
    assert_eq!(
        block,
        Block {
            statements: vec![
                returning(Term::PointerRef(PointerRef { ident: "name_0".to_string() })),
                returning(number(1)),
                returning(Term::PointerRef(PointerRef { ident: "name_1".to_string() })),
            ],
        }
    );
    let mut term = text("z");
    assert_eq!(term.hoist("t", 2), 3);
    assert_eq!(term, Term::PointerRef(PointerRef { ident: "t_2".to_string() }));
    let mut term = number(5);
    assert_eq!(term.hoist("t", 2), 2);
    assert_eq!(term, number(5));
}

#[test]
fn compile_errors() {
    let mut unknown = script_of(vec![function("f", None, vec![returning(Term::Ident(ident("x")))])]);
    assert_eq!(script_to_program(&mut unknown), Err("variable not found".to_string()));

    let mut nested = script_of(vec![Line::FunctionCall(call(
        "f",
        Some(vec![Expression::FunctionCall(call("g", None))]),
    ))]);
    assert_eq!(
        script_to_program(&mut nested),
        Err("nested function calls are not supported".to_string())
    );

    let mut outside = script_of(vec![Line::FunctionCall(call(
        "f",
        Some(vec![Expression::Term(text("s"))]),
    ))]);
    assert_eq!(
        script_to_program(&mut outside),
        Err("string literal outside of a function".to_string())
    );

    let names: Vec<String> = (0..256).map(|i| format!("p{}", i)).collect();
    let mut many = script_of(vec![function(
        "f",
        Some(names.iter().map(|name| name.as_str()).collect()),
        vec![],
    )]);
    assert_eq!(script_to_program(&mut many), Err("too many parameters".to_string()));
}

#[test]
fn a_later_function_of_the_same_name_takes_the_place_of_the_first() {
    let mut script = script_of(vec![
        function("f", None, vec![returning(number(1))]),
        function("g", None, vec![returning(number(2))]),
        function("f", None, vec![returning(number(3))]),
    ]);
    let program = script_to_program(&mut script).unwrap();
    let expected = parse_from_str("b :.main\nf:\npush #3\nret\ng:\npush #2\nret\n.main:\npop r0").unwrap();
    assert_eq!(program, expected);
}

#[test]
fn parse_simple() {
    let input = r#"
    
fn foo() {
    return 1234;
}

fn bar() {
    return "hallo";
}

fn echo(i) {
    return i;
}

echo(1234)
echo(echo(98765))
    "#;

    let syntax_tree = parse(input).unwrap();

    let expected = Script {
        program: Program {
            lines: vec![
                Line::FunctionDef(FunctionDef {
                    ident: Ident {
                        ident: "foo".to_string(),
                    },
                    params: None,
                    body: Block {
                        statements: vec![Statement::Return(ReturnStatement {
                            item: Term::Number(Integer { value: 1234 }),
                        })],
                    },
                }),
                Line::FunctionDef(FunctionDef {
                    ident: Ident {
                        ident: "bar".to_string(),
                    },
                    params: None,
                    body: Block {
                        statements: vec![Statement::Return(ReturnStatement {
                            item: Term::String(StringLiteral {
                                value: "hallo".to_string(),
                            }),
                        })],
                    },
                }),
                Line::FunctionDef(FunctionDef {
                    ident: Ident {
                        ident: "echo".to_string(),
                    },
                    params: Some(Arguments {
                        args: vec![Ident {
                            ident: "i".to_string(),
                        }],
                    }),
                    body: Block {
                        statements: vec![Statement::Return(ReturnStatement {
                            item: Term::Ident(Ident {
                                ident: "i".to_string(),
                            }),
                        })],
                    },
                }),
                Line::FunctionCall(FunctionCall {
                    ident: Ident {
                        ident: "echo".to_string(),
                    },
                    params: Some(FunctionArguments {
                        arguments: vec![Expression::Term(Term::Number(Integer { value: 1234 }))],
                    }),
                }),
                Line::FunctionCall(FunctionCall {
                    ident: Ident {
                        ident: "echo".to_string(),
                    },
                    params: Some(FunctionArguments {
                        arguments: vec![Expression::FunctionCall(FunctionCall {
                            ident: Ident {
                                ident: "echo".to_string(),
                            },
                            params: Some(FunctionArguments {
                                arguments: vec![Expression::Term(Term::Number(Integer {
                                    value: 98765,
                                }))],
                            }),
                        })],
                    }),
                }),
            ],
        },
        _eoi: EOI {},
    };

    assert_eq!(syntax_tree, expected);
}

#[test]
fn parse_statements_and_terms() {
    let script = parse("fn f(a, b_2) { g(a, \"x y\", 7); h() return b_2; }\n_x \"top\" 0042").unwrap();
    assert_eq!(
        script,
        script_of(vec![
            function(
                "f",
                Some(vec!["a", "b_2"]),
                vec![
                    Statement::Expression(Expression::FunctionCall(call(
                        "g",
                        Some(vec![
                            Expression::Term(Term::Ident(ident("a"))),
                            Expression::Term(text("x y")),
                            Expression::Term(number(7)),
                        ]),
                    ))),
                    Statement::Expression(Expression::FunctionCall(call("h", None))),
                    returning(Term::Ident(ident("b_2"))),
                ],
            ),
            Line::Term(Term::Ident(ident("_x"))),
            Line::Term(text("top")),
            Line::Term(number(42)),
        ])
    );
    assert_eq!(parse(""), Ok(script_of(vec![])));
    assert_eq!(parse(" \n\t "), Ok(script_of(vec![])));
}

#[test]
fn text_that_is_no_script() {
    for input in [
        "fn",
        "fn f",
        "fn f(",
        "fn f() {",
        "fn f() { return 1 }",
        "fn f() { return; }",
        "fn f(1) {}",
        "f(1,)",
        "f(1 2)",
        "\"open",
        "18446744073709551616",
        "f(18446744073709551616)",
        "}",
        "a ; b",
    ] {
        assert_eq!(parse(input), Err("invalid script".to_string()), "{:?}", input);
    }
    assert_eq!(parse("18446744073709551615"), Ok(script_of(vec![Line::Term(number(u64::MAX))])));
}

#[test]
fn a_later_literal_of_the_same_label_takes_the_place_of_the_first() {
    let mut script = script_of(vec![
        function("f", None, vec![returning(text("a"))]),
        function("g", None, vec![returning(text("c"))]),
        function("f", None, vec![returning(text("b"))]),
    ]);
    let program = script_to_program(&mut script).unwrap();
    let expected = parse_from_str(
        "b :.main\nf_0: db \"b\"\ng_0: db \"c\"\nf:\npush :f_0\nret\ng:\npush :g_0\nret\n.main:\npop r0",
    )
    .unwrap();
    assert_eq!(program, expected);
}

#[test]
fn of_two_parameters_with_one_name_the_later_counts() {
    let mut script = script_of(vec![function(
        "f",
        Some(vec!["a", "b", "a"]),
        vec![returning(Term::Ident(ident("a"))), returning(Term::Ident(ident("b")))],
    )]);
    let program = script_to_program(&mut script).unwrap();
    let expected = parse_from_str(
        "b :.main\nf:\npop r1\npop r2\npop r3\npush r3\nret\npush r2\nret\n.main:\npop r0",
    )
    .unwrap();
    assert_eq!(program, expected);
}

#[test]
fn calls_push_their_arguments_from_left_to_right() {
    let mut script = parse("fn f(a) { g(a, 5, \"s\"); h(); 7; } f(1)").unwrap();
    let program = script_to_program(&mut script).unwrap();
    let expected = parse_from_str(
        "b :.main\nf_0: db \"s\"\nf:\npop r1\npush r1\npush #5\npush :f_0\ncall :g\nret\ncall :h\nret\nret\n.main:\npush #1\ncall :f\npop r0",
    )
    .unwrap();
    assert_eq!(program, expected);
}
