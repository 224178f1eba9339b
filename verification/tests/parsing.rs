use jamalang::parser::ast::{parse_statement, parse_type_hint, AssignmentType, Statement, Type};
use jamalang::parser::tree::{ParseNode, Rule};
use jamalang::parser::expr::{Expr, Op};
use jamalang::parser::engine::{run, Matching};
use jamalang::parser::peg::{Mark, Peg};
use jamalang::parser::{parse_ast, parse_ast_with, parse_source, ParseError, SourceFile};

fn number(text: &str) -> Expr {
    Expr::Float(text.to_string())
}

fn name(text: &str) -> Expr {
    Expr::Identifier(text.to_string())
}

fn binary(lhs: Expr, op: Op, rhs: Expr) -> Expr {
    Expr::BinOp { lhs: Box::new(lhs), op, rhs: Box::new(rhs) }
}

fn only_expr(source: &str) -> Expr {
    let mut file = parse_ast("test_file", source).expect("syntax should be valid");
    assert_eq!(file.statements.len(), 1);
    match file.statements.remove(0) {
        Statement::Expr { expr } => expr,
        other => panic!("expected an expression, found {:?}", other),
    }
}

#[test]
fn call_with_one_argument() {
    let file = parse_ast("test_file", "println(1)").expect("syntax should be valid");
    assert_eq!(file.source_file, "test_file");
    assert_eq!(
        file.statements,
        vec![Statement::Expr {
            expr: Expr::FunctionCall {
                identifier: "println".to_string(),
                parameters: vec![number("1")],
                lambda_body: None,
            }
        }]
    );
}

#[test]
fn multiplication_binds_tighter_than_addition() {
    assert_eq!(
        only_expr("1 + 2 * 3"),
        binary(number("1"), Op::Add, binary(number("2"), Op::Multiply, number("3")))
    );
    assert_eq!(
        only_expr("1 * 2 + 3"),
        binary(binary(number("1"), Op::Multiply, number("2")), Op::Add, number("3"))
    );
}

#[test]
fn operators_group_to_the_left() {
    assert_eq!(
        only_expr("a - b - c"),
        binary(binary(name("a"), Op::Subtract, name("b")), Op::Subtract, name("c"))
    );
    assert_eq!(
        only_expr("a / b % c"),
        binary(binary(name("a"), Op::Divide, name("b")), Op::Modulo, name("c"))
    );
}

#[test]
fn comparison_binds_tighter_than_addition() {
    assert_eq!(
        only_expr("a + b < c"),
        binary(name("a"), Op::Add, binary(name("b"), Op::Lt, name("c")))
    );
}

#[test]
fn type_hints() {
    assert_eq!(parse_type_hint("number"), Type::Number);
    assert_eq!(parse_type_hint(": bool"), Type::Bool);
    assert_eq!(parse_type_hint("void"), Type::Void);
    assert_eq!(parse_type_hint(": : char"), Type::Char);
    assert_eq!(parse_type_hint("thing"), Type::Custom("thing".to_string()));
    assert_eq!(parse_type_hint(":number"), Type::Custom(":number".to_string()));
    assert_eq!(
        parse_type_hint(": number[3]"),
        Type::Array { len: 3, kind: Box::new(Type::Number) }
    );
    assert_eq!(parse_type_hint("number[]"), Type::Custom("number[]".to_string()));
    assert_eq!(
        parse_type_hint("x[4294967296]"),
        Type::Custom("x[4294967296]".to_string())
    );
}

#[test]
fn syntax_error_has_a_place() {
    match parse_ast("test_file", "x = 1\ny = (2") {
        Err(ParseError::Syntax { file, position, line, column, .. }) => {
            assert_eq!(file, "test_file");
            assert_eq!(position, 12);
            assert_eq!(line, 1);
            assert_eq!(column, 6);
        }
        other => panic!("expected a syntax error, found {:?}", other),
    }
}

#[test]
fn import_needs_its_source() {
    assert_eq!(
        parse_ast("main", "import lib.jm"),
        Err(ParseError::ImportUnavailable("lib.jm".to_string()))
    );
    let imports = vec![SourceFile { path: "lib.jm".to_string(), text: "x = 1".to_string() }];
    let file = parse_ast_with("main", "import lib.jm", &imports).expect("import should resolve");
    match &file.statements[0] {
        Statement::ForeignModule(inner) => {
            assert_eq!(inner.source_file, "lib.jm");
            assert_eq!(
                inner.statements,
                vec![Statement::Assignment {
                    identifier: "x".to_string(),
                    index: None,
                    kind: AssignmentType::Assign,
                    value: number("1"),
                }]
            );
        }
        other => panic!("expected a foreign module, found {:?}", other),
    }
}

#[test]
fn imports_are_followed_as_far_as_asked() {
    let imports = vec![SourceFile { path: "a".to_string(), text: "import a".to_string() }];
    assert_eq!(parse_source("a", "import a", &imports, 40), Err(ParseError::ImportsTooDeep));
    assert_eq!(parse_source("a", "x = 1", &imports, 0), Err(ParseError::ImportsTooDeep));
    let chain: Vec<SourceFile> = (0..40)
        .map(|i| SourceFile {
            path: format!("f{}", i),
            text: if i < 39 { format!("import f{}", i + 1) } else { "x = 1".to_string() },
        })
        .collect();
    assert!(parse_ast_with("main", "import f0", &chain).is_ok());
}

fn only_statement(source: &str) -> Statement {
    let mut file = parse_ast("test_file", source).expect("syntax should be valid");
    assert_eq!(file.statements.len(), 1);
    file.statements.remove(0)
}

#[test]
fn unary_minus_and_indexing() {
    assert_eq!(
        only_expr("-a[0]"),
        Expr::UnaryMinus(Box::new(Expr::ArrayIndex {
            array: Box::new(name("a")),
            index: Box::new(number("0")),
        }))
    );
    assert_eq!(
        only_expr("-a * b"),
        binary(Expr::UnaryMinus(Box::new(name("a"))), Op::Multiply, name("b"))
    );
    assert_eq!(
        only_expr("a[1][2]"),
        Expr::ArrayIndex {
            array: Box::new(Expr::ArrayIndex {
                array: Box::new(name("a")),
                index: Box::new(number("1")),
            }),
            index: Box::new(number("2")),
        }
    );
}

#[test]
fn atoms() {
    assert_eq!(only_expr("12.5"), number("12.5"));
    assert_eq!(only_expr("true"), Expr::Bool(true));
    assert_eq!(only_expr("false"), Expr::Bool(false));
    assert_eq!(only_expr("'x'"), Expr::Char('x'));
    assert_eq!(only_expr("none"), Expr::TypeNone);
    assert_eq!(only_expr("truth"), name("truth"));
    assert_eq!(only_expr("(1)"), number("1"));
    assert_eq!(only_expr("[1, x]"), Expr::Array(vec![number("1"), name("x")]));
    assert_eq!(only_expr("[]"), Expr::Array(vec![]));
    assert_eq!(
        only_expr("f()"),
        Expr::FunctionCall { identifier: "f".to_string(), parameters: vec![], lambda_body: None }
    );
}

#[test]
fn range_and_power_bind_like_multiplication() {
    assert_eq!(
        only_expr("1 + 2..5"),
        binary(number("1"), Op::Add, binary(number("2"), Op::Range, number("5")))
    );
    assert_eq!(
        only_expr("2 ^ 3 * 4"),
        binary(binary(number("2"), Op::Power, number("3")), Op::Multiply, number("4"))
    );
    assert_eq!(
        only_expr("a >= b == c"),
        binary(binary(name("a"), Op::Gte, name("b")), Op::Eq, name("c"))
    );
    assert_eq!(only_expr("a <= b"), binary(name("a"), Op::Lte, name("b")));
    assert_eq!(only_expr("a > b"), binary(name("a"), Op::Gt, name("b")));
    assert_eq!(only_expr("a != b"), binary(name("a"), Op::NotEq, name("b")));
}

#[test]
fn call_with_trailing_block() {
    assert_eq!(
        only_expr("each(xs) { println(1) }"),
        Expr::FunctionCall {
            identifier: "each".to_string(),
            parameters: vec![name("xs")],
            lambda_body: Some(vec![Statement::Expr {
                expr: Expr::FunctionCall {
                    identifier: "println".to_string(),
                    parameters: vec![number("1")],
                    lambda_body: None,
                }
            }]),
        }
    );
}

#[test]
fn assignments() {
    let kinds = [
        ("=", AssignmentType::Assign),
        ("+=", AssignmentType::Add),
        ("-=", AssignmentType::Sub),
        ("*=", AssignmentType::Mul),
        ("/=", AssignmentType::Div),
        ("^=", AssignmentType::Pow),
    ];
    for (operator, kind) in kinds {
        assert_eq!(
            only_statement(&format!("x {} 1", operator)),
            Statement::Assignment {
                identifier: "x".to_string(),
                index: None,
                kind,
                value: number("1"),
            }
        );
    }
    assert_eq!(
        only_statement("x[i + 1] = 2"),
        Statement::Assignment {
            identifier: "x".to_string(),
            index: Some(binary(name("i"), Op::Add, number("1"))),
            kind: AssignmentType::Assign,
            value: number("2"),
        }
    );
    assert_eq!(only_statement("x == 1"), Statement::Expr { expr: binary(name("x"), Op::Eq, number("1")) });
}

#[test]
fn function_definitions() {
    assert_eq!(
        only_statement("fn add(a: number, b: bool): char { return a }"),
        Statement::FunctionDefinition {
            lambda: false,
            identifier: "add".to_string(),
            parameters: vec![("a".to_string(), Type::Number), ("b".to_string(), Type::Bool)],
            return_type_hint: Type::Char,
            body: vec![Statement::Return { value: name("a") }],
        }
    );
    assert_eq!(
        only_statement("lambda fn f() { }"),
        Statement::FunctionDefinition {
            lambda: true,
            identifier: "f".to_string(),
            parameters: vec![],
            return_type_hint: Type::Void,
            body: vec![],
        }
    );
}

#[test]
fn control_flow() {
    assert_eq!(
        only_statement("if a { x = 1 } elif b { } elif c { y = 2 } else { z = 3 }"),
        Statement::IfStatement {
            condition: name("a"),
            body: vec![Statement::Assignment {
                identifier: "x".to_string(),
                index: None,
                kind: AssignmentType::Assign,
                value: number("1"),
            }],
            else_ifs: vec![
                (name("b"), vec![]),
                (
                    name("c"),
                    vec![Statement::Assignment {
                        identifier: "y".to_string(),
                        index: None,
                        kind: AssignmentType::Assign,
                        value: number("2"),
                    }]
                ),
            ],
            else_body: vec![Statement::Assignment {
                identifier: "z".to_string(),
                index: None,
                kind: AssignmentType::Assign,
                value: number("3"),
            }],
        }
    );
    assert_eq!(
        only_statement("while i < 3 { }"),
        Statement::WhileLoop { condition: binary(name("i"), Op::Lt, number("3")), body: vec![] }
    );
    assert_eq!(
        only_statement("for x in xs { }"),
        Statement::ForLoop {
            identifier: "x".to_string(),
            identifier_type_hint: None,
            expression: name("xs"),
            body: vec![],
        }
    );
    assert_eq!(
        only_statement("for x: number in 0..3 { }"),
        Statement::ForLoop {
            identifier: "x".to_string(),
            identifier_type_hint: Some(Type::Number),
            expression: binary(number("0"), Op::Range, number("3")),
            body: vec![],
        }
    );
}

#[test]
fn comments_are_kept() {
    let file = parse_ast("test_file", "// first\nx = 1 // second\n").unwrap();
    assert_eq!(
        file.statements,
        vec![
            Statement::Comment("// first".to_string()),
            Statement::Assignment {
                identifier: "x".to_string(),
                index: None,
                kind: AssignmentType::Assign,
                value: number("1"),
            },
            Statement::Comment("// second".to_string()),
        ]
    );
}

#[test]
fn empty_text_is_an_empty_program() {
    assert_eq!(parse_ast("test_file", "").unwrap().statements, vec![]);
    assert_eq!(parse_ast("test_file", " \n\t ").unwrap().statements, vec![]);
}

#[test]
fn keywords_end_at_a_word_boundary() {
    assert_eq!(only_expr("iffy"), name("iffy"));
    assert_eq!(
        only_statement("returned = 1"),
        Statement::Assignment {
            identifier: "returned".to_string(),
            index: None,
            kind: AssignmentType::Assign,
            value: number("1"),
        }
    );
}

#[test]
fn deep_nesting_is_parsed() {
    let deep = format!("{}1{}", "(".repeat(400), ")".repeat(400));
    assert_eq!(only_expr(&deep), number("1"));
    let nested = format!("{}x = 1{}", "if true { ".repeat(150), " }".repeat(150));
    let mut statement = only_statement(&nested);
    let mut depth = 0;
    while let Statement::IfStatement { mut body, .. } = statement {
        assert_eq!(body.len(), 1);
        statement = body.remove(0);
        depth += 1;
    }
    assert_eq!(depth, 150);
    assert_eq!(
        statement,
        Statement::Assignment {
            identifier: "x".to_string(),
            index: None,
            kind: AssignmentType::Assign,
            value: number("1"),
        }
    );
}

#[test]
fn matching_counts_the_nesting_of_rules() {
    let text = "((1))";
    let chars: Vec<char> = text.chars().collect();
    let start = Mark { position: 0, rule: Rule::File };
    let file = Peg::Node(Rule::File);
    assert!(matches!(run(&file, &chars, text, true, 0, 4, Rule::File, start), Matching::TooDeep));
    assert!(matches!(run(&file, &chars, text, true, 0, 0, Rule::File, start), Matching::TooDeep));
    match run(&file, &chars, text, true, 0, 6, Rule::File, start) {
        Matching::Matched { end, nodes, .. } => {
            assert_eq!(end, 5);
            assert_eq!(nodes.len(), 1);
            assert_eq!(nodes[0].rule, Rule::File);
            assert_eq!(nodes[0].text, text);
        }
        _ => panic!("the text should match"),
    }
}

#[test]
fn syntax_errors() {
    for source in ["x = ", "fn (", "if x", "1 +", "[1, ", "'ab'", "x = 1 )", "while { }"] {
        assert!(
            matches!(parse_ast("test_file", source), Err(ParseError::Syntax { .. })),
            "{:?} should not parse",
            source
        );
    }
}

#[test]
fn hand_made_trees() {
    let leaf = |rule: Rule, text: &str| ParseNode { rule, text: text.to_string(), children: vec![] };
    let node = |rule: Rule, children: Vec<ParseNode>| ParseNode { rule, text: String::new(), children };
    let value = node(Rule::Expr, vec![leaf(Rule::Number, "1")]);
    let assignment = node(
        Rule::Statement,
        vec![node(Rule::Assignment, vec![leaf(Rule::Identifier, "x"), leaf(Rule::AssAdd, "+="), value])],
    );
    assert_eq!(
        parse_statement(&assignment, &vec![], 1),
        Ok(Statement::Assignment {
            identifier: "x".to_string(),
            index: None,
            kind: AssignmentType::Add,
            value: number("1"),
        })
    );
    let broken = node(Rule::Statement, vec![node(Rule::Assignment, vec![leaf(Rule::Identifier, "x")])]);
    assert_eq!(parse_statement(&broken, &vec![], 1), Err(ParseError::Malformed));
    assert_eq!(parse_statement(&leaf(Rule::Number, "1"), &vec![], 1), Err(ParseError::Malformed));
}

#[test]
fn texts_are_never_malformed() {
    let pieces = ["x", "=", "1", "+", "(", ")", "[", "]", "{", "}", "if", "else", "fn", ",", "-", "'a'", "..", ":", " number", "for", "in", "\n"];
    let mut seed: u32 = 12345;
    for _ in 0..2000 {
        let mut text = String::new();
        for _ in 0..8 {
            seed = seed.wrapping_mul(1664525).wrapping_add(1013904223);
            text.push_str(pieces[(seed >> 16) as usize % pieces.len()]);
            text.push(' ');
        }
        assert_ne!(parse_ast("test_file", &text), Err(ParseError::Malformed), "{:?}", text);
    }
}

#[test]
fn text_outside_ascii() {
    let file = parse_ast("test_file", "// grüße\nx = 'ß' // ok\n").unwrap();
    assert_eq!(
        file.statements,
        vec![
            Statement::Comment("// grüße".to_string()),
            Statement::Assignment {
                identifier: "x".to_string(),
                index: None,
                kind: AssignmentType::Assign,
                value: Expr::Char('ß'),
            },
            Statement::Comment("// ok".to_string()),
        ]
    );
    match parse_ast("test_file", "ä = 1") {
        Err(ParseError::Syntax { position, line, column, .. }) => {
            assert_eq!((position, line, column), (0, 0, 0));
        }
        other => panic!("expected a syntax error, found {:?}", other),
    }
}
