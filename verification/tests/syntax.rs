use lala::error::LalaError;
use lala::interp::interp;
use lala::interp::Outcome;
use lala::interp::Visible;
use lala::parser::AstNode;
use lala::parser::DyadicVerb;
use lala::parser::MonadicVerb;
use lala::scalar::Scalar;
use lala::syntax::build_ast_from_expr;
use lala::syntax::build_ast_from_term;
use lala::syntax::parse;
use lala::syntax::parse_cmd;
use lala::syntax::parse_dyadic_verb;
use lala::syntax::parse_integer;
use lala::syntax::parse_monadic_verb;
use lala::syntax::Pair;
use lala::syntax::Rule;
use lala::types::LalaType;

fn pair(rule: Rule, text: &str, inner: Vec<Pair>) -> Pair {
    Pair { rule, text: text.to_string(), number: None, inner }
}

fn leaf(rule: Rule, text: &str) -> Pair {
    pair(rule, text, vec![])
}

fn decimal(text: &str) -> Pair {
    let number = text.parse::<f64>().ok().map(|x| Scalar::from_bits(x.to_bits()));
    Pair { rule: Rule::Decimal, text: text.to_string(), number, inner: vec![] }
}

fn expr(inner: Pair) -> Pair {
    pair(Rule::Expr, "", vec![inner])
}

fn matrix(rows: &[&[&str]]) -> Pair {
    pair(
        Rule::Matrix,
        "",
        rows.iter()
            .map(|row| {
                pair(Rule::Other, "", row.iter().map(|cell| leaf(Rule::Integer, cell)).collect())
            })
            .collect(),
    )
}

#[test]
fn integer_literals() {
    assert_eq!(parse_integer(&"42".to_string()), Some(42));
    assert_eq!(parse_integer(&"-7".to_string()), Some(-7));
    assert_eq!(parse_integer(&"0012".to_string()), Some(12));
    assert_eq!(parse_integer(&"0".to_string()), Some(0));
    assert_eq!(parse_integer(&"-0".to_string()), Some(0));
    assert_eq!(parse_integer(&"2147483647".to_string()), Some(i32::MAX));
    assert_eq!(parse_integer(&"-2147483647".to_string()), Some(-i32::MAX));
}

#[test]
fn what_is_no_integer_literal() {
    assert_eq!(parse_integer(&"2147483648".to_string()), None);
    assert_eq!(parse_integer(&"-2147483648".to_string()), None);
    assert_eq!(parse_integer(&"99999999999999999999999999".to_string()), None);
    assert_eq!(parse_integer(&"".to_string()), None);
    assert_eq!(parse_integer(&"-".to_string()), None);
    assert_eq!(parse_integer(&"12a".to_string()), None);
    assert_eq!(parse_integer(&"+5".to_string()), None);
    assert_eq!(parse_integer(&"--5".to_string()), None);
    assert_eq!(parse_integer(&"1.5".to_string()), None);
    assert_eq!(parse_integer(&"\u{0663}".to_string()), None);
}

#[test]
fn terms_are_numbers_or_expressions() {
    assert!(matches!(build_ast_from_term(&leaf(Rule::Integer, "-12")), Some(AstNode::Integer(-12))));
    match build_ast_from_term(&decimal("-2.5")) {
        Some(AstNode::DoublePrecisionFloat(d)) => assert_eq!(f64::from_bits(d.to_bits()), -2.5),
        other => panic!("unexpected: {:?}", other),
    }
    match build_ast_from_term(&expr(leaf(Rule::Ident, "x"))) {
        Some(AstNode::Ident(name)) => assert_eq!(name, "x"),
        other => panic!("unexpected: {:?}", other),
    }
    assert!(build_ast_from_term(&leaf(Rule::Ident, "x")).is_none());
    assert!(build_ast_from_term(&leaf(Rule::Integer, "x")).is_none());
    assert!(build_ast_from_term(&leaf(Rule::Decimal, "1.5")).is_none());
}

#[test]
fn a_decimal_zero_is_never_negative() {
    match build_ast_from_term(&decimal("-0.0")) {
        Some(AstNode::DoublePrecisionFloat(d)) => assert_eq!(d.to_bits(), 0),
        other => panic!("unexpected: {:?}", other),
    }
}

#[test]
fn monadic_symbols() {
    let cases = [
        ("#", MonadicVerb::Rank),
        ("?", MonadicVerb::Inverse),
        ("rref", MonadicVerb::RREF),
        ("%", MonadicVerb::Transpose),
        ("det", MonadicVerb::Determinant),
    ];
    for (symbol, expected) in cases.iter() {
        match parse_monadic_verb(&leaf(Rule::Other, symbol), AstNode::Integer(1)) {
            Some(AstNode::MonadicOp { verb, expr }) => {
                assert_eq!(verb, *expected);
                assert!(matches!(*expr, AstNode::Integer(1)));
            }
            other => panic!("unexpected: {:?}", other),
        }
    }
    assert!(parse_monadic_verb(&leaf(Rule::Other, "@"), AstNode::Integer(1)).is_none());
    assert!(parse_monadic_verb(&leaf(Rule::Other, ""), AstNode::Integer(1)).is_none());
}

#[test]
fn dyadic_symbols() {
    let cases = [("@", DyadicVerb::Dot), ("++", DyadicVerb::Plus), ("**", DyadicVerb::Times)];
    for (symbol, expected) in cases.iter() {
        match parse_dyadic_verb(
            &leaf(Rule::Other, symbol),
            AstNode::Integer(1),
            AstNode::Integer(2),
        ) {
            Some(AstNode::DyadicOp { verb, lhs, rhs }) => {
                assert_eq!(verb, *expected);
                assert!(matches!(*lhs, AstNode::Integer(1)));
                assert!(matches!(*rhs, AstNode::Integer(2)));
            }
            other => panic!("unexpected: {:?}", other),
        }
    }
    assert!(parse_dyadic_verb(&leaf(Rule::Other, "+"), AstNode::Integer(1), AstNode::Integer(2))
        .is_none());
}

#[test]
fn commands_keep_their_parameters() {
    let params = vec![leaf(Rule::Other, "a.lala"), leaf(Rule::Other, "b.lala")];
    match parse_cmd(&leaf(Rule::Other, "link"), Some(&params)) {
        Some(AstNode::Command((name, given))) => {
            assert_eq!(name, "link");
            assert_eq!(given, vec!["a.lala".to_string(), "b.lala".to_string()]);
        }
        other => panic!("unexpected: {:?}", other),
    }
    match parse_cmd(&leaf(Rule::Other, "dbg"), None) {
        Some(AstNode::Command((name, given))) => {
            assert_eq!(name, "dbg");
            assert!(given.is_empty());
        }
        other => panic!("unexpected: {:?}", other),
    }
}

#[test]
fn command_trees() {
    let dbg = pair(Rule::Command, "dbg", vec![leaf(Rule::Other, "dbg")]);
    assert!(matches!(build_ast_from_expr(&dbg), Some(AstNode::Command(_))));
    let link = pair(
        Rule::Command,
        "",
        vec![
            leaf(Rule::Other, "link"),
            pair(Rule::Other, "", vec![leaf(Rule::Other, "lib.lala")]),
        ],
    );
    match build_ast_from_expr(&link) {
        Some(AstNode::Command((name, given))) => {
            assert_eq!(name, "link");
            assert_eq!(given, vec!["lib.lala".to_string()]);
        }
        other => panic!("unexpected: {:?}", other),
    }
    let bare = pair(Rule::Command, "", vec![leaf(Rule::Other, "link")]);
    assert!(build_ast_from_expr(&bare).is_none());
    assert!(build_ast_from_expr(&pair(Rule::Command, "", vec![])).is_none());
}

#[test]
fn operator_trees() {
    let monadic = pair(
        Rule::Monadic,
        "",
        vec![leaf(Rule::Other, "det"), expr(leaf(Rule::Ident, "x"))],
    );
    match build_ast_from_expr(&monadic) {
        Some(AstNode::MonadicOp { verb: MonadicVerb::Determinant, expr }) => {
            assert!(matches!(*expr, AstNode::Ident(_)));
        }
        other => panic!("unexpected: {:?}", other),
    }
    let dyadic = pair(
        Rule::Dyadic,
        "",
        vec![leaf(Rule::Ident, "a"), leaf(Rule::Other, "++"), leaf(Rule::Ident, "b")],
    );
    match build_ast_from_expr(&dyadic) {
        Some(AstNode::DyadicOp { verb: DyadicVerb::Plus, lhs, rhs }) => {
            assert!(matches!(*lhs, AstNode::Ident(ref n) if n == "a"));
            assert!(matches!(*rhs, AstNode::Ident(ref n) if n == "b"));
        }
        other => panic!("unexpected: {:?}", other),
    }
    let short = pair(Rule::Dyadic, "", vec![leaf(Rule::Ident, "a"), leaf(Rule::Other, "++")]);
    assert!(build_ast_from_expr(&short).is_none());
    let unknown = pair(
        Rule::Monadic,
        "",
        vec![leaf(Rule::Other, "sqrt"), leaf(Rule::Ident, "x")],
    );
    assert!(build_ast_from_expr(&unknown).is_none());
}

#[test]
fn a_single_term_stands_for_itself() {
    let one = pair(Rule::Terms, "", vec![leaf(Rule::Integer, "5")]);
    assert!(matches!(build_ast_from_expr(&one), Some(AstNode::Integer(5))));
    let two = pair(Rule::Terms, "", vec![leaf(Rule::Integer, "5"), decimal("1.5")]);
    match build_ast_from_expr(&two) {
        Some(AstNode::Terms(terms)) => assert_eq!(terms.len(), 2),
        other => panic!("unexpected: {:?}", other),
    }
    match build_ast_from_expr(&pair(Rule::Terms, "", vec![])) {
        Some(AstNode::Terms(terms)) => assert!(terms.is_empty()),
        other => panic!("unexpected: {:?}", other),
    }
    let bad = pair(Rule::Terms, "", vec![leaf(Rule::Integer, "5"), leaf(Rule::Ident, "x")]);
    assert!(build_ast_from_expr(&bad).is_none());
}

#[test]
fn matrix_trees() {
    match build_ast_from_expr(&matrix(&[&["1", "2"], &["3", "4"]])) {
        Some(AstNode::Matrix(rows)) => {
            assert_eq!(rows.len(), 2);
            assert!(matches!(rows[1][0], AstNode::Integer(3)));
            assert!(matches!(rows[1][1], AstNode::Integer(4)));
        }
        other => panic!("unexpected: {:?}", other),
    }
    assert!(build_ast_from_expr(&matrix(&[&["1", "x"]])).is_none());
}

#[test]
fn declaration_trees_pass_over_what_is_no_parameter() {
    let decl = pair(
        Rule::FunDecl,
        "",
        vec![
            leaf(Rule::Ident, "f"),
            pair(
                Rule::Other,
                "",
                vec![leaf(Rule::Ident, "a"), leaf(Rule::Integer, "1"), leaf(Rule::Ident, "b")],
            ),
            pair(
                Rule::Other,
                "",
                vec![
                    pair(
                        Rule::Assn,
                        "",
                        vec![
                            leaf(Rule::Ident, "c"),
                            pair(
                                Rule::Dyadic,
                                "",
                                vec![
                                    leaf(Rule::Ident, "a"),
                                    leaf(Rule::Other, "++"),
                                    leaf(Rule::Ident, "b"),
                                ],
                            ),
                        ],
                    ),
                    leaf(Rule::Ident, "c"),
                ],
            ),
        ],
    );
    match build_ast_from_expr(&decl) {
        Some(AstNode::Fun((name, params, body))) => {
            assert_eq!(name, "f");
            assert_eq!(params.len(), 2);
            assert!(matches!(params[0], AstNode::Ident(ref n) if n == "a"));
            assert!(matches!(params[1], AstNode::Ident(ref n) if n == "b"));
            assert_eq!(body.len(), 2);
            assert!(matches!(body[0], AstNode::Assignment { .. }));
            assert!(matches!(body[1], AstNode::Ident(ref n) if n == "c"));
        }
        other => panic!("unexpected: {:?}", other),
    }
}

#[test]
fn application_trees() {
    let call = pair(
        Rule::App,
        "",
        vec![leaf(Rule::Ident, "f"), expr(matrix(&[&["1", "2"]])), leaf(Rule::Ident, "y")],
    );
    match build_ast_from_expr(&call) {
        Some(AstNode::App((name, args))) => {
            assert_eq!(name, "f");
            assert_eq!(args.len(), 2);
            assert!(matches!(args[0], AstNode::Matrix(_)));
            assert!(matches!(args[1], AstNode::Ident(ref n) if n == "y"));
        }
        other => panic!("unexpected: {:?}", other),
    }
    let bad = pair(Rule::App, "", vec![leaf(Rule::Ident, "f"), leaf(Rule::Integer, "1")]);
    assert!(build_ast_from_expr(&bad).is_none());
    assert!(build_ast_from_expr(&pair(Rule::App, "", vec![])).is_none());
}

#[test]
fn what_is_no_expression_has_no_node() {
    assert!(build_ast_from_expr(&leaf(Rule::Integer, "1")).is_none());
    assert!(build_ast_from_expr(&leaf(Rule::Program, "")).is_none());
    assert!(build_ast_from_expr(&leaf(Rule::Other, "")).is_none());
    assert!(build_ast_from_expr(&pair(Rule::Expr, "", vec![])).is_none());
}

#[test]
fn a_program_is_its_declarations_and_expressions() {
    let pairs = vec![
        expr(pair(
            Rule::Assn,
            "",
            vec![leaf(Rule::Ident, "x"), expr(matrix(&[&["1", "2"], &["3", "4"]]))],
        )),
        leaf(Rule::Other, ""),
        expr(pair(
            Rule::Monadic,
            "",
            vec![leaf(Rule::Other, "det"), expr(leaf(Rule::Ident, "x"))],
        )),
    ];
    let ast = parse(&pairs).unwrap();
    assert_eq!(ast.len(), 2);
    match interp(&ast, None, false).unwrap() {
        Outcome::Finished(Visible::Value(LalaType::Double(d))) => {
            assert_eq!(f64::from_bits(d.to_bits()), -2.0)
        }
        other => panic!("unexpected: {:?}", other),
    }
}

#[test]
fn a_program_with_a_malformed_statement_fails() {
    let pairs = vec![expr(leaf(Rule::Ident, "x")), expr(leaf(Rule::Integer, "1"))];
    assert_eq!(parse(&pairs).unwrap_err(), LalaError::ParseFailure);
    assert!(parse(&vec![]).unwrap().is_empty());
}
