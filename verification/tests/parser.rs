use brief::compiler::parser::{Parser, SpannedToken, Token};

fn toks(v: Vec<Token>) -> Vec<SpannedToken> {
    v.into_iter().map(|t| SpannedToken { tok: t, start: 0, end: 0 }).collect()
}

fn id(s: &str) -> Token {
    Token::Identifier(s.to_string())
}

fn parser(v: Vec<Token>) -> Parser {
    Parser::new(toks(v), String::new())
}

fn expr(v: Vec<Token>) -> String {
    let mut p = parser(v);
    format!("{:?}", p.parse_expression().unwrap())
}

#[test]
fn parse_expression_precedence() {
    assert_eq!(
        expr(vec![Token::Integer(1), Token::Plus, Token::Integer(2), Token::Star, Token::Integer(3)]),
        "Add(Integer(1), Mul(Integer(2), Integer(3)))"
    );
    assert_eq!(
        expr(vec![id("a"), Token::OrOr, id("b"), Token::AndAnd, id("c")]),
        "Or(Identifier(\"a\"), And(Identifier(\"b\"), Identifier(\"c\")))"
    );
    assert_eq!(
        expr(vec![Token::Integer(1), Token::Minus, Token::Integer(2), Token::Minus, Token::Integer(3)]),
        "Sub(Sub(Integer(1), Integer(2)), Integer(3))"
    );
    assert_eq!(
        expr(vec![id("x"), Token::EqEq, Token::Integer(1), Token::Ampersand, id("y")]),
        "BitAnd(Eq(Identifier(\"x\"), Integer(1)), Identifier(\"y\"))"
    );
}

#[test]
fn parse_expression_unary_and_postfix() {
    assert_eq!(expr(vec![Token::Minus, id("x")]), "Neg(Identifier(\"x\"))");
    assert_eq!(expr(vec![Token::Not, Token::BoolTrue]), "Not(Bool(true))");
    assert_eq!(expr(vec![Token::Ampersand, id("x")]), "OwnedRef(\"x\")");
    assert_eq!(expr(vec![Token::At, id("x"), Token::Dot, id("y")]), "FieldAccess(PriorState(\"x\"), \"y\")");
    assert_eq!(
        expr(vec![id("obj"), Token::Dot, id("m"), Token::LParen, Token::Integer(1), Token::RParen]),
        "Call(\"m\", [Identifier(\"obj\")])"
    );
    assert_eq!(
        expr(vec![Token::LBracket, Token::Integer(1), Token::Comma, Token::Integer(2), Token::RBracket, Token::LBracket, Token::Integer(0), Token::RBracket]),
        "ListIndex(ListLiteral([Integer(1), Integer(2)]), Integer(0))"
    );
}

#[test]
fn parse_expression_primaries() {
    assert_eq!(
        expr(vec![id("f"), Token::LParen, Token::Integer(1), Token::Comma, id("y"), Token::RParen]),
        "Call(\"f\", [Integer(1), Identifier(\"y\")])"
    );
    assert_eq!(
        expr(vec![id("Point"), Token::LBrace, id("x"), Token::Colon, Token::Integer(1), Token::RBrace]),
        "StructInstance(\"Point\", [(\"x\", Integer(1))])"
    );
    assert_eq!(expr(vec![Token::LBrace, Token::RBrace]), "ObjectLiteral([])");
    assert_eq!(expr(vec![Token::TypeInt, Token::LParen, id("v"), Token::RParen]), "Call(\"Int\", [Identifier(\"v\")])");
    assert_eq!(expr(vec![Token::TypeData]), "Identifier(\"Data\")");
    assert_eq!(expr(vec![Token::TildeSlash, id("home")]), "String(\"~/home\")");
    assert_eq!(
        expr(vec![Token::LParen, Token::Integer(1), Token::Plus, Token::Integer(2), Token::RParen, Token::Star, Token::Integer(3)]),
        "Mul(Add(Integer(1), Integer(2)), Integer(3))"
    );
}

#[test]
fn parse_expression_position_and_errors() {
    let mut p = parser(vec![Token::Integer(1), Token::Plus, Token::Integer(2), Token::Semicolon]);
    assert!(p.parse_expression().is_ok());
    assert_eq!(p.pos(), 3);
    let mut q = parser(vec![Token::Integer(1), Token::Plus]);
    assert!(q.parse_expression().is_err());
    assert_eq!(q.pos(), 0);
    let mut r = parser(vec![Token::LParen, Token::Integer(1)]);
    assert!(r.parse_expression().is_err());
    let mut s = parser(vec![Token::Semicolon]);
    let err = s.parse_primary().unwrap_err();
    assert_eq!(err.message(), "invalid statement: Unexpected token in expression: Ok(Semicolon)");
}

#[test]
fn parse_types() {
    let mut p = parser(vec![id("List"), Token::Lt, Token::TypeInt, Token::Gt, Token::Pipe, Token::TypeBool]);
    assert_eq!(format!("{:?}", p.parse_type().unwrap()), "Union([Applied(\"List\", [Int]), Bool])");
    let mut q = parser(vec![Token::TypeInt, Token::LBracket, Token::Integer(4), Token::RBracket]);
    assert_eq!(format!("{:?}", q.parse_type().unwrap()), "Vector(Int, 4)");
    let mut r = parser(vec![Token::LParen, Token::RParen]);
    assert_eq!(format!("{:?}", r.parse_type().unwrap()), "Void");
    let mut s = parser(vec![Token::TypeInt, Token::Lt, Token::TypeInt, Token::Gt]);
    assert!(s.parse_type().is_err());
}

#[test]
fn parse_statements() {
    let mut p = parser(vec![Token::Let, id("x"), Token::Colon, Token::TypeInt, Token::Eq, Token::Integer(5), Token::Semicolon]);
    assert_eq!(
        format!("{:?}", p.parse_statement().unwrap()),
        "Let { name: \"x\", ty: Some(Int), expr: Some(Integer(5)), address: None, bit_range: None, is_override: false }"
    );
    let mut q = parser(vec![id("x"), Token::Eq, id("y"), Token::Plus, Token::Integer(1), Token::Semicolon]);
    assert_eq!(
        format!("{:?}", q.parse_statement().unwrap()),
        "Assignment { lhs: Identifier(\"x\"), expr: Add(Identifier(\"y\"), Integer(1)), timeout: None }"
    );
    let mut r = parser(vec![Token::Term, id("a"), Token::Comma, Token::Comma, id("b"), Token::Semicolon]);
    assert_eq!(
        format!("{:?}", r.parse_statement().unwrap()),
        "Term([Some(Identifier(\"a\")), None, Some(Identifier(\"b\"))])"
    );
    let mut s = parser(vec![Token::LBracket, id("r"), Token::OkKw, Token::LParen, id("v"), Token::RParen, Token::RBracket,
        Token::LBrace, id("x"), Token::Eq, id("v"), Token::Semicolon, Token::RBrace, Token::Semicolon]);
    assert_eq!(
        format!("{:?}", s.parse_statement().unwrap()),
        "Guarded { condition: PatternMatch { value: Identifier(\"r\"), variant: \"Ok\", fields: [\"v\"] }, statements: [Assignment { lhs: Identifier(\"x\"), expr: Identifier(\"v\"), timeout: None }] }"
    );
    let mut t = parser(vec![id("Store"), Token::LParen, id("k"), Token::RParen, Token::Eq, Token::Integer(1), Token::Semicolon]);
    assert_eq!(
        format!("{:?}", t.parse_statement().unwrap()),
        "Unification { name: \"Store\", pattern: \"k\", expr: Integer(1) }"
    );
    let mut u = parser(vec![Token::LBracket, id("c"), Token::RBracket, Token::LBrace, Token::RBrace, Token::Semicolon]);
    assert!(u.parse_statement().is_err());
    let mut w = parser(vec![Token::Let, id("r"), Token::LBracket, Token::Integer(0), Token::Colon, Token::Integer(7), Token::RBracket, Token::At, Token::Integer(4096), Token::Semicolon]);
    assert_eq!(
        format!("{:?}", w.parse_statement().unwrap()),
        "Let { name: \"r\", ty: None, expr: None, address: Some(4096), bit_range: Some(Range(0, 7)), is_override: false }"
    );
}

#[test]
fn parse_body_stops_at_brace() {
    let mut p = parser(vec![id("a"), Token::Semicolon, Token::Escape, Token::Semicolon, Token::RBrace]);
    let body = p.parse_body().unwrap();
    assert_eq!(body.len(), 2);
    assert_eq!(p.pos(), 4);
}

#[test]
fn parse_contracts() {
    let mut p = parser(vec![Token::LBracket, id("a"), Token::RBracket, Token::LBracket, id("b"), Token::RBracket, Token::LBrace]);
    let c = p.parse_contract().unwrap();
    assert_eq!(format!("{:?}", c.pre_condition), "Identifier(\"a\")");
    assert_eq!(format!("{:?}", c.post_condition), "Identifier(\"b\")");
    assert!(c.watchdog.is_none());
    assert_eq!(p.pos(), 6);
    let mut q = parser(vec![Token::LBracket, Token::TildeSlash, id("done"), Token::RBracket, Token::Semicolon]);
    let c = q.parse_contract().unwrap();
    assert_eq!(format!("{:?}", c.pre_condition), "Not(Identifier(\"done\"))");
    assert_eq!(format!("{:?}", c.post_condition), "Identifier(\"done\")");
    let mut r = parser(vec![Token::LBracket, Token::BoolTrue, Token::RBracket, Token::LBracket, Token::BoolTrue, Token::RBracket,
        Token::LBracket, Token::Question, id("w"), Token::RBracket]);
    let c = r.parse_contract().unwrap();
    let w = c.watchdog.unwrap();
    assert!(!w.is_required);
    let mut s = parser(vec![Token::LBracket, Token::BoolTrue, Token::RBracket, Token::LBracket, Token::BoolTrue, Token::RBracket,
        Token::LBracket, Token::BoolTrue, Token::RBracket]);
    assert!(s.parse_contract().is_err());
    let mut u = parser(vec![Token::Semicolon]);
    let c = u.parse_contract().unwrap();
    assert_eq!(format!("{:?}", c.pre_condition), "Bool(true)");
    assert_eq!(u.pos(), 0);
}

#[test]
fn parse_transactions() {
    let mut p = parser(vec![
        Token::Async, Token::Txn, id("step"), Token::LBracket, id("ready"), Token::RBracket, Token::LBracket, id("done"),
        Token::RBracket, Token::LBrace, id("done"), Token::Eq, Token::BoolTrue, Token::Semicolon, Token::Term, Token::Semicolon,
        Token::RBrace, Token::Semicolon,
    ]);
    let t = p.parse_transaction().unwrap();
    assert!(t.is_async && !t.is_reactive && !t.is_lambda);
    assert_eq!(t.name, "step");
    assert_eq!(t.body.len(), 2);
    assert_eq!(t.dependencies, vec!["ready".to_string()]);
    assert_eq!(p.pos(), 18);

    let mut q = parser(vec![Token::Rct, Token::Txn, id("tick"), Token::LBracket, id("on"), Token::RBracket, Token::LBrace,
        Token::Term, Token::Semicolon, Token::RBrace, Token::At, Token::Integer(60), id("Hz"), Token::Semicolon]);
    let t = q.parse_transaction().unwrap();
    assert!(t.is_reactive && !t.is_lambda);
    assert_eq!(t.reactor_speed, Some(60));
    let mut l = parser(vec![Token::Rct, Token::Txn, id("idle"), Token::LBracket, id("on"), Token::RBracket, Token::Semicolon]);
    let t = l.parse_transaction().unwrap();
    assert!(t.is_lambda);
    assert_eq!(t.reactor_speed, None);

    let mut r = parser(vec![Token::Rct, Token::Txn, id("t"), Token::LParen, id("x"), Token::Colon, Token::TypeInt, Token::RParen,
        Token::Semicolon, Token::Semicolon]);
    assert!(r.parse_transaction().is_err());

    let mut s = parser(vec![Token::Txn, id("obj"), Token::Dot, id("run"), Token::LParen, id("n"), Token::Colon, Token::TypeInt,
        Token::RParen, Token::Semicolon, Token::Semicolon]);
    let t = s.parse_transaction().unwrap();
    assert_eq!(t.name, "obj.run");
    assert_eq!(t.parameters.len(), 1);
}

#[test]
fn parse_definitions() {
    let mut p = parser(vec![
        Token::Defn, id("add"), Token::LParen, id("a"), Token::Colon, Token::TypeInt, Token::Comma, id("b"), Token::Colon,
        Token::TypeInt, Token::RParen, Token::Arrow, id("sum"), Token::Colon, Token::TypeInt, Token::LBracket, Token::BoolTrue,
        Token::RBracket, Token::LBrace, Token::Term, id("a"), Token::Plus, id("b"), Token::Semicolon, Token::RBrace,
        Token::Semicolon,
    ]);
    let d = p.parse_definition().unwrap();
    assert_eq!(d.name, "add");
    assert_eq!(d.parameters.len(), 2);
    assert_eq!(format!("{:?}", d.outputs), "[Int]");
    assert_eq!(d.output_names, vec![Some("sum".to_string())]);
    assert!(d.output_type.is_none());
    assert!(!d.is_lambda);
    assert_eq!(p.pos(), 26);

    let mut q = parser(vec![Token::Defn, id("pair"), Token::Arrow, Token::TypeInt, Token::Comma, Token::TypeBool, Token::Semicolon]);
    let d = q.parse_definition().unwrap();
    assert!(d.is_lambda);
    assert_eq!(format!("{:?}", d.output_type), "Some(Tuple([Int, Bool]))");
    assert_eq!(q.pos(), 6);

    let mut r = parser(vec![Token::Defn, id("f"), Token::LParen, id("x"), Token::Colon, Token::TypeInt, Token::RParen, Token::Arrow,
        id("x"), Token::Colon, Token::TypeInt, Token::Semicolon]);
    assert!(r.parse_definition().is_err());

    let mut s = parser(vec![Token::Defn, id("g"), Token::Lt, id("T"), Token::Colon, id("Eq"), Token::Plus, id("Show"), Token::Gt,
        Token::Semicolon]);
    let d = s.parse_definition().unwrap();
    assert_eq!(d.type_params.len(), 1);
    assert_eq!(d.type_params[0].bounds.len(), 2);
}

#[test]
fn parse_constants() {
    let mut p = parser(vec![Token::Const, id("MAX"), Token::Colon, Token::TypeInt, Token::Eq, Token::Integer(8), Token::Semicolon]);
    let c = p.parse_constant().unwrap();
    assert_eq!(c.name, "MAX");
    assert_eq!(format!("{:?}", c.ty), "Int");
    assert_eq!(format!("{:?}", c.expr), "Integer(8)");
    assert_eq!(p.pos(), 7);
    let mut q = parser(vec![Token::Const, id("MAX"), Token::Eq, Token::Integer(8), Token::Semicolon]);
    assert!(q.parse_constant().is_err());
}
