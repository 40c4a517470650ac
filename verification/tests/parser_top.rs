use brief::compiler::ast::TopLevel;
use brief::compiler::parser::{Parser, SpannedToken, Token};
use brief::compiler::parser_html::scan_html_block;
use brief::compiler::parser_items::parse_signature_at;
use brief::compiler::parser_top::{parse_import_at, parse_render_block_at, parse_top_level_at};

fn sp(t: Token, start: usize, end: usize) -> SpannedToken {
    SpannedToken { tok: t, start: start, end: end }
}

fn id(s: &str) -> Token {
    Token::Identifier(s.to_string())
}

fn plain(v: Vec<Token>) -> Vec<SpannedToken> {
    v.into_iter().map(|t| SpannedToken { tok: t, start: 0, end: 0 }).collect()
}

#[test]
fn test_parse_rstruct_with_self_closing_html() {
    let s = r#"rstruct Logo { <svg> <circle /> </svg> };"#;
    let tokens = vec![
        sp(Token::Rstruct, 0, 7),
        sp(id("Logo"), 8, 12),
        sp(Token::LBrace, 13, 14),
        sp(Token::Lt, 15, 16),
        sp(id("svg"), 16, 19),
        sp(Token::Gt, 19, 20),
        sp(Token::Lt, 21, 22),
        sp(id("circle"), 22, 28),
        sp(Token::Slash, 29, 30),
        sp(Token::Gt, 30, 31),
        sp(Token::Lt, 32, 33),
        sp(Token::Slash, 33, 34),
        sp(id("svg"), 34, 37),
        sp(Token::Gt, 37, 38),
        sp(Token::RBrace, 39, 40),
        sp(Token::Semicolon, 40, 41),
    ];
    let mut parser = Parser::new(tokens, s.to_string());
    let result = parser.parse_rstruct();
    assert!(result.is_ok());
}

#[test]
fn rstruct_members_and_view() {
    let s = "rstruct Counter { count: Int = 0; txn inc [true][true] { term; }; <p>x</p> };";
    let h = s.find("<p>").unwrap();
    let mut tokens = plain(vec![
        Token::Rstruct, id("Counter"), Token::LBrace, id("count"), Token::Colon, Token::TypeInt, Token::Eq,
        Token::Integer(0), Token::Semicolon, Token::Txn, id("inc"), Token::LBracket, Token::BoolTrue, Token::RBracket,
        Token::LBracket, Token::BoolTrue, Token::RBracket, Token::LBrace, Token::Term, Token::Semicolon, Token::RBrace,
        Token::Semicolon,
    ]);
    tokens.push(sp(Token::Lt, h, h + 1));
    tokens.push(sp(id("p"), h + 1, h + 2));
    tokens.push(sp(Token::Gt, h + 2, h + 3));
    tokens.push(sp(id("x"), h + 3, h + 4));
    tokens.push(sp(Token::Lt, h + 4, h + 5));
    tokens.push(sp(Token::Slash, h + 5, h + 6));
    tokens.push(sp(id("p"), h + 6, h + 7));
    tokens.push(sp(Token::Gt, h + 7, h + 8));
    tokens.push(sp(Token::RBrace, h + 9, h + 10));
    tokens.push(sp(Token::Semicolon, h + 10, h + 11));
    let mut parser = Parser::new(tokens, s.to_string());
    let d = parser.parse_rstruct().unwrap();
    assert_eq!(d.name, "Counter");
    assert_eq!(d.fields.len(), 1);
    assert_eq!(d.fields[0].name, "count");
    assert_eq!(d.transactions.len(), 1);
    assert_eq!(d.transactions[0].name, "Counter.inc");
    assert_eq!(d.view_html, "<p>x</p>");
    assert_eq!(parser.pos(), 32);
}

#[test]
fn rstruct_needs_a_view_and_field_values() {
    let no_view = vec![sp(Token::Rstruct, 0, 7), sp(id("A"), 8, 9), sp(Token::LBrace, 10, 11), sp(Token::RBrace, 11, 12), sp(Token::Semicolon, 12, 13)];
    let mut p = Parser::new(no_view, "rstruct A {};".to_string());
    assert!(p.parse_rstruct().is_err());
    assert_eq!(p.pos(), 0);
    let no_value = plain(vec![Token::Rstruct, id("A"), Token::LBrace, id("n"), Token::Colon, Token::TypeInt, Token::Semicolon, Token::RBrace, Token::Semicolon]);
    let mut q = Parser::new(no_value, String::new());
    assert!(q.parse_rstruct().is_err());
}

#[test]
fn html_blocks() {
    assert_eq!(scan_html_block("<br/> rest", 0).unwrap(), ("<br/>".to_string(), 5));
    assert_eq!(scan_html_block("x <img src=a /> y", 2).unwrap(), ("<img src=a />".to_string(), 15));
    let nested = "<div><div>a</div></div>!";
    assert_eq!(scan_html_block(nested, 0).unwrap(), ("<div><div>a</div></div>".to_string(), 23));
    let unicode = "<p>é</p>";
    assert_eq!(scan_html_block(unicode, 0).unwrap(), ("<p>é</p>".to_string(), 9));
    assert!(scan_html_block("<div>open", 0).is_err());
    assert!(scan_html_block("</div>", 0).is_err());
    assert!(scan_html_block("<div", 0).is_err());
}

#[test]
fn render_blocks() {
    let s = "render Counter { <p>hi</p> }";
    let tokens = vec![
        sp(Token::Render, 0, 6),
        sp(id("Counter"), 7, 14),
        sp(Token::LBrace, 15, 16),
        sp(Token::Lt, 17, 18),
        sp(id("p"), 18, 19),
        sp(Token::Gt, 19, 20),
        sp(id("hi"), 20, 22),
        sp(Token::Lt, 22, 23),
        sp(Token::Slash, 23, 24),
        sp(id("p"), 24, 25),
        sp(Token::Gt, 25, 26),
        sp(Token::RBrace, 27, 28),
    ];
    let (b, q) = parse_render_block_at(&tokens, s, 0).unwrap();
    assert_eq!(b.struct_name, "Counter");
    assert_eq!(b.view_html, "<p>hi</p>");
    assert_eq!(q, 12);
    let unclosed = vec![sp(Token::Render, 0, 6), sp(id("C"), 7, 8), sp(Token::LBrace, 9, 10)];
    assert!(parse_render_block_at(&unclosed, "render C {", 0).is_err());
}

#[test]
fn imports() {
    let ts = plain(vec![
        Token::Import, Token::LBrace, id("a"), Token::As, id("b"), Token::Comma, id("c"), Token::RBrace,
        Token::From, Token::String("./x/y.css".to_string()), Token::Semicolon,
    ]);
    let (d, q) = parse_import_at(&ts, "", 0).unwrap();
    assert_eq!(d.items.len(), 2);
    assert_eq!(d.items[0].name, "a");
    assert_eq!(d.items[0].alias, Some("b".to_string()));
    assert_eq!(d.items[1].name, "c");
    assert_eq!(d.items[1].alias, None);
    assert_eq!(d.path, vec!["x".to_string(), "y.css".to_string()]);
    assert_eq!(q, 11);

    let dotted = plain(vec![Token::Import, id("std"), Token::Dot, id("io"), Token::Semicolon]);
    let (d, _) = parse_import_at(&dotted, "", 0).unwrap();
    assert!(d.items.is_empty());
    assert_eq!(d.path, vec!["std".to_string(), "io".to_string()]);

    let svg = plain(vec![Token::Import, Token::String("./logo.svg".to_string()), Token::As, id("Logo"), Token::Semicolon]);
    let (d, _) = parse_import_at(&svg, "", 0).unwrap();
    assert_eq!(d.items.len(), 1);
    assert_eq!(d.items[0].name, "Logo");
    assert_eq!(d.path, vec!["logo.svg".to_string()]);

    let both = plain(vec![Token::Import, Token::LBrace, id("a"), Token::RBrace, id("m"), Token::Semicolon]);
    assert!(parse_import_at(&both, "", 0).is_err());
}

#[test]
fn signatures() {
    let ts = plain(vec![
        Token::Sig, id("f"), Token::Colon, Token::TypeInt, Token::Arrow, Token::BoolTrue, Token::Eq, id("impl_f"),
        Token::LParen, id("x"), Token::LParen, Token::RParen, Token::RParen, Token::From, id("a"), Token::Dot, id("b"),
        Token::As, id("g"), Token::Semicolon,
    ]);
    let (s, q) = parse_signature_at(&ts, "", 0).unwrap();
    assert_eq!(s.name, "f");
    assert_eq!(s.bound_defn, Some("impl_f".to_string()));
    assert_eq!(s.source, Some("a.b".to_string()));
    assert_eq!(s.alias, Some("g".to_string()));
    assert_eq!(q, 20);
    let unclosed = plain(vec![Token::Sig, id("f"), Token::Colon, Token::TypeInt, Token::Arrow, Token::BoolTrue, Token::Eq, id("d"), Token::LParen]);
    assert!(parse_signature_at(&unclosed, "", 0).is_err());
}

#[test]
fn top_level_dispatch() {
    let ts = plain(vec![Token::Const, id("MAX"), Token::Colon, Token::TypeInt, Token::Eq, Token::Integer(8), Token::Semicolon]);
    match parse_top_level_at(&ts, "", 0).unwrap() {
        (TopLevel::Constant(c), 7) => assert_eq!(c.name, "MAX"),
        _ => panic!("expected a constant"),
    }
    let bad = plain(vec![Token::Integer(1)]);
    assert!(parse_top_level_at(&bad, "", 0).is_err());
    assert!(parse_top_level_at(&plain(vec![]), "", 0).is_err());
}

#[test]
fn whole_files() {
    let ts = plain(vec![
        id("reactor"), Token::At, Token::Integer(60), id("Hz"), Token::Semicolon,
        Token::Const, id("A"), Token::Colon, Token::TypeInt, Token::Eq, Token::Integer(1), Token::Semicolon,
        Token::Let, id("x"), Token::Colon, Token::TypeInt, Token::Eq, Token::Integer(0), Token::Semicolon,
    ]);
    let mut p = Parser::new(ts, String::new());
    let prog = p.parse().unwrap();
    assert_eq!(prog.reactor_speed, Some(60));
    assert_eq!(prog.items.len(), 2);
    assert!(prog.comments.is_empty());
    assert_eq!(p.pos(), 19);

    let plain_file = plain(vec![Token::Const, id("A"), Token::Colon, Token::TypeInt, Token::Eq, Token::Integer(1), Token::Semicolon]);
    let prog = Parser::new(plain_file, String::new()).parse().unwrap();
    assert_eq!(prog.reactor_speed, None);
    assert_eq!(prog.items.len(), 1);

    let zero = plain(vec![id("reactor"), Token::At, Token::Integer(0), Token::Semicolon]);
    assert!(Parser::new(zero, String::new()).parse().is_err());
    let empty = Parser::new(Vec::new(), String::new()).parse().unwrap();
    assert!(empty.items.is_empty());
}
