use seru::language::ast::{BinOp, ChildNode, ExprKind, ParsedStringPartKind, TopDeclaration, UnaryOp};
use seru::language::lexer::{lex, lex_with_offset, LexError, StringPartKind, SyntaxKind, Token};
use seru::language::parser::{infix_binding_power, prefix_binding_power, ParseError, Parser};
use seru::language::text::{split_whitespace, trim};
use seru::language::utils::{merge_span, Span};

fn kinds(src: &str) -> Vec<SyntaxKind> {
    lex(src).unwrap().into_iter().map(|t| SyntaxKind::from(t)).collect()
}

#[test]
fn lex_punctuation_and_keywords() {
    assert_eq!(
        kinds("component Main(): Slot()"),
        vec![
            SyntaxKind::Component,
            SyntaxKind::Identifier,
            SyntaxKind::LParen,
            SyntaxKind::RParen,
            SyntaxKind::Colon,
            SyntaxKind::Slot,
            SyntaxKind::LParen,
            SyntaxKind::RParen,
        ]
    );
    assert_eq!(
        kinds("If For in const true false null == != = + - * / , [ ] { }"),
        vec![
            SyntaxKind::If,
            SyntaxKind::For,
            SyntaxKind::In,
            SyntaxKind::Const,
            SyntaxKind::True,
            SyntaxKind::False,
            SyntaxKind::Null,
            SyntaxKind::Eq,
            SyntaxKind::Neq,
            SyntaxKind::Assign,
            SyntaxKind::Plus,
            SyntaxKind::Minus,
            SyntaxKind::Multiple,
            SyntaxKind::Divide,
            SyntaxKind::Comma,
            SyntaxKind::LBracket,
            SyntaxKind::RBracket,
            SyntaxKind::LBrace,
            SyntaxKind::RBrace,
        ]
    );
}

#[test]
fn lex_spans_are_byte_ranges() {
    let toks = lex("ab  12").unwrap();
    assert_eq!(toks.len(), 2);
    assert_eq!(toks[0].token, Token::Identifier("ab".to_string()));
    assert_eq!(toks[0].span, Span { start: 0, end: 2 });
    assert_eq!(toks[1].token, Token::Int("12".to_string()));
    assert_eq!(toks[1].span, Span { start: 4, end: 6 });
}

#[test]
fn lex_numbers() {
    let toks = lex("0 42 3.25").unwrap();
    assert_eq!(toks[0].token, Token::Int("0".to_string()));
    assert_eq!(toks[1].token, Token::Int("42".to_string()));
    assert_eq!(toks[2].token, Token::Float("3.25".to_string()));
}

#[test]
fn lex_drops_comments() {
    assert_eq!(kinds("a // note\nb"), vec![SyntaxKind::Identifier, SyntaxKind::Identifier]);
}

#[test]
fn lex_non_ascii_identifier() {
    let toks = lex("이름 é").unwrap();
    assert_eq!(toks[0].token, Token::Identifier("이름".to_string()));
    assert_eq!(toks[0].span, Span { start: 0, end: 6 });
    assert_eq!(toks[1].token, Token::Identifier("é".to_string()));
}

#[test]
fn lex_string_with_interpolation() {
    let toks = lex("\"a${x}b\"").unwrap();
    assert_eq!(toks.len(), 1);
    match &toks[0].token {
        Token::String(parts) => {
            assert_eq!(parts.len(), 3);
            assert_eq!(parts[0].kind, StringPartKind::Text("a".to_string()));
            assert_eq!(parts[1].kind, StringPartKind::Interpolation("x".to_string()));
            assert_eq!(parts[2].kind, StringPartKind::Text("b".to_string()));
        }
        other => panic!("not a string: {:?}", other),
    }
    assert_eq!(toks[0].span, Span { start: 0, end: 8 });
}

#[test]
fn lex_string_escapes() {
    let toks = lex("\"x\\n\\\"y\"").unwrap();
    match &toks[0].token {
        Token::String(parts) => {
            assert_eq!(parts.len(), 1);
            assert_eq!(parts[0].kind, StringPartKind::Text("x\n\"y".to_string()));
        }
        other => panic!("not a string: {:?}", other),
    }
}

#[test]
fn lex_invalid_character_is_an_error() {
    assert_eq!(lex("a ? b"), Err(LexError::InvalidSyntax { span: Span { start: 2, end: 3 } }));
}

#[test]
fn lex_unterminated_string_is_an_error() {
    assert!(lex("x \"abc").is_err());
}

#[test]
fn lex_with_offset_moves_spans() {
    let plain = lex("a + 1").unwrap();
    let moved = lex_with_offset("a + 1", 10).unwrap();
    assert_eq!(plain.len(), moved.len());
    for (p, m) in plain.iter().zip(moved.iter()) {
        assert_eq!(p.token, m.token);
        assert_eq!(m.span.start, p.span.start + 10);
        assert_eq!(m.span.end, p.span.end + 10);
    }
    assert_eq!(lex_with_offset("?", 5), Err(LexError::InvalidSyntax { span: Span { start: 5, end: 6 } }));
}

fn parse_src(src: &str) -> Result<seru::language::ast::SeruProgram, ParseError> {
    Parser::from_src(src)?.parse()
}

fn const_value(src: &str) -> ExprKind {
    let prog = parse_src(src).unwrap();
    assert_eq!(prog.top_declarations.len(), 1);
    match prog.top_declarations.into_iter().next().unwrap() {
        TopDeclaration::ConstDeclaration(c) => c.value.kind,
        other => panic!("not a const: {:?}", other),
    }
}

fn ident(e: &ExprKind) -> &str {
    match e {
        ExprKind::Ident(n) => n.as_str(),
        other => panic!("not an identifier: {:?}", other),
    }
}

#[test]
fn parse_multiplication_binds_tighter() {
    match const_value("const x = a + b * c") {
        ExprKind::Bin { lhs, op: BinOp::Plus, rhs } => {
            assert_eq!(ident(&lhs.kind), "a");
            match rhs.kind {
                ExprKind::Bin { lhs, op: BinOp::Multiply, rhs } => {
                    assert_eq!(ident(&lhs.kind), "b");
                    assert_eq!(ident(&rhs.kind), "c");
                }
                other => panic!("{:?}", other),
            }
        }
        other => panic!("{:?}", other),
    }
}

#[test]
fn parse_minus_groups_to_the_left() {
    match const_value("const x = a - b - c") {
        ExprKind::Bin { lhs, op: BinOp::Minus, rhs } => {
            assert_eq!(ident(&rhs.kind), "c");
            match lhs.kind {
                ExprKind::Bin { lhs, op: BinOp::Minus, rhs } => {
                    assert_eq!(ident(&lhs.kind), "a");
                    assert_eq!(ident(&rhs.kind), "b");
                }
                other => panic!("{:?}", other),
            }
        }
        other => panic!("{:?}", other),
    }
}

#[test]
fn parse_comparison_is_lowest() {
    match const_value("const x = a + b == c") {
        ExprKind::Bin { lhs, op: BinOp::Eq, rhs } => {
            assert_eq!(ident(&rhs.kind), "c");
            assert!(matches!(lhs.kind, ExprKind::Bin { op: BinOp::Plus, .. }));
        }
        other => panic!("{:?}", other),
    }
}

#[test]
fn parse_prefix_operators() {
    match const_value("const x = -a * b") {
        ExprKind::Bin { lhs, op: BinOp::Multiply, .. } => {
            assert!(matches!(lhs.kind, ExprKind::Unary { op: UnaryOp::Minus, .. }));
        }
        other => panic!("{:?}", other),
    }
}

#[test]
fn parse_literals_call_and_index() {
    assert!(matches!(const_value("const x = 12"), ExprKind::Number(n) if n == "12"));
    assert!(matches!(const_value("const x = 0.5"), ExprKind::Number(n) if n == "0.5"));
    assert!(matches!(const_value("const x = true"), ExprKind::Bool(true)));
    assert!(matches!(const_value("const x = null"), ExprKind::Null));
    match const_value("const x = \"hi\"") {
        ExprKind::StringInterpolation(parts) => {
            assert_eq!(parts.len(), 1);
            assert!(matches!(&parts[0].kind, ParsedStringPartKind::Text(t) if t == "hi"));
        }
        other => panic!("{:?}", other),
    }
    match const_value("const x = [1, 2, 3]") {
        ExprKind::Array(items) => assert_eq!(items.len(), 3),
        other => panic!("{:?}", other),
    }
    match const_value("const x = repeat(\"a\", 3)") {
        ExprKind::Call { callee, args } => {
            assert_eq!(ident(&callee.kind), "repeat");
            assert_eq!(args.len(), 2);
        }
        other => panic!("{:?}", other),
    }
    match const_value("const x = xs[-1]") {
        ExprKind::Index { target, index } => {
            assert_eq!(ident(&target.kind), "xs");
            assert!(matches!(index.kind, ExprKind::Unary { op: UnaryOp::Minus, .. }));
        }
        other => panic!("{:?}", other),
    }
}

#[test]
fn parse_interpolated_string() {
    match const_value("const x = \"n=${a + 1}!\"") {
        ExprKind::StringInterpolation(parts) => assert_eq!(parts.len(), 3),
        other => panic!("{:?}", other),
    }
}

#[test]
fn parse_component_with_children() {
    let src = "component Card(title, size = 12):\n    Column(gap=8)[\n        Text(text=title)\n        If (size == 12) [ Slot() ]\n        For (i, x in [1, 2]) [ Text(text=x) ]\n    ]";
    let prog = parse_src(src).unwrap();
    assert_eq!(prog.top_declarations.len(), 1);
    match &prog.top_declarations[0] {
        TopDeclaration::ComponentDeclaration(c) => {
            assert_eq!(c.name, "Card");
            assert_eq!(c.arg_declarations.len(), 2);
            assert_eq!(c.arg_declarations[0].name, "title");
            assert!(c.arg_declarations[0].default.is_none());
            assert_eq!(c.arg_declarations[1].name, "size");
            assert!(c.arg_declarations[1].default.is_some());
            match &c.body {
                ChildNode::ComponentCall(call) => {
                    assert_eq!(call.name, "Column");
                    assert_eq!(call.args.len(), 1);
                    assert_eq!(call.args[0].name, "gap");
                    assert_eq!(call.body.len(), 3);
                    assert!(matches!(call.body[1], ChildNode::If(_)));
                    match &call.body[2] {
                        ChildNode::For(f) => {
                            assert_eq!(f.index_name, Some("i".to_string()));
                            assert_eq!(f.item_name, "x");
                        }
                        other => panic!("{:?}", other),
                    }
                }
                other => panic!("{:?}", other),
            }
        }
        other => panic!("{:?}", other),
    }
}

#[test]
fn parse_refuses_duplicate_argument() {
    match parse_src("component A(x, x): Slot()") {
        Err(ParseError::DuplicateArgument { name, .. }) => assert_eq!(name, "x"),
        other => panic!("{:?}", other),
    }
}

#[test]
fn parse_refuses_stray_top_level_token() {
    assert!(matches!(
        parse_src("42"),
        Err(ParseError::ExpectedDeclaration { found: SyntaxKind::Int, .. })
    ));
}

#[test]
fn parse_reports_lex_errors() {
    assert!(matches!(parse_src("const x = ?"), Err(ParseError::Lex(_))));
}

#[test]
fn parse_empty_program() {
    let prog = parse_src("  // nothing\n").unwrap();
    assert_eq!(prog.top_declarations.len(), 0);
}

#[test]
fn binding_powers() {
    assert_eq!(infix_binding_power(&BinOp::Eq), (1, 2));
    assert_eq!(infix_binding_power(&BinOp::Neq), (1, 2));
    assert_eq!(infix_binding_power(&BinOp::Plus), (3, 4));
    assert_eq!(infix_binding_power(&BinOp::Minus), (3, 4));
    assert_eq!(infix_binding_power(&BinOp::Multiply), (5, 6));
    assert_eq!(infix_binding_power(&BinOp::Divide), (5, 6));
    assert_eq!(prefix_binding_power(&UnaryOp::Minus).1, 8);
    assert_eq!(prefix_binding_power(&UnaryOp::Plus).1, 8);
    assert_eq!(prefix_binding_power(&UnaryOp::Not).1, 10);
}

#[test]
fn merge_span_covers_both() {
    let a = Span { start: 4, end: 7 };
    let b = Span { start: 1, end: 5 };
    assert_eq!(merge_span(&a, &b), Span { start: 1, end: 7 });
}

#[test]
fn trim_and_split_whitespace() {
    assert_eq!(trim("  a b \n"), "a b");
    assert_eq!(trim("\u{3000}x\u{a0}"), "x");
    assert_eq!(split_whitespace(" 8  12\t16 20 "), vec!["8", "12", "16", "20"]);
    assert_eq!(split_whitespace("   "), Vec::<String>::new());
}

#[test]
fn identifiers_follow_xid() {
    let toks = lex("a\u{301}b _x1 x\u{b7}y").unwrap();
    assert_eq!(toks.len(), 3);
    assert_eq!(toks[0].token, Token::Identifier("a\u{301}b".to_string()));
    assert_eq!(toks[1].token, Token::Identifier("_x1".to_string()));
    assert_eq!(toks[2].token, Token::Identifier("x\u{b7}y".to_string()));
    assert!(lex("\u{301}").is_err());
    assert!(lex("\u{b2}").is_err());
}

#[test]
fn lower_case_if_and_for_are_names() {
    let toks = lex("if for").unwrap();
    assert_eq!(toks[0].token, Token::Identifier("if".to_string()));
    assert_eq!(toks[1].token, Token::Identifier("for".to_string()));
}

#[test]
fn parse_documented_if_and_for_nodes() {
    let src = "component Main(xs):\n  Box()[\n    If(true)[ Text(text=\"a\") ]\n    For(x in xs)[ Text(text=x) ]\n  ]";
    let prog = parse_src(src).unwrap();
    assert_eq!(prog.top_declarations.len(), 1);
    match &prog.top_declarations[0] {
        TopDeclaration::ComponentDeclaration(c) => {
            assert_eq!(c.name, "Main");
            match &c.body {
                ChildNode::ComponentCall(call) => {
                    assert_eq!(call.name, "Box");
                    assert_eq!(call.body.len(), 2);
                    match &call.body[0] {
                        ChildNode::If(b) => {
                            assert!(matches!(b.condition.kind, ExprKind::Bool(true)));
                            assert_eq!(b.body.len(), 1);
                        }
                        other => panic!("{:?}", other),
                    }
                    match &call.body[1] {
                        ChildNode::For(f) => {
                            assert_eq!(f.index_name, None);
                            assert_eq!(f.item_name, "x");
                            assert_eq!(ident(&f.iterable.kind), "xs");
                            assert_eq!(f.body.len(), 1);
                        }
                        other => panic!("{:?}", other),
                    }
                }
                other => panic!("{:?}", other),
            }
        }
        other => panic!("{:?}", other),
    }
}

#[test]
fn parse_call_of_the_if_builtin() {
    let mut p = Parser::from_src("if(true, 1, 2)").unwrap();
    let e = p.parse_expr().unwrap();
    assert_eq!(e.span, Span { start: 0, end: 14 });
    match e.kind {
        ExprKind::Call { callee, args } => {
            assert_eq!(ident(&callee.kind), "if");
            assert_eq!(args.len(), 3);
            assert!(matches!(args[0].kind, ExprKind::Bool(true)));
            assert!(matches!(&args[1].kind, ExprKind::Number(n) if n == "1"));
            assert!(matches!(&args[2].kind, ExprKind::Number(n) if n == "2"));
        }
        other => panic!("{:?}", other),
    }
}
