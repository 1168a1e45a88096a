use engine::ast::AstNode;
use engine::errors::CompileError;
use engine::lexer::{lex, TokenKind};
use engine::parser::{parse, parse_tokens};

fn parse_error(text: &str) -> CompileError {
    CompileError::ParseError(text.to_string())
}

fn call(func: &str, args: Vec<AstNode>) -> AstNode {
    AstNode::Call { func: func.to_string(), args }
}

fn bind(name: &str, expr: AstNode) -> AstNode {
    AstNode::Let { name: name.to_string(), expr: Box::new(expr) }
}

fn num(text: &str) -> AstNode {
    AstNode::Number(text.to_string())
}

fn text(t: &str) -> AstNode {
    AstNode::StrLiteral(t.to_string())
}

fn name(n: &str) -> AstNode {
    AstNode::Ident(n.to_string())
}

#[test]
fn parse_standalone_call() {
    let ast = parse("do_stuff(1, 2, \"hi\");").unwrap();
    match &ast[0] {
        AstNode::Call { func, args } => {
            assert_eq!(func, "do_stuff");
            assert_eq!(args.len(), 3);
        }
        _ => panic!("Expected Call node"),
    }
}

#[test]
fn parse_call_in_let() {
    let ast = parse("let x = foo(\"a\", b);").unwrap();
    match &ast[0] {
        AstNode::Let { name, expr } => {
            assert_eq!(name, "x");
            if let AstNode::Call { func, args } = &**expr {
                assert_eq!(func, "foo");
                assert_eq!(args.len(), 2);
            } else {
                panic!("Expected Call in let");
            }
        }
        _ => panic!("Expected Let node"),
    }
}

#[test]
fn parse_nested_call_in_arg() {
    let ast = parse("execute_command(read_stdin());").unwrap();
    match &ast[0] {
        AstNode::Call { func, args } => {
            assert_eq!(func, "execute_command");
            assert_eq!(args.len(), 1);
            if let AstNode::Call { func: inner, args: _ } = &args[0] {
                assert_eq!(inner, "read_stdin");
            } else {
                panic!("Expected nested Call");
            }
        }
        _ => panic!("Expected top-level Call"),
    }
}

#[test]
fn empty_input_parses_to_no_statement() {
    assert_eq!(parse(""), Ok(vec![]));
    assert_eq!(parse_tokens(vec![]), Ok(vec![]));
    assert_eq!(parse("  # only a comment\n"), Ok(vec![]));
}

#[test]
fn statements_keep_source_order() {
    assert_eq!(
        parse("let a = 1; say(a); let b = \"s\";"),
        Ok(vec![
            bind("a", num("1")),
            call("say", vec![name("a")]),
            bind("b", text("s"))
        ])
    );
}

#[test]
fn arguments_keep_source_order_and_nest() {
    assert_eq!(
        parse("f(1, g(x, h()), \"s\", y);"),
        Ok(vec![call(
            "f",
            vec![
                num("1"),
                call("g", vec![name("x"), call("h", vec![])]),
                text("s"),
                name("y")
            ]
        )])
    );
}

#[test]
fn commas_are_only_separators() {
    assert_eq!(parse("f(,,1,,2,);"), Ok(vec![call("f", vec![num("1"), num("2")])]));
    assert_eq!(parse("f(1 2);"), Ok(vec![call("f", vec![num("1"), num("2")])]));
}

#[test]
fn number_text_is_kept_as_written() {
    assert_eq!(parse("let x = 1.50;"), Ok(vec![bind("x", num("1.50"))]));
}

#[test]
fn fallback_yields_one_noop_per_token() {
    assert_eq!(parse(";"), Ok(vec![AstNode::Noop]));
    assert_eq!(parse("x"), Ok(vec![AstNode::Noop]));
    assert_eq!(parse("x y"), Ok(vec![AstNode::Noop, AstNode::Noop]));
    assert_eq!(
        parse("when else unsafe 1 \"s\" @"),
        Ok(vec![
            AstNode::Noop,
            AstNode::Noop,
            AstNode::Noop,
            AstNode::Noop,
            AstNode::Noop,
            AstNode::Noop
        ])
    );
    assert_eq!(parse("} say(1);"), Ok(vec![AstNode::Noop, call("say", vec![num("1")])]));
}

#[test]
fn incomplete_let() {
    assert_eq!(parse("let"), Err(parse_error("Incomplete let")));
    assert_eq!(parse("let x"), Err(parse_error("Incomplete let")));
    assert_eq!(parse("let x ="), Err(parse_error("Incomplete let")));
    assert_eq!(parse("say(1); let x ="), Err(parse_error("Incomplete let")));
}

#[test]
fn let_needs_an_identifier() {
    assert_eq!(parse("let 1 = 2;"), Err(parse_error("Expected identifier")));
    assert_eq!(parse("let let = 2;"), Err(parse_error("Expected identifier")));
}

#[test]
fn let_needs_an_equals_sign() {
    assert_eq!(parse("let x 1 2;"), Err(parse_error("Expected '='")));
    assert_eq!(parse("let x ; 2;"), Err(parse_error("Expected '='")));
}

#[test]
fn let_needs_a_literal_or_a_call() {
    assert_eq!(parse("let x = ;;"), Err(parse_error("Expected literal or call")));
    assert_eq!(parse("let x = (1);"), Err(parse_error("Expected literal or call")));
}

#[test]
fn let_needs_a_semicolon() {
    assert_eq!(parse("let x = 1"), Err(parse_error("Missing ';' in let")));
    assert_eq!(parse("let x = \"s\""), Err(parse_error("Missing ';' in let")));
    assert_eq!(parse("let x = 1 2"), Err(parse_error("Missing ';' in let")));
    assert_eq!(parse("let x = f() y"), Err(parse_error("Missing ';' in let")));
}

#[test]
fn truncated_call_in_let_reports_the_missing_terminator() {
    assert_eq!(parse("let x = foo("), Err(parse_error("Missing ';' in let")));
    assert_eq!(parse("let x = foo(1, 2"), Err(parse_error("Missing ';' in let")));
}

#[test]
fn a_bare_identifier_is_no_right_hand_side() {
    assert_eq!(parse("let x = y;"), Err(parse_error("Expected literal or call")));
    assert_eq!(parse("let x = y"), Err(parse_error("Expected literal or call")));
    assert_eq!(parse("let x = y z"), Err(parse_error("Expected literal or call")));
    assert_eq!(parse("let x = y z w;"), Err(parse_error("Expected literal or call")));
    assert_eq!(parse("let x = y;);"), Err(parse_error("Expected literal or call")));
    assert_eq!(parse("let x = y, 1);"), Err(parse_error("Expected literal or call")));
}

#[test]
fn a_bare_identifier_with_a_stray_closing_parenthesis() {
    let tokens = vec![
        (TokenKind::Let, 0..3),
        (TokenKind::Ident("x".into()), 4..5),
        (TokenKind::Eq, 6..7),
        (TokenKind::Ident("y".into()), 8..9),
        (TokenKind::Semi, 9..10),
        (TokenKind::RParen, 10..11),
        (TokenKind::Semi, 11..12),
    ];
    assert_eq!(parse_tokens(tokens), Err(parse_error("Expected literal or call")));
}

#[test]
fn a_name_is_a_right_hand_side_only_as_a_call() {
    assert_eq!(parse("let x = y();"), Ok(vec![bind("x", call("y", vec![]))]));
    assert_eq!(parse("let x = y(z);"), Ok(vec![bind("x", call("y", vec![name("z")]))]));
    assert_eq!(parse("let x = y ("), Err(parse_error("Missing ';' in let")));
}

#[test]
fn units_in_a_row_parse_as_the_units() {
    let first = "let a = 1; say(a);";
    let second = "let b = f(a, \"s\"); x ; say(b);";
    let mut both = parse(first).unwrap();
    both.extend(parse(second).unwrap());
    assert_eq!(parse(&format!("{}{}", first, second)), Ok(both));
    let mut both = parse(first).unwrap();
    both.extend(parse(second).unwrap());
    assert_eq!(parse(&format!("{}\n{}", first, second)), Ok(both));
}

#[test]
fn statements_have_the_shape_of_the_grammar() {
    fn is_argument(node: &AstNode) -> bool {
        match node {
            AstNode::Number(_) | AstNode::StrLiteral(_) | AstNode::Ident(_) => true,
            AstNode::Call { args, .. } => args.iter().all(is_argument),
            _ => false,
        }
    }
    let program = parse("let a = 1; let b = \"s\"; let c = f(a, g(1, h()), \"t\"); k(c); ; x")
        .unwrap();
    assert_eq!(program.len(), 6);
    for stmt in &program {
        match stmt {
            AstNode::Let { expr, .. } => match &**expr {
                AstNode::Number(_) | AstNode::StrLiteral(_) => {}
                call @ AstNode::Call { .. } => assert!(is_argument(call)),
                other => panic!("Unexpected right-hand side {:?}", other),
            },
            call @ AstNode::Call { .. } => assert!(is_argument(call)),
            AstNode::Noop => {}
            other => panic!("Unexpected statement {:?}", other),
        }
    }
}

#[test]
fn call_statement_needs_a_semicolon() {
    assert_eq!(parse("f()"), Err(parse_error("Missing ';' after call")));
    assert_eq!(parse("f(1"), Err(parse_error("Missing ';' after call")));
    assert_eq!(parse("f() g();"), Err(parse_error("Missing ';' after call")));
}

#[test]
fn invalid_call_arguments_name_the_token() {
    assert_eq!(parse("f(;);"), Err(parse_error("Invalid call argument: Semi")));
    assert_eq!(parse("f(let);"), Err(parse_error("Invalid call argument: Let")));
    assert_eq!(parse("f(cast);"), Err(parse_error("Invalid call argument: Cast")));
    assert_eq!(parse("f(when);"), Err(parse_error("Invalid call argument: When")));
    assert_eq!(parse("f(else);"), Err(parse_error("Invalid call argument: Else")));
    assert_eq!(parse("f(unsafe);"), Err(parse_error("Invalid call argument: Unsafe")));
    assert_eq!(parse("f(=);"), Err(parse_error("Invalid call argument: Eq")));
    assert_eq!(parse("f(();"), Err(parse_error("Invalid call argument: LParen")));
    assert_eq!(parse("f({);"), Err(parse_error("Invalid call argument: LBrace")));
    assert_eq!(parse("f(});"), Err(parse_error("Invalid call argument: RBrace")));
    assert_eq!(parse("f(@);"), Err(parse_error("Invalid call argument: Error")));
    assert_eq!(parse("f(g(;));"), Err(parse_error("Invalid call argument: Semi")));
}

#[test]
fn the_first_failure_is_the_one_reported() {
    assert_eq!(parse("let x = 1; let 2; f(;);"), Err(parse_error("Expected identifier")));
    assert_eq!(parse("f(;); let"), Err(parse_error("Invalid call argument: Semi")));
}

#[test]
fn cast_block_yields_no_statement() {
    assert_eq!(parse("cast { execute_command(read_stdin()); }"), Ok(vec![]));
    assert_eq!(parse("cast"), Ok(vec![]));
    assert_eq!(parse("cast {"), Ok(vec![]));
}

#[test]
fn cast_block_hides_what_would_not_parse() {
    assert_eq!(parse("cast { let ; f(;) { { } cast } @ \"x }"), Ok(vec![]));
    assert_eq!(parse("cast { { a } { b { c } } cast { d } }"), Ok(vec![]));
}

#[test]
fn cast_skip_ends_at_the_first_unmatched_closing_brace() {
    assert_eq!(parse("cast } say(1);"), Ok(vec![call("say", vec![num("1")])]));
    assert_eq!(
        parse("cast a b c } say(1);"),
        Ok(vec![call("say", vec![num("1")])])
    );
    assert_eq!(
        parse("cast { a } } say(1);"),
        Ok(vec![call("say", vec![num("1")])])
    );
    assert_eq!(
        parse("say(0); cast { { x } y } } say(1);"),
        Ok(vec![call("say", vec![num("0")]), call("say", vec![num("1")])])
    );
}

#[test]
fn cast_skip_goes_on_after_a_balanced_block() {
    // The brace that closes the block brings the depth back to zero; only
    // a further closing brace ends the skip.
    assert_eq!(parse("cast { a } say(1);"), Ok(vec![]));
    assert_eq!(parse("cast { a } let"), Ok(vec![]));
}

#[test]
fn parse_tokens_ignores_spans() {
    let mut tokens = lex("let x = f(1);");
    for t in tokens.iter_mut() {
        t.1 = 0..0;
    }
    assert_eq!(parse_tokens(tokens), Ok(vec![bind("x", call("f", vec![num("1")]))]));
}

#[test]
fn parse_tokens_on_hand_made_tokens() {
    let tokens = vec![
        (TokenKind::Ident("f".to_string()), 0..1),
        (TokenKind::LParen, 1..2),
        (TokenKind::Comment, 2..3),
    ];
    assert_eq!(parse_tokens(tokens), Err(parse_error("Invalid call argument: Comment")));
    let tokens = vec![(TokenKind::Comment, 0..1), (TokenKind::Error, 1..2)];
    assert_eq!(parse_tokens(tokens), Ok(vec![AstNode::Noop, AstNode::Noop]));
}

#[test]
fn deep_nesting_parses() {
    let mut src = String::new();
    for _ in 0..200 {
        src.push_str("f(");
    }
    src.push_str("1");
    for _ in 0..200 {
        src.push_str(")");
    }
    src.push_str(";");
    let ast = parse(&src).unwrap();
    assert_eq!(ast.len(), 1);
    let mut depth = 0;
    let mut node = &ast[0];
    while let AstNode::Call { func, args } = node {
        assert_eq!(func, "f");
        assert_eq!(args.len(), 1);
        depth += 1;
        node = &args[0];
    }
    assert_eq!(depth, 200);
    assert_eq!(node, &num("1"));
}
