use engine::ast::AstNode;
use engine::errors::CompileError;
use engine::parser::parse;
use engine::run;
use engine::runtime::{
    call_builtin, eval, eval_call, execute, read_stdin, run_with_output, Builtin, Env,
};
use engine::sanitizer::sanitize_shell_input;
use engine::types::{Taint, Value};

fn runtime_error(text: &str) -> CompileError {
    CompileError::RuntimeError(text.to_string())
}

fn clean(text: &str) -> Value<String> {
    Value::new(text.to_string(), Taint::Clean)
}

fn tainted(text: &str) -> Value<String> {
    Value::new(text.to_string(), Taint::Tainted)
}

fn lines(out: &[&str]) -> Vec<String> {
    out.iter().map(|s| s.to_string()).collect()
}

fn call(func: &str, args: Vec<AstNode>) -> AstNode {
    AstNode::Call { func: func.to_string(), args }
}

fn name(n: &str) -> AstNode {
    AstNode::Ident(n.to_string())
}

#[test]
fn taint_prevents_direct_execute() {
    let src = r#"execute_command(read_stdin());"#;
    let err = run(src).unwrap_err();
    assert!(
        err.message().contains("tainted"),
        "Expected taint error, got: {}",
        err.message()
    );
}

#[test]
fn sanitize_allows_execute() {
    let src = r#"
            let u = read_stdin();
            let c = sanitize_shell_input(u);
            execute_command(c);
        "#;
    // Should not error
    run(src).unwrap();
}

#[test]
fn taint_fail_example_errors() {
    let script = "execute_command(read_stdin());";
    let outcome = run_with_output(script);
    let err = outcome.result.unwrap_err();
    assert!(err.message().contains("tainted"));
    assert_eq!(err.message(), "Runtime error: Attempted to execute tainted command");
    assert_eq!(outcome.output, lines(&[]));
}

#[test]
fn nested_calls_work() {
    let script = r#"
        let u = read_stdin();
        let c = sanitize_shell_input(u);
        execute_command(c);
    "#;
    let outcome = run_with_output(script);
    assert_eq!(outcome.result, Ok(()));
    assert_eq!(outcome.output, lines(&["> <<user input>>"]));
}

#[test]
fn let_then_say_succeeds() {
    assert_eq!(run("let x = 42; say(x);"), Ok(()));
    let outcome = run_with_output("let x = 42; say(x);");
    assert_eq!(outcome.result, Ok(()));
    assert_eq!(outcome.output, lines(&["42"]));
}

#[test]
fn unknown_function_parses_but_does_not_run() {
    let program = parse("do_stuff(1, 2, \"hi\");").unwrap();
    assert_eq!(program.len(), 1);
    match &program[0] {
        AstNode::Call { func, args } => {
            assert_eq!(func, "do_stuff");
            assert_eq!(args.len(), 3);
        }
        other => panic!("Expected a call, got {:?}", other),
    }
    let outcome = execute(&program);
    assert_eq!(outcome.result, Err(runtime_error("Unknown function 'do_stuff'")));
    assert_eq!(
        run("do_stuff(1, 2, \"hi\");").unwrap_err().message(),
        "Runtime error: Unknown function 'do_stuff'"
    );
}

#[test]
fn truncated_let_is_a_parse_fault() {
    let err = run("let x = foo(").unwrap_err();
    assert_eq!(err, CompileError::ParseError("Missing ';' in let".to_string()));
    assert_eq!(err.message(), "Parse error: Missing ';' in let");
}

#[test]
fn cast_block_runs_nothing() {
    let outcome = run_with_output("cast { execute_command(read_stdin()); }");
    assert_eq!(outcome.result, Ok(()));
    assert_eq!(outcome.output, lines(&[]));
    assert_eq!(parse("cast { execute_command(read_stdin()); }"), Ok(vec![]));
}

#[test]
fn cast_block_binds_nothing() {
    assert_eq!(
        run("cast { let x = 1; } } say(x);"),
        Err(runtime_error("Unknown variable 'x'"))
    );
}

#[test]
fn empty_program_succeeds() {
    assert_eq!(run(""), Ok(()));
    let outcome = execute(&vec![]);
    assert_eq!(outcome.result, Ok(()));
    assert_eq!(outcome.output, lines(&[]));
}

#[test]
fn source_value_is_tainted() {
    let env = Env::new();
    let mut out = Vec::new();
    let v = eval(&call("read_stdin", vec![]), &env, &mut out).unwrap();
    assert_eq!(v, tainted("<<user input>>"));
    assert_eq!(read_stdin(), "<<user input>>");
    assert_eq!(out, lines(&[]));
}

#[test]
fn taint_survives_references() {
    let mut env = Env::new();
    env.insert("u".to_string(), tainted("raw"));
    env.insert("c".to_string(), clean("ok"));
    let mut out = Vec::new();
    for _ in 0..3 {
        assert_eq!(eval(&name("u"), &env, &mut out), Ok(tainted("raw")));
        assert_eq!(eval(&name("c"), &env, &mut out), Ok(clean("ok")));
    }
    assert_eq!(
        run("let u = read_stdin(); say(u); say(u); let v = 1; execute_command(u);"),
        Err(runtime_error("Attempted to execute tainted command"))
    );
}

#[test]
fn rebinding_overwrites() {
    assert_eq!(
        run("let u = read_stdin(); let u = sanitize_shell_input(u); execute_command(u);"),
        Ok(())
    );
    assert_eq!(
        run("let u = \"ls\"; let u = read_stdin(); execute_command(u);"),
        Err(runtime_error("Attempted to execute tainted command"))
    );
    let outcome = run_with_output("let x = 1; let x = 2; say(x);");
    assert_eq!(outcome.output, lines(&["2"]));
}

#[test]
fn sanitizer_keeps_payload_and_cleans() {
    assert_eq!(sanitize_shell_input(tainted("rm -rf")), Ok(clean("rm -rf")));
    assert_eq!(sanitize_shell_input(clean("ls")), Ok(clean("ls")));
    let once = sanitize_shell_input(tainted("x")).unwrap();
    let twice = sanitize_shell_input(once.clone()).unwrap();
    assert_eq!(once, twice);
    assert_eq!(sanitize_shell_input(tainted("")), Ok(clean("")));
}

#[test]
fn sanitizer_builtin_on_both_taints() {
    let mut out = Vec::new();
    assert_eq!(
        call_builtin("sanitize_shell_input", vec![tainted("a")], &mut out),
        Ok(clean("a"))
    );
    assert_eq!(
        call_builtin("sanitize_shell_input", vec![clean("a")], &mut out),
        Ok(clean("a"))
    );
    assert_eq!(out, lines(&[]));
}

#[test]
fn sink_rejects_tainted_and_accepts_clean() {
    let mut out = Vec::new();
    assert_eq!(
        call_builtin("execute_command", vec![tainted("rm")], &mut out),
        Err(runtime_error("Attempted to execute tainted command"))
    );
    assert_eq!(out, lines(&[]));
    assert_eq!(
        call_builtin("execute_command", vec![clean("ls -l")], &mut out),
        Ok(clean(""))
    );
    assert_eq!(out, lines(&["> ls -l"]));
    assert_eq!(call_builtin("execute_command", vec![clean("")], &mut out), Ok(clean("")));
    assert_eq!(out, lines(&["> ls -l", "> "]));
}

#[test]
fn say_accepts_any_taint() {
    let mut out = Vec::new();
    assert_eq!(call_builtin("say", vec![tainted("t")], &mut out), Ok(clean("")));
    assert_eq!(call_builtin("say", vec![clean("c")], &mut out), Ok(clean("")));
    assert_eq!(out, lines(&["t", "c"]));
    assert_eq!(run("say(read_stdin());"), Ok(()));
}

#[test]
fn every_builtin_checks_its_arity() {
    let mut out = Vec::new();
    assert_eq!(
        call_builtin("read_stdin", vec![clean("x")], &mut out),
        Err(runtime_error("read_stdin expects 0 args"))
    );
    assert_eq!(
        call_builtin("sanitize_shell_input", vec![], &mut out),
        Err(runtime_error("sanitize_shell_input expects 1 arg"))
    );
    assert_eq!(
        call_builtin("sanitize_shell_input", vec![clean("a"), clean("b")], &mut out),
        Err(runtime_error("sanitize_shell_input expects 1 arg"))
    );
    assert_eq!(
        call_builtin("execute_command", vec![], &mut out),
        Err(runtime_error("execute_command expects 1 arg"))
    );
    assert_eq!(
        call_builtin("execute_command", vec![clean("a"), tainted("b")], &mut out),
        Err(runtime_error("execute_command expects 1 arg"))
    );
    assert_eq!(
        call_builtin("say", vec![], &mut out),
        Err(runtime_error("say expects 1 arg"))
    );
    assert_eq!(
        call_builtin("say", vec![clean("a"), clean("b")], &mut out),
        Err(runtime_error("say expects 1 arg"))
    );
    assert_eq!(out, lines(&[]));
    assert_eq!(run("read_stdin(1);"), Err(runtime_error("read_stdin expects 0 args")));
    assert_eq!(run("say();"), Err(runtime_error("say expects 1 arg")));
}

#[test]
fn unknown_names() {
    let mut out = Vec::new();
    assert_eq!(
        call_builtin("Say", vec![clean("a")], &mut out),
        Err(runtime_error("Unknown function 'Say'"))
    );
    assert_eq!(
        call_builtin("", vec![], &mut out),
        Err(runtime_error("Unknown function ''"))
    );
    assert_eq!(run("say(x);"), Err(runtime_error("Unknown variable 'x'")));
    assert_eq!(
        run("say(x);").unwrap_err().message(),
        "Runtime error: Unknown variable 'x'"
    );
}

#[test]
fn arguments_are_evaluated_before_the_function_is_looked_up() {
    assert_eq!(run("nope(missing);"), Err(runtime_error("Unknown variable 'missing'")));
    let outcome = run_with_output("nope(say(1), say(2));");
    assert_eq!(outcome.result, Err(runtime_error("Unknown function 'nope'")));
    assert_eq!(outcome.output, lines(&["1", "2"]));
}

#[test]
fn arguments_are_evaluated_left_to_right_and_stop_at_the_first_failure() {
    let outcome = run_with_output("say(say(1), missing, say(3));");
    assert_eq!(outcome.result, Err(runtime_error("Unknown variable 'missing'")));
    assert_eq!(outcome.output, lines(&["1"]));
}

#[test]
fn the_run_stops_at_the_first_failure() {
    let outcome = run_with_output("say(1); say(x); say(3);");
    assert_eq!(outcome.result, Err(runtime_error("Unknown variable 'x'")));
    assert_eq!(outcome.output, lines(&["1"]));
    let outcome = run_with_output("say(1); let");
    assert_eq!(outcome.result, Err(CompileError::ParseError("Incomplete let".to_string())));
    assert_eq!(outcome.output, lines(&[]));
}

#[test]
fn literals_are_clean() {
    let env = Env::new();
    let mut out = Vec::new();
    assert_eq!(
        eval(&AstNode::Number("42".to_string()), &env, &mut out),
        Ok(clean("42"))
    );
    assert_eq!(
        eval(&AstNode::StrLiteral("a\\\"b".to_string()), &env, &mut out),
        Ok(clean("a\\\"b"))
    );
    assert_eq!(run("execute_command(\"ls\"); execute_command(7);"), Ok(()));
    let outcome = run_with_output("execute_command(\"ls\"); say(\"a\\nb\");");
    assert_eq!(outcome.output, lines(&["> ls", "a\\nb"]));
}

#[test]
fn statements_are_no_expressions() {
    let env = Env::new();
    let mut out = Vec::new();
    assert_eq!(
        eval(&AstNode::Noop, &env, &mut out),
        Err(runtime_error("Unsupported expression"))
    );
    let binding = AstNode::Let { name: "x".to_string(), expr: Box::new(AstNode::Noop) };
    assert_eq!(eval(&binding, &env, &mut out), Err(runtime_error("Unsupported expression")));
    let outcome = execute(&vec![binding]);
    assert_eq!(outcome.result, Err(runtime_error("Unsupported expression")));
}

#[test]
fn no_ops_do_nothing() {
    let outcome = run_with_output("; x ; say(1); when");
    assert_eq!(outcome.result, Ok(()));
    assert_eq!(outcome.output, lines(&["1"]));
    let outcome = execute(&vec![AstNode::Noop, AstNode::Number("1".to_string()), name("x")]);
    assert_eq!(outcome.result, Ok(()));
}

#[test]
fn results_of_effect_builtins_are_empty_and_clean() {
    let outcome = run_with_output("let r = say(read_stdin()); execute_command(r);");
    assert_eq!(outcome.result, Ok(()));
    assert_eq!(outcome.output, lines(&["<<user input>>", "> "]));
}

#[test]
fn eval_call_runs_its_arguments() {
    let mut env = Env::new();
    env.insert("c".to_string(), clean("date"));
    let mut out = Vec::new();
    let args = vec![call("sanitize_shell_input", vec![call("read_stdin", vec![])])];
    assert_eq!(eval_call("execute_command", &args, &env, &mut out), Ok(clean("")));
    assert_eq!(eval_call("execute_command", &vec![name("c")], &env, &mut out), Ok(clean("")));
    assert_eq!(out, lines(&["> <<user input>>", "> date"]));
}

#[test]
fn builtin_table() {
    assert_eq!(Builtin::lookup("read_stdin"), Some(Builtin::ReadStdin));
    assert_eq!(Builtin::lookup("sanitize_shell_input"), Some(Builtin::SanitizeShellInput));
    assert_eq!(Builtin::lookup("execute_command"), Some(Builtin::ExecuteCommand));
    assert_eq!(Builtin::lookup("say"), Some(Builtin::Say));
    assert_eq!(Builtin::lookup("SAY"), None);
    assert_eq!(Builtin::lookup("say "), None);
    assert_eq!(Builtin::lookup(""), None);
    assert_eq!(Builtin::ReadStdin.arity(), 0);
    assert_eq!(Builtin::SanitizeShellInput.arity(), 1);
    assert_eq!(Builtin::ExecuteCommand.arity(), 1);
    assert_eq!(Builtin::Say.arity(), 1);
    assert_eq!(Builtin::Say.wrong_arity(), runtime_error("say expects 1 arg"));
}

#[test]
fn error_messages_name_the_stage() {
    assert_eq!(CompileError::LexError("bad".to_string()).message(), "Lex error: bad");
    assert_eq!(CompileError::ParseError("bad".to_string()).message(), "Parse error: bad");
    assert_eq!(CompileError::RuntimeError("bad".to_string()).message(), "Runtime error: bad");
    assert_eq!(CompileError::LexError(String::new()).message(), "Lex error: ");
}

#[test]
fn value_new_pairs_payload_and_taint() {
    let v = Value::new(5u8, Taint::Tainted);
    assert_eq!(v.inner, 5);
    assert_eq!(v.taint, Taint::Tainted);
    assert_ne!(Taint::Clean, Taint::Tainted);
}

#[test]
fn a_prefix_of_statements_before_a_script_is_just_more_statements() {
    let prelude = "let greeting = \"hi\";\n# library\n";
    let script = "say(greeting);";
    let outcome = run_with_output(&format!("{}\n{}", prelude, script));
    assert_eq!(outcome.result, Ok(()));
    assert_eq!(outcome.output, lines(&["hi"]));
}
