//! Evaluation: statements are executed in order against one table of
//! bindings, and a tainted value is never let into the command sink.
//!
//! The sink and the other side effects are simulated: what a run would emit
//! is collected as lines of output and handed back to the caller.

use crate::ast::{nodes_view, AstNode, AstView};
use crate::errors::{CompileError, ErrorView};
use crate::lexer::TokenKindView;
use crate::parser::{
    braces_stay_open, lemma_cast_skips_to_end, parse, parse_source_spec, parse_spec,
};
use crate::sanitizer::{sanitize_shell_input, sanitized};
use crate::text::same_text;
use crate::types::{Taint, Value};
use vstd::hash_map::StringHashMap;
use vstd::prelude::*;
use vstd::string::{StringExecFns, StringSliceAdditionalSpecFns};

verus! {

/// The table of bindings of one run: variable name to value.
pub type Env = StringHashMap<Value<String>>;

/// The mathematical content of a value of the language.
pub type ValueView = Value<Seq<char>>;

/// The mathematical content of a table of bindings.
pub type EnvView = Map<Seq<char>, ValueView>;

/// The lines of output, as text.
pub type Lines = Seq<Seq<char>>;

/// The content of a table of bindings.
pub open spec fn env_view(env: Map<Seq<char>, Value<String>>) -> EnvView {
    env.map_values(|v: Value<String>| v@)
}

/// The content of a list of values.
pub open spec fn values_view(vals: Seq<Value<String>>) -> Seq<ValueView> {
    vals.map_values(|v: Value<String>| v@)
}

/// The content of a list of output lines.
pub open spec fn lines_view(lines: Seq<String>) -> Lines {
    lines.map_values(|s: String| s@)
}

/// The content of the result of an evaluation.
pub open spec fn value_result_view(r: Result<Value<String>, CompileError>) -> Result<
    ValueView,
    ErrorView,
> {
    match r {
        Ok(v) => Ok(v@),
        Err(e) => Err(e@),
    }
}

/// The content of the result of a run.
pub open spec fn unit_result_view(r: Result<(), CompileError>) -> Result<(), ErrorView> {
    match r {
        Ok(_) => Ok(()),
        Err(e) => Err(e@),
    }
}

/// The built-in functions: a closed table, looked up by exact name.
#[derive(Debug, Clone, Copy, PartialEq, Eq, Structural)]
pub enum Builtin {
    /// The source: yields untrusted input.
    ReadStdin,
    /// The sanitizer: yields a clean value with the payload of its argument.
    SanitizeShellInput,
    /// The sink: refuses a tainted argument.
    ExecuteCommand,
    /// Emits its argument, whatever its taint.
    Say,
}

/// The empty clean value that a built-in called for its effect returns.
pub open spec fn unit_value() -> ValueView {
    Value { inner: Seq::empty(), taint: Taint::Clean }
}

/// The placeholder that stands for what the source reads.
pub open spec fn stdin_text() -> Seq<char> {
    "<<user input>>"@
}

impl Builtin {
    /// The built-in of the given name, if there is one.
    pub open spec fn named(name: Seq<char>) -> Option<Builtin> {
        if name == "read_stdin"@ {
            Some(Builtin::ReadStdin)
        } else if name == "sanitize_shell_input"@ {
            Some(Builtin::SanitizeShellInput)
        } else if name == "execute_command"@ {
            Some(Builtin::ExecuteCommand)
        } else if name == "say"@ {
            Some(Builtin::Say)
        } else {
            None
        }
    }

    /// The number of arguments that the built-in takes.
    pub open spec fn arity_spec(self) -> nat {
        match self {
            Builtin::ReadStdin => 0,
            _ => 1,
        }
    }

    /// The failure reported for a call with another number of arguments.
    pub open spec fn arity_error(self) -> ErrorView {
        match self {
            Builtin::ReadStdin => ErrorView::RuntimeError("read_stdin expects 0 args"@),
            Builtin::SanitizeShellInput => ErrorView::RuntimeError(
                "sanitize_shell_input expects 1 arg"@,
            ),
            Builtin::ExecuteCommand => ErrorView::RuntimeError("execute_command expects 1 arg"@),
            Builtin::Say => ErrorView::RuntimeError("say expects 1 arg"@),
        }
    }

    /// What the built-in does with arguments of the right number: the output
    /// after the call, and the value or the failure.
    pub open spec fn apply_spec(self, vals: Seq<ValueView>, out: Lines) -> (Lines, Result<
        ValueView,
        ErrorView,
    >) {
        match self {
            Builtin::ReadStdin => (out, Ok(Value { inner: stdin_text(), taint: Taint::Tainted })),
            Builtin::SanitizeShellInput => (out, Ok(sanitized(vals[0]))),
            Builtin::ExecuteCommand => if vals[0].taint == Taint::Tainted {
                (out, Err(ErrorView::RuntimeError("Attempted to execute tainted command"@)))
            } else {
                (out.push("> "@ + vals[0].inner), Ok(unit_value()))
            },
            Builtin::Say => (out.push(vals[0].inner), Ok(unit_value())),
        }
    }

    /// Looks a built-in up by its name.
    pub fn lookup(name: &str) -> (found: Option<Builtin>)
        ensures
            found == Builtin::named(name@),
    {
        if same_text(name, "read_stdin") {
            Some(Builtin::ReadStdin)
        } else if same_text(name, "sanitize_shell_input") {
            Some(Builtin::SanitizeShellInput)
        } else if same_text(name, "execute_command") {
            Some(Builtin::ExecuteCommand)
        } else if same_text(name, "say") {
            Some(Builtin::Say)
        } else {
            None
        }
    }

    /// The number of arguments that the built-in takes.
    pub fn arity(self) -> (n: usize)
        ensures
            n == self.arity_spec(),
    {
        match self {
            Builtin::ReadStdin => 0,
            _ => 1,
        }
    }

    /// The failure to report for a call with another number of arguments.
    pub fn wrong_arity(self) -> (e: CompileError)
        ensures
            e@ == self.arity_error(),
    {
        match self {
            Builtin::ReadStdin => runtime_error("read_stdin expects 0 args"),
            Builtin::SanitizeShellInput => runtime_error("sanitize_shell_input expects 1 arg"),
            Builtin::ExecuteCommand => runtime_error("execute_command expects 1 arg"),
            Builtin::Say => runtime_error("say expects 1 arg"),
        }
    }
}

/// The failure reported for a call of a name that is no built-in.
pub open spec fn unknown_function(func: Seq<char>) -> ErrorView {
    ErrorView::RuntimeError("Unknown function '"@ + func + "'"@)
}

/// The failure reported for a reference to a name that is not bound.
pub open spec fn unknown_variable(name: Seq<char>) -> ErrorView {
    ErrorView::RuntimeError("Unknown variable '"@ + name + "'"@)
}

/// A call of the function named `func` on evaluated arguments: the name is
/// looked up, the number of arguments is checked, and the built-in applied.
pub open spec fn call_builtin_spec(func: Seq<char>, vals: Seq<ValueView>, out: Lines) -> (
    Lines,
    Result<ValueView, ErrorView>,
) {
    match Builtin::named(func) {
        None => (out, Err(unknown_function(func))),
        Some(b) => if vals.len() != b.arity_spec() {
            (out, Err(b.arity_error()))
        } else {
            b.apply_spec(vals, out)
        },
    }
}

/// The value of an expression under the bindings `env`, and the output after
/// its evaluation, which starts with `out`.
pub open spec fn eval_spec(node: AstView, env: EnvView, out: Lines) -> (Lines, Result<
    ValueView,
    ErrorView,
>)
    decreases node, 0nat,
{
    match node {
        AstView::Number(text) => (out, Ok(Value { inner: text, taint: Taint::Clean })),
        AstView::StrLiteral(text) => (out, Ok(Value { inner: text, taint: Taint::Clean })),
        AstView::Ident(name) => if env.contains_key(name) {
            (out, Ok(env[name]))
        } else {
            (out, Err(unknown_variable(name)))
        },
        AstView::Call { func, args } => eval_call_spec(func, args, env, out),
        _ => (out, Err(ErrorView::RuntimeError("Unsupported expression"@))),
    }
}

/// A call expression: the arguments are evaluated from left to right, the
/// first failure among them ends the call, and then the function is applied.
pub open spec fn eval_call_spec(func: Seq<char>, args: Seq<AstView>, env: EnvView, out: Lines) -> (
    Lines,
    Result<ValueView, ErrorView>,
)
    decreases args, args.len() + 1,
{
    match eval_args_spec(args, 0, env, out, Seq::empty()) {
        (out, Ok(vals)) => call_builtin_spec(func, vals, out),
        (out, Err(e)) => (out, Err(e)),
    }
}

/// The values of the arguments from position `i` on, after the values `vals`
/// of the arguments before it.
pub open spec fn eval_args_spec(
    args: Seq<AstView>,
    i: int,
    env: EnvView,
    out: Lines,
    vals: Seq<ValueView>,
) -> (Lines, Result<Seq<ValueView>, ErrorView>)
    decreases args, args.len() - i,
{
    if i < 0 || i >= args.len() {
        (out, Ok(vals))
    } else {
        match eval_spec(args[i], env, out) {
            (out, Ok(v)) => eval_args_spec(args, i + 1, env, out, vals.push(v)),
            (out, Err(e)) => (out, Err(e)),
        }
    }
}

/// The state of a run: the bindings made and the lines emitted so far.
pub struct State {
    pub env: EnvView,
    pub out: Lines,
}

/// The state in which every run starts: nothing bound, nothing emitted.
pub open spec fn initial_state() -> State {
    State { env: Map::empty(), out: Seq::empty() }
}

/// One statement. A binding evaluates its right-hand side and binds the
/// name, overwriting an earlier binding of it; a call is evaluated for its
/// effect; anything else does nothing.
pub open spec fn exec_stmt_spec(stmt: AstView, st: State) -> (State, Result<(), ErrorView>) {
    match stmt {
        AstView::Let { name, expr } => match eval_spec(*expr, st.env, st.out) {
            (out, Ok(v)) => (State { env: st.env.insert(name, v), out }, Ok(())),
            (out, Err(e)) => (State { env: st.env, out }, Err(e)),
        },
        AstView::Call { func, args } => match eval_call_spec(func, args, st.env, st.out) {
            (out, Ok(_)) => (State { env: st.env, out }, Ok(())),
            (out, Err(e)) => (State { env: st.env, out }, Err(e)),
        },
        _ => (st, Ok(())),
    }
}

/// The statements from position `i` on, in order. The first failure ends the
/// run; what was bound and emitted before it stays.
pub open spec fn exec_stmts_spec(stmts: Seq<AstView>, i: int, st: State) -> (State, Result<
    (),
    ErrorView,
>)
    decreases stmts.len() - i,
{
    if i < 0 || i >= stmts.len() {
        (st, Ok(()))
    } else {
        match exec_stmt_spec(stmts[i], st) {
            (next, Ok(_)) => exec_stmts_spec(stmts, i + 1, next),
            (next, Err(e)) => (next, Err(e)),
        }
    }
}

/// A whole program, run from the initial state.
pub open spec fn exec_program_spec(stmts: Seq<AstView>) -> (State, Result<(), ErrorView>) {
    exec_stmts_spec(stmts, 0, initial_state())
}

/// A whole source, given by its bytes: the lines that the run emits, and
/// whether it succeeds. A source that does not parse emits nothing.
pub open spec fn run_spec(bytes: Seq<u8>) -> (Lines, Result<(), ErrorView>) {
    match parse_source_spec(bytes) {
        Ok(stmts) => (exec_program_spec(stmts).0.out, exec_program_spec(stmts).1),
        Err(e) => (Seq::empty(), Err(e)),
    }
}

/// What an evaluation leaves: the output after it, and the value or the
/// failure.
pub type Evaluated = (Lines, Result<ValueView, ErrorView>);

/// An evaluation that ends with the output `out` and the value `v`.
pub open spec fn yields(out: Lines, v: ValueView) -> Evaluated {
    (out, Ok(v))
}

/// An evaluation that ends with the output `out` and the failure `e`.
pub open spec fn fails(out: Lines, e: ErrorView) -> Evaluated {
    (out, Err(e))
}

/// Each name of the table finds its own built-in.
pub proof fn lemma_builtin_names()
    ensures
        Builtin::named("read_stdin"@) == Some(Builtin::ReadStdin),
        Builtin::named("sanitize_shell_input"@) == Some(Builtin::SanitizeShellInput),
        Builtin::named("execute_command"@) == Some(Builtin::ExecuteCommand),
        Builtin::named("say"@) == Some(Builtin::Say),
{
    reveal_strlit("read_stdin");
    reveal_strlit("sanitize_shell_input");
    reveal_strlit("execute_command");
    reveal_strlit("say");
    assert("read_stdin"@.len() == 10);
    assert("sanitize_shell_input"@.len() == 20);
    assert("execute_command"@.len() == 15);
    assert("say"@.len() == 3);
}

/// The call `read_stdin()`.
pub open spec fn source_call() -> AstView {
    AstView::Call { func: "read_stdin"@, args: Seq::empty() }
}

/// The call `sanitize_shell_input(arg)`.
pub open spec fn sanitizer_call(arg: AstView) -> AstView {
    AstView::Call { func: "sanitize_shell_input"@, args: seq![arg] }
}

/// The call `execute_command(arg)`.
pub open spec fn sink_call(arg: AstView) -> AstView {
    AstView::Call { func: "execute_command"@, args: seq![arg] }
}

/// The value that the source yields.
pub open spec fn source_value() -> ValueView {
    Value { inner: stdin_text(), taint: Taint::Tainted }
}

/// The failure with which the sink refuses a tainted value.
pub open spec fn tainted_execution() -> ErrorView {
    ErrorView::RuntimeError("Attempted to execute tainted command"@)
}

/// Whether the statement binds the name.
pub open spec fn rebinds(stmt: AstView, name: Seq<char>) -> bool {
    stmt matches AstView::Let { name: bound, .. } && bound == name
}

/// The arguments of a call with one argument are evaluated by evaluating
/// that argument.
proof fn lemma_one_argument(arg: AstView, env: EnvView, out: Lines)
    ensures
        eval_args_spec(seq![arg], 0, env, out, Seq::empty()) == match eval_spec(arg, env, out) {
            (after, Ok(v)) => (after, Ok(seq![v])),
            (after, Err(e)) => (after, Err(e)),
        },
{
    let args = seq![arg];
    assert(args[0] == arg);
    match eval_spec(arg, env, out) {
        (after, Ok(v)) => {
            assert(Seq::<ValueView>::empty().push(v) =~= seq![v]);
            assert(eval_args_spec(args, 1, env, after, seq![v]) == (
                after,
                Ok::<Seq<ValueView>, ErrorView>(seq![v]),
            ));
        },
        (after, Err(e)) => {},
    }
}

/// The source yields a tainted value, under any bindings, and emits
/// nothing.
pub proof fn lemma_source_is_tainted(env: EnvView, out: Lines)
    ensures
        eval_spec(source_call(), env, out) == yields(out, source_value()),
        source_value().taint == Taint::Tainted,
{
    lemma_builtin_names();
    let none = Seq::<AstView>::empty();
    assert(eval_args_spec(none, 0, env, out, Seq::empty()) == (
        out,
        Ok::<Seq<ValueView>, ErrorView>(Seq::empty()),
    ));
    assert(eval_call_spec("read_stdin"@, none, env, out) == yields(out, source_value()));
}

/// The sanitizer is total: whatever value its argument has, tainted or
/// clean, the call yields that payload marked clean and emits nothing of its
/// own; and it fails only where its argument fails.
pub proof fn lemma_sanitizer_cleans(arg: AstView, env: EnvView, out: Lines)
    ensures
        eval_spec(sanitizer_call(arg), env, out) == match eval_spec(arg, env, out) {
            (after, Ok(v)) => (after, Ok(sanitized(v))),
            (after, Err(e)) => (after, Err(e)),
        },
{
    lemma_builtin_names();
    lemma_one_argument(arg, env, out);
    match eval_spec(arg, env, out) {
        (after, Ok(v)) => {
            assert(seq![v][0] == v);
            assert(call_builtin_spec("sanitize_shell_input"@, seq![v], after) == yields(
                after,
                sanitized(v),
            ));
        },
        (after, Err(e)) => {},
    }
    assert(eval_spec(sanitizer_call(arg), env, out) == eval_call_spec(
        "sanitize_shell_input"@,
        seq![arg],
        env,
        out,
    ));
}

/// The sink applied to a value: every tainted value is refused and nothing
/// is emitted; every clean value is accepted and the command emitted.
pub proof fn lemma_sink_on_value(v: ValueView, out: Lines)
    ensures
        v.taint == Taint::Tainted ==> call_builtin_spec("execute_command"@, seq![v], out) == fails(
            out,
            tainted_execution(),
        ),
        v.taint == Taint::Clean ==> call_builtin_spec("execute_command"@, seq![v], out) == yields(
            out.push("> "@ + v.inner),
            unit_value(),
        ),
{
    lemma_builtin_names();
    assert(seq![v][0] == v);
}

/// The sink rejects tainted values: a call of `execute_command` fails with
/// the failure that names the tainted execution exactly when its argument
/// evaluates to a tainted value, and succeeds whenever it evaluates to a
/// clean one.
pub proof fn lemma_sink_rejects_tainted(arg: AstView, env: EnvView, out: Lines)
    ensures
        eval_spec(sink_call(arg), env, out) == match eval_spec(arg, env, out) {
            (after, Ok(v)) => if v.taint == Taint::Tainted {
                (after, Err(tainted_execution()))
            } else {
                (after.push("> "@ + v.inner), Ok(unit_value()))
            },
            (after, Err(e)) => (after, Err(e)),
        },
{
    lemma_one_argument(arg, env, out);
    match eval_spec(arg, env, out) {
        (after, Ok(v)) => {
            lemma_sink_on_value(v, after);
        },
        (after, Err(e)) => {},
    }
    assert(eval_spec(sink_call(arg), env, out) == eval_call_spec(
        "execute_command"@,
        seq![arg],
        env,
        out,
    ));
}

/// Taint has two origins only: an expression evaluates to a tainted value
/// only if it is a call of the source, or a name bound to a tainted value.
/// No literal and no other built-in yields one.
pub proof fn lemma_taint_origin(node: AstView, env: EnvView, out: Lines)
    ensures
        eval_spec(node, env, out).1 matches Ok(v) && v.taint == Taint::Tainted ==> (node matches AstView::Call {
            func,
            ..
        } && Builtin::named(func) == Some(Builtin::ReadStdin)) || (node matches AstView::Ident(name)
            && env.contains_key(name) && env[name].taint == Taint::Tainted),
{
}

/// A reference to a bound name yields the bound value, taint included, and
/// changes nothing.
pub proof fn lemma_reference_keeps_taint(name: Seq<char>, env: EnvView, out: Lines)
    requires
        env.contains_key(name),
    ensures
        eval_spec(AstView::Ident(name), env, out) == yields(out, env[name]),
{
}

/// A binding stays as it is while no statement binds its name again,
/// whether the run succeeds or stops at a failure.
pub proof fn lemma_binding_persists(stmts: Seq<AstView>, i: int, st: State, name: Seq<char>)
    requires
        0 <= i,
        st.env.contains_key(name),
        forall|k: int| i <= k < stmts.len() ==> !rebinds(#[trigger] stmts[k], name),
    ensures
        exec_stmts_spec(stmts, i, st).0.env.contains_key(name),
        exec_stmts_spec(stmts, i, st).0.env[name] == st.env[name],
    decreases stmts.len() - i,
{
    if i < stmts.len() {
        assert(!rebinds(stmts[i], name));
        match exec_stmt_spec(stmts[i], st) {
            (next, Ok(_)) => {
                lemma_binding_persists(stmts, i + 1, next, name);
            },
            (next, Err(_)) => {},
        }
    }
}

/// What the source yields stays tainted: once a name is bound to
/// `read_stdin()`, it is bound to a tainted value, and after any statements
/// that do not bind the name again every reference to it still yields that
/// tainted value.
pub proof fn lemma_source_stays_tainted(name: Seq<char>, rest: Seq<AstView>, st: State)
    requires
        forall|k: int| 0 <= k < rest.len() ==> !rebinds(#[trigger] rest[k], name),
    ensures
        ({
            let binding = AstView::Let { name, expr: Box::new(source_call()) };
            let bound = exec_stmt_spec(binding, st).0;
            let last = exec_stmts_spec(rest, 0, bound).0;
            &&& exec_stmt_spec(binding, st).1 is Ok
            &&& bound.env[name] == source_value()
            &&& last.env.contains_key(name)
            &&& eval_spec(AstView::Ident(name), last.env, last.out) == yields(
                last.out,
                source_value(),
            )
        }),
{
    lemma_source_is_tainted(st.env, st.out);
    let binding = AstView::Let { name, expr: Box::new(source_call()) };
    let bound = exec_stmt_spec(binding, st).0;
    assert(bound.env == st.env.insert(name, source_value()));
    lemma_binding_persists(rest, 0, bound, name);
}

/// A `cast` block alone runs nothing: whatever stands in it, a dangerous
/// call too, the program has no statement, binds nothing and emits nothing.
pub proof fn lemma_cast_block_runs_nothing(body: Seq<TokenKindView>)
    requires
        braces_stay_open(body),
    ensures
        parse_spec(seq![TokenKindView::Cast] + body) matches Ok(stmts) && stmts.len() == 0
            && exec_program_spec(stmts) == (initial_state(), Ok::<(), ErrorView>(())),
{
    lemma_cast_skips_to_end(body);
}

/// What a run leaves behind: the lines it emitted, and whether it succeeded.
#[derive(Debug)]
pub struct Outcome {
    pub output: Vec<String>,
    pub result: Result<(), CompileError>,
}

fn runtime_error(text: &str) -> (e: CompileError)
    ensures
        e@ == ErrorView::RuntimeError(text@),
{
    CompileError::RuntimeError(String::from_str(text))
}

/// The text that stands for what the source reads. Input is simulated: the
/// text is always the same placeholder.
pub fn read_stdin() -> (text: String)
    ensures
        text@ == stdin_text(),
{
    String::from_str("<<user input>>")
}

/// Calls the function named `func` on evaluated arguments, appending to
/// `out` what the call emits.
///
/// The sink `execute_command` fails on a tainted argument and emits nothing;
/// on a clean one it emits the command.
pub fn call_builtin(func: &str, vals: Vec<Value<String>>, out: &mut Vec<String>) -> (result: Result<
    Value<String>,
    CompileError,
>)
    ensures
        (lines_view(final(out)@), value_result_view(result)) == call_builtin_spec(
            func@,
            values_view(vals@),
            lines_view(old(out)@),
        ),
{
    let ghost before = lines_view(out@);
    let mut vals = vals;
    let builtin = match Builtin::lookup(func) {
        Some(b) => b,
        None => {
            let text = String::from_str("Unknown function '").concat(func).concat("'");
            return Err(CompileError::RuntimeError(text));
        },
    };
    if vals.len() != builtin.arity() {
        return Err(builtin.wrong_arity());
    }
    match builtin {
        Builtin::ReadStdin => Ok(Value::new(read_stdin(), Taint::Tainted)),
        Builtin::SanitizeShellInput => {
            let v = vals.remove(0);
            match sanitize_shell_input(v) {
                Ok(cleaned) => Ok(cleaned),
                Err(text) => Err(CompileError::RuntimeError(text)),
            }
        },
        Builtin::ExecuteCommand => {
            let v = vals.remove(0);
            match v.taint {
                Taint::Tainted => Err(runtime_error("Attempted to execute tainted command")),
                Taint::Clean => {
                    let line = String::from_str("> ").concat(v.inner.as_str());
                    out.push(line);
                    assert(lines_view(out@) =~= before.push("> "@ + v.inner@));
                    Ok(Value::new(String::new(), Taint::Clean))
                },
            }
        },
        Builtin::Say => {
            let v = vals.remove(0);
            out.push(v.inner);
            assert(lines_view(out@) =~= before.push(v.inner@));
            Ok(Value::new(String::new(), Taint::Clean))
        },
    }
}

/// Evaluates an expression under the bindings `env`, appending to `out` what
/// the evaluation emits. A call among the arguments of a call is evaluated
/// recursively, so the recursion is as deep as the calls are nested.
pub fn eval(node: &AstNode, env: &Env, out: &mut Vec<String>) -> (result: Result<
    Value<String>,
    CompileError,
>)
    ensures
        (lines_view(final(out)@), value_result_view(result)) == eval_spec(
            node@,
            env_view(env@),
            lines_view(old(out)@),
        ),
    decreases node,
{
    match node {
        AstNode::Number(text) => Ok(Value::new(text.clone(), Taint::Clean)),
        AstNode::StrLiteral(text) => Ok(Value::new(text.clone(), Taint::Clean)),
        AstNode::Ident(name) => match env.get(name.as_str()) {
            Some(v) => Ok(Value::new(v.inner.clone(), v.taint)),
            None => {
                let text = String::from_str("Unknown variable '").concat(name.as_str()).concat(
                    "'",
                );
                Err(CompileError::RuntimeError(text))
            },
        },
        AstNode::Call { func, args } => {
            proof {
                crate::ast::lemma_call_view(*func, *args);
            }
            eval_call(func.as_str(), args, env, out)
        },
        _ => Err(runtime_error("Unsupported expression")),
    }
}

/// Evaluates a call of the function named `func` on the argument
/// expressions `args`.
pub fn eval_call(func: &str, args: &Vec<AstNode>, env: &Env, out: &mut Vec<String>) -> (result:
    Result<Value<String>, CompileError>)
    ensures
        (lines_view(final(out)@), value_result_view(result)) == eval_call_spec(
            func@,
            nodes_view(args@),
            env_view(env@),
            lines_view(old(out)@),
        ),
    decreases args,
{
    let ghost exprs = nodes_view(args@);
    let ghost bindings = env_view(env@);
    let ghost before = lines_view(out@);
    let mut vals: Vec<Value<String>> = Vec::with_capacity(args.len());
    let mut i: usize = 0;
    assert(values_view(vals@) =~= Seq::empty());
    while i < args.len()
        invariant
            exprs == nodes_view(args@),
            bindings == env_view(env@),
            before == lines_view(old(out)@),
            i <= args.len(),
            eval_args_spec(exprs, 0, bindings, before, Seq::empty()) == eval_args_spec(
                exprs,
                i as int,
                bindings,
                lines_view(out@),
                values_view(vals@),
            ),
        decreases args.len() - i,
    {
        let ghost seen = values_view(vals@);
        match eval(&args[i], env, out) {
            Ok(v) => {
                vals.push(v);
                assert(values_view(vals@) =~= seen.push(v@));
                i += 1;
            },
            Err(e) => {
                return Err(e);
            },
        }
    }
    call_builtin(func, vals, out)
}

/// Runs the statements of a program in order, from empty bindings, and
/// stops at the first failure.
pub fn execute(program: &Vec<AstNode>) -> (outcome: Outcome)
    ensures
        lines_view(outcome.output@) == exec_program_spec(nodes_view(program@)).0.out,
        unit_result_view(outcome.result) == exec_program_spec(nodes_view(program@)).1,
{
    let ghost stmts = nodes_view(program@);
    let mut env: Env = StringHashMap::new();
    let mut out: Vec<String> = Vec::new();
    let mut i: usize = 0;
    assert(env_view(env@) =~= Map::empty());
    assert(lines_view(out@) =~= Seq::empty());
    while i < program.len()
        invariant
            stmts == nodes_view(program@),
            i <= program.len(),
            exec_program_spec(stmts) == exec_stmts_spec(
                stmts,
                i as int,
                State { env: env_view(env@), out: lines_view(out@) },
            ),
        decreases program.len() - i,
    {
        let ghost bindings = env_view(env@);
        match &program[i] {
            AstNode::Let { name, expr } => {
                match eval(expr, &env, &mut out) {
                    Ok(v) => {
                        env.insert(name.clone(), v);
                        assert(env_view(env@) =~= bindings.insert(name@, v@));
                    },
                    Err(e) => {
                        return Outcome { output: out, result: Err(e) };
                    },
                }
            },
            AstNode::Call { func, args } => {
                proof {
                    crate::ast::lemma_call_view(*func, *args);
                }
                match eval_call(func.as_str(), args, &env, &mut out) {
                    Ok(_) => {},
                    Err(e) => {
                        return Outcome { output: out, result: Err(e) };
                    },
                }
            },
            _ => {},
        }
        i += 1;
    }
    Outcome { output: out, result: Ok(()) }
}

/// Parses and runs a source, and hands back what the run emitted together
/// with its result.
pub fn run_with_output(source: &str) -> (outcome: Outcome)
    ensures
        (lines_view(outcome.output@), unit_result_view(outcome.result)) == run_spec(
            source.spec_bytes(),
        ),
{
    match parse(source) {
        Ok(program) => execute(&program),
        Err(e) => {
            let output: Vec<String> = Vec::new();
            assert(lines_view(output@) =~= Seq::empty());
            Outcome { output, result: Err(e) }
        },
    }
}

/// Parses and runs a source. The run succeeds when every statement was
/// executed without a failure; else the first failure is reported.
pub fn run(source: &str) -> (result: Result<(), CompileError>)
    ensures
        unit_result_view(result) == run_spec(source.spec_bytes()).1,
{
    run_with_output(source).result
}

} // verus!
