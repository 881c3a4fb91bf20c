use leonbasic::error::{LangError, SyntaxIssue, TypeIssue};
use leonbasic::eval::{Env, MAX_DEPTH};
use leonbasic::package::Host;
use leonbasic::value::Value;

struct Recorder {
    calls: Vec<(String, Vec<Value>)>,
    modules: Vec<(String, String)>,
    lookups: usize,
}

impl Recorder {
    fn new() -> Self {
        Recorder { calls: Vec::new(), modules: Vec::new(), lookups: 0 }
    }
}

impl Host for Recorder {
    fn call_native(&mut self, name: &str, args: Vec<Value>) -> Result<Value, String> {
        self.calls.push((name.to_string(), args));
        if name == "basic.fail" {
            return Err("boom".to_string());
        }
        Ok(Value::Null)
    }

    fn find_module(&mut self, _root: &str, name: &str) -> Option<Result<String, String>> {
        self.lookups += 1;
        self.modules.iter().find(|(n, _)| n == name).map(|(_, t)| Ok(t.clone()))
    }
}

fn session() -> (Env, Recorder) {
    let mut env = Env::new();
    env.register_native("basic.print");
    env.register_native("basic.fail");
    (env, Recorder::new())
}

fn text(s: &str) -> Value {
    Value::String(s.to_string())
}

#[test]
fn rebinding_keeps_only_last_assignment() {
    let (mut env, mut host) = session();
    env.run("var(x) = int:5;\nvar(x) = var(x) + int:1;", &mut host).unwrap();
    assert_eq!(env.get_var("x"), Some(text("51")));
}

#[test]
fn string_concatenation() {
    let (mut env, mut host) = session();
    assert_eq!(env.run("string:\"a\" + string:\"b\"", &mut host), Ok(text("ab")));
}

#[test]
fn integer_joins_as_decimal_text() {
    let (mut env, mut host) = session();
    assert_eq!(env.run("int:1 + string:\"x\"", &mut host), Ok(text("1x")));
    assert_eq!(env.run("int:-42 + string:\"!\"", &mut host), Ok(text("-42!")));
}

#[test]
fn integers_join_as_text() {
    let (mut env, mut host) = session();
    assert_eq!(env.run("int:1 + int:2", &mut host), Ok(text("12")));
}

#[test]
fn string_var_shows_variable_as_text() {
    let (mut env, mut host) = session();
    env.run("var(n) = int:7\nvar(s) = string:var(n)", &mut host).unwrap();
    assert_eq!(env.get_var("s"), Some(text("7")));
    assert_eq!(
        env.run("string:var(missing)", &mut host),
        Err(LangError::UndefinedVariable("missing".to_string()))
    );
}

#[test]
fn null_and_text_join() {
    let (mut env, mut host) = session();
    env.set_var("n", Value::Null);
    assert_eq!(env.run("var(n) + string:\"!\"", &mut host), Ok(text("null!")));
}

#[test]
fn if_runs_only_then_block() {
    let (mut env, mut host) = session();
    let src = "if(int:5 > int:3){\n  var(r) = string:\"then\";\n} else {\n  var(r) = string:\"else\";\n}\n";
    env.run(src, &mut host).unwrap();
    assert_eq!(env.get_var("r"), Some(text("then")));
}

#[test]
fn if_false_without_else_runs_nothing() {
    let (mut env, mut host) = session();
    let src = "if(int:1 > int:9){\n  var(r) = string:\"then\";\n}\nvar(after) = int:1;\n";
    env.run(src, &mut host).unwrap();
    assert_eq!(env.get_var("r"), None);
    assert_eq!(env.get_var("after"), Some(Value::Int(1)));
}

#[test]
fn else_on_its_own_line() {
    let (mut env, mut host) = session();
    let src = "if(int:1 == int:2) {\n  var(r) = int:1;\n}\nelse {\n  var(r) = int:2;\n}\n";
    env.run(src, &mut host).unwrap();
    assert_eq!(env.get_var("r"), Some(Value::Int(2)));
}

#[test]
fn conditions_on_variables_and_text() {
    let (mut env, mut host) = session();
    let src = "var(a) = string:\"x\";\nif(var(a) == string:\"x\") {\n  var(eq) = int:1;\n}\nif(var(a) != int:1) {\n  var(ne) = int:1;\n}\nif(3 < 4) {\n  var(lt) = int:1;\n}\n";
    env.run(src, &mut host).unwrap();
    assert_eq!(env.get_var("eq"), Some(Value::Int(1)));
    assert_eq!(env.get_var("ne"), Some(Value::Int(1)));
    assert_eq!(env.get_var("lt"), Some(Value::Int(1)));
}

#[test]
fn ordering_text_is_type_error() {
    let (mut env, mut host) = session();
    let src = "if(string:\"a\" > int:1) {\n  var(r) = int:1;\n}\n";
    assert_eq!(
        env.run(src, &mut host),
        Err(LangError::Type(TypeIssue::NonNumericOrdering))
    );
}

#[test]
fn user_function_returns_its_last_value() {
    let (mut env, mut host) = session();
    let src = "func(m.add(self(a), self(b)) = {\n  self(a) + self(b)\n})\nfunc(m.second(self(a), self(b)) = {\n  self(b)\n})\n";
    env.run(src, &mut host).unwrap();
    assert_eq!(env.run("m.add(int:2, int:3)", &mut host), Ok(text("23")));
    assert_eq!(env.run("m.second(int:2, int:3)", &mut host), Ok(Value::Int(3)));
    env.run("var(s) = m.second(int:2, int:5);", &mut host).unwrap();
    assert_eq!(env.get_var("s"), Some(Value::Int(5)));
}

#[test]
fn native_error_leaves_variable_unbound() {
    let (mut env, mut host) = session();
    assert_eq!(env.run("var(v) = basic.fail()", &mut host), Err(LangError::NativeCall("boom".to_string())));
    assert_eq!(env.get_var("v"), None);
}

#[test]
fn load_module_follows_host_answer() {
    let (mut env, mut host) = session();
    assert_eq!(
        env.load_module("m1", None, &mut host, MAX_DEPTH),
        Err(LangError::ModuleNotFound("m1".to_string()))
    );
    assert!(!env.is_loaded("m1"));
    assert_eq!(
        env.load_module("m2", Some(Err("denied".to_string())), &mut host, MAX_DEPTH),
        Err(LangError::NativeCall("denied".to_string()))
    );
    assert!(!env.is_loaded("m2"));
    assert_eq!(
        env.load_module("m3", Some(Ok("var(q) = int:4".to_string())), &mut host, MAX_DEPTH),
        Ok(Value::Null)
    );
    assert!(env.is_loaded("m3"));
    assert_eq!(env.get_var("q"), Some(Value::Int(4)));
    assert_eq!(env.load_module("m4", Some(Ok("var(q) = int:5".to_string())), &mut host, 0), Err(LangError::TooDeep));
}

#[test]
fn undefined_function_fails_and_session_goes_on() {
    let (mut env, mut host) = session();
    assert_eq!(
        env.run("m.nope()", &mut host),
        Err(LangError::UndefinedFunction("m.nope".to_string()))
    );
    assert_eq!(env.run("var(x) = int:1", &mut host), Ok(Value::Null));
    assert_eq!(env.get_var("x"), Some(Value::Int(1)));
}

#[test]
fn function_body_writes_global_variables() {
    let (mut env, mut host) = session();
    let src = "func(g.set(self(v))) = {\n  var(seen) = self(v);\n}\ng.set(string:\"yes\");\n";
    env.run(src, &mut host).unwrap();
    assert_eq!(env.get_var("seen"), Some(text("yes")));
}

#[test]
fn later_definition_wins() {
    let (mut env, mut host) = session();
    let src = "func(f.v() = {\n  int:1\n})\nfunc(f.v() = {\n  int:2\n})\n";
    env.run(src, &mut host).unwrap();
    assert_eq!(env.run("f.v()", &mut host), Ok(Value::Int(2)));
}

#[test]
fn wrong_arity_is_type_error() {
    let (mut env, mut host) = session();
    env.run("func(f.one(self(a)) = {\n  self(a)\n})", &mut host).unwrap();
    assert_eq!(env.run("f.one()", &mut host), Err(LangError::Type(TypeIssue::Arity)));
}

#[test]
fn parameter_outside_function_is_undefined() {
    let (mut env, mut host) = session();
    assert_eq!(
        env.run("self(a)", &mut host),
        Err(LangError::UndefinedVariable("a".to_string()))
    );
}

#[test]
fn undefined_variable_fails() {
    let (mut env, mut host) = session();
    assert_eq!(
        env.run("var(y) = var(nope)", &mut host),
        Err(LangError::UndefinedVariable("nope".to_string()))
    );
}

#[test]
fn native_calls_get_evaluated_arguments() {
    let (mut env, mut host) = session();
    env.run("var(n) = string:\"Bob\";\nbasic.print(string:\"hi, \" + var(n), int:7, \"a,b\");", &mut host)
        .unwrap();
    assert_eq!(host.calls.len(), 1);
    assert_eq!(host.calls[0].0, "basic.print");
    assert_eq!(host.calls[0].1, vec![text("hi, Bob"), Value::Int(7), text("\"a,b\"")]);
}

#[test]
fn comma_inside_string_does_not_split() {
    let (mut env, mut host) = session();
    env.run("basic.print(string:\"a, b\", string:\"c\")", &mut host).unwrap();
    assert_eq!(host.calls[0].1, vec![text("a, b"), text("c")]);
}

#[test]
fn native_failure_is_reported() {
    let (mut env, mut host) = session();
    assert_eq!(env.run("basic.fail()", &mut host), Err(LangError::NativeCall("boom".to_string())));
}

#[test]
fn escapes_in_string_literals() {
    let (mut env, mut host) = session();
    assert_eq!(env.run("string:\"a\\nb\\t\\\"q\\\"\\\\\"", &mut host), Ok(text("a\nb\t\"q\"\\")));
    assert_eq!(env.run("string:\"x\\qy\"", &mut host), Ok(text("x\\qy")));
}

#[test]
fn unterminated_string_is_lex_error() {
    let (mut env, mut host) = session();
    assert_eq!(
        env.run("var(a) = int:1\nvar(b) = string:\"abc", &mut host),
        Err(LangError::Lex { line: 2, issue: SyntaxIssue::UnterminatedString })
    );
    assert_eq!(env.get_var("a"), None);
}

#[test]
fn unclosed_block_is_parse_error() {
    let (mut env, mut host) = session();
    let r = env.run("if(int:1 > int:0) {\n  var(a) = int:1;\n", &mut host);
    assert!(matches!(r, Err(LangError::Parse { issue: SyntaxIssue::UnclosedBlock, .. })));
    assert_eq!(env.get_var("a"), None);
}

#[test]
fn stray_brace_is_parse_error() {
    let (mut env, mut host) = session();
    assert_eq!(
        env.run("var(a) = int:1\n}\n", &mut host),
        Err(LangError::Parse { line: 2, issue: SyntaxIssue::StrayBrace })
    );
}

#[test]
fn else_inside_open_block_is_parse_error() {
    let (mut env, mut host) = session();
    let r = env.run("if(int:1 > int:0) {\nelse {\n}\n", &mut host);
    assert_eq!(r, Err(LangError::Parse { line: 2, issue: SyntaxIssue::MisplacedElse }));
}

#[test]
fn bad_integer_literal_is_parse_error() {
    let (mut env, mut host) = session();
    assert_eq!(
        env.run("var(a) = int:12x", &mut host),
        Err(LangError::Parse { line: 1, issue: SyntaxIssue::BadInteger })
    );
    assert_eq!(
        env.run("var(a) = int:9223372036854775808", &mut host),
        Err(LangError::Parse { line: 1, issue: SyntaxIssue::BadInteger })
    );
    env.run("var(a) = int:-9223372036854775808", &mut host).unwrap();
    assert_eq!(env.get_var("a"), Some(Value::Int(i64::MIN)));
}

#[test]
fn float_literal_is_refused() {
    let (mut env, mut host) = session();
    assert_eq!(
        env.run("var(a) = float:1.5", &mut host),
        Err(LangError::Parse { line: 1, issue: SyntaxIssue::FloatUnsupported })
    );
}

#[test]
fn unbalanced_call_is_parse_error() {
    let (mut env, mut host) = session();
    assert_eq!(
        env.run("basic.print(f(x)", &mut host),
        Err(LangError::Parse { line: 1, issue: SyntaxIssue::UnbalancedParens })
    );
}

#[test]
fn empty_argument_is_parse_error() {
    let (mut env, mut host) = session();
    assert_eq!(
        env.run("basic.print(int:1,,int:2)", &mut host),
        Err(LangError::Parse { line: 1, issue: SyntaxIssue::EmptyArgument })
    );
}

#[test]
fn comments_and_blank_lines_are_skipped() {
    let (mut env, mut host) = session();
    env.run("// a comment\n\n   \nvar(a) = int:3; // trailing note\n;\n", &mut host).unwrap();
    assert_eq!(env.get_var("a"), Some(Value::Int(3)));
}

#[test]
fn comment_marker_inside_string_is_text() {
    let (mut env, mut host) = session();
    env.run("var(u) = string:\"http://example.org\" // the site", &mut host).unwrap();
    assert_eq!(env.get_var("u"), Some(text("http://example.org")));
}

#[test]
fn handle_cannot_be_copied() {
    let (mut env, mut host) = session();
    env.set_var("f", Value::Handle(3));
    assert_eq!(
        env.run("var(g) = var(f)", &mut host),
        Err(LangError::Type(TypeIssue::HandleCopy))
    );
    assert_eq!(env.get_var("f"), None);
}

#[test]
fn require_builtin_marks_loaded() {
    let (mut env, mut host) = session();
    env.run("require(\"basic\");", &mut host).unwrap();
    assert!(env.is_loaded("basic"));
    assert_eq!(host.lookups, 0);
}

#[test]
fn require_twice_equals_once() {
    let (mut env, mut host) = session();
    host.modules.push((
        "utils".to_string(),
        "var(count) = int:1\nfunc(utils.two() = {\n  int:2\n})\n".to_string(),
    ));
    env.run("require(\"utils\")", &mut host).unwrap();
    env.set_var("count", Value::Int(10));
    env.run("require(\"utils\")", &mut host).unwrap();
    assert_eq!(host.lookups, 1);
    assert_eq!(env.get_var("count"), Some(Value::Int(10)));
    assert_eq!(env.run("utils.two()", &mut host), Ok(Value::Int(2)));
}

#[test]
fn require_unknown_module_fails() {
    let (mut env, mut host) = session();
    assert_eq!(
        env.run("require(\"nowhere\")", &mut host),
        Err(LangError::ModuleNotFound("nowhere".to_string()))
    );
    assert!(!env.is_loaded("nowhere"));
}

#[test]
fn require_without_quotes_is_parse_error() {
    let (mut env, mut host) = session();
    assert_eq!(
        env.run("require(basic)", &mut host),
        Err(LangError::Parse { line: 1, issue: SyntaxIssue::BadRequire })
    );
}

#[test]
fn self_requiring_module_terminates() {
    let (mut env, mut host) = session();
    host.modules.push(("me".to_string(), "require(\"me\")\nvar(z) = int:1".to_string()));
    assert_eq!(env.require("me", &mut host, MAX_DEPTH), Ok(Value::Null));
    assert_eq!(env.get_var("z"), Some(Value::Int(1)));
}

#[test]
fn bare_text_argument_is_raw_string() {
    let (mut env, mut host) = session();
    env.run("basic.print(hello, 5)", &mut host).unwrap();
    assert_eq!(host.calls[0].1, vec![text("hello"), text("5")]);
}

#[test]
fn bare_number_in_condition_is_integer() {
    let (mut env, mut host) = session();
    env.run("var(n) = int:4
if(var(n) > 3) {
  var(big) = int:1
}
", &mut host).unwrap();
    assert_eq!(env.get_var("big"), Some(Value::Int(1)));
}

#[test]
fn runaway_recursion_stops_with_error() {
    let (mut env, mut host) = session();
    env.run("func(r.again() = {
  r.again()
})", &mut host).unwrap();
    assert_eq!(env.run("r.again()", &mut host), Err(LangError::TooDeep));
}
