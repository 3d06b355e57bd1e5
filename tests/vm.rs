use rblox::chunk::{Chunk, Ins};
use rblox::error::{ErrorLevel, ParseError, RuntimeError};
use rblox::host::{ArithOp, Host};
use rblox::module::LoxFunction;
use rblox::span::Span;
use rblox::value::Value;
use rblox::vm::{attach, Console, RunOutcome, Vm};

struct TestHost;

impl Host for TestHost {
    fn parse_number(&self, text: &str) -> Option<u64> {
        text.parse::<f64>().ok().map(|f| f.to_bits())
    }

    fn arith(&self, op: ArithOp, a: u64, b: u64) -> u64 {
        let (x, y) = (f64::from_bits(a), f64::from_bits(b));
        let r = match op {
            ArithOp::Add => x + y,
            ArithOp::Subtract => x - y,
            ArithOp::Multiply => x * y,
            ArithOp::Divide => x / y,
        };
        r.to_bits()
    }

    fn number_text(&self, bits: u64) -> String {
        let n = f64::from_bits(bits);
        if n.floor() == n { format!("{n:.0}") } else { format!("{n}") }
    }

    fn call_native(&mut self, index: usize, _args: &Vec<Value>) -> Result<Value, RuntimeError> {
        assert_eq!(index, 0);
        Ok(Value::Number(1.5f64.to_bits()))
    }


}

struct Outcome {
    out: Vec<String>,
    warnings: Vec<RuntimeError>,
    diagnostics: Vec<ParseError>,
    error: Option<RuntimeError>,
    trace: Vec<(String, Span)>,
    stack_len: usize,
}

fn run(src: &str) -> Outcome {
    let mut host = TestHost;
    let mut console = Console::new();
    let mut vm = Vm::new();
    attach(&mut vm);
    let diagnostics = vm.load(src, &host);
    let mut error = None;
    if vm.frames.len() == 1 {
        loop {
            match vm.run(&mut host, &mut console, 100_000) {
                RunOutcome::Finished => break,
                RunOutcome::Paused => continue,
                RunOutcome::Failed(e) => {
                    error = Some(e);
                    break;
                },
            }
        }
    }
    Outcome {
        out: console.output,
        warnings: console.warnings,
        diagnostics,
        error,
        trace: vm.trace(),
        stack_len: vm.stack.len(),
    }
}

fn errors(o: &Outcome) -> usize {
    o.diagnostics.iter().filter(|d| d.get_level() == ErrorLevel::Error).count()
}

fn ok(src: &str) -> Vec<String> {
    let o = run(src);
    assert_eq!(errors(&o), 0, "{:?}", o.diagnostics);
    assert!(o.error.is_none(), "{:?}", o.error);
    o.out
}

#[test]
fn print_sum() {
    assert_eq!(ok("print 1 + 2;"), vec!["3"]);
}

#[test]
fn concat_globals() {
    assert_eq!(ok("var a = \"foo\"; var b = \"bar\"; print a + b;"), vec!["foobar"]);
}

#[test]
fn while_loop_prints() {
    assert_eq!(ok("var i = 0; while (i < 3) { print i; i = i + 1; }"), vec!["0", "1", "2"]);
}

#[test]
fn closure_off_stack() {
    let src = "fun outer() {
  var x = \"outside\";
  fun inner() {
    print x;
  }
  x = \"changed\";

  return inner;
}
var x = \"global\";
var closure = outer();
closure();";
    assert_eq!(ok(src), vec!["changed"]);
}

#[test]
fn closure_variables() {
    let src = "var globalSet;
var globalGet;

fun main() {
  var a = \"initial\";

  fun set() { a = \"updated\"; }
  fun get() { print a; }

  globalSet = set;
  globalGet = get;
}

main();
globalSet();
globalGet();";
    assert_eq!(ok(src), vec!["updated"]);
}

#[test]
fn closure_in_stack() {
    let src = "fun outer() {
  var x = \"outside\";
  fun inner() {
    print x;
  }
  inner();
}
outer();";
    assert_eq!(ok(src), vec!["outside"]);
}

#[test]
fn displays_stack_trace() {
    let src = "fun a() { b(); }
fun b() { c(); }
fun c() {
  c(\"too\", \"many\");
}

a();";
    let o = run(src);
    match &o.error {
        Some(RuntimeError::UnsupportedType { message, .. }) => assert_eq!(message, "Expected 0 arguments, but got 2"),
        other => panic!("{other:?}"),
    }
    let names: Vec<&str> = o.trace.iter().map(|t| t.0.as_str()).collect();
    assert_eq!(&names[..3], &["c", "b", "a"]);
    assert_eq!(o.trace[0].1.2, 4);
}

#[test]
fn can_declare_function() {
    let src = "fun areWeHavingItYet(a, b) {
  print \"Yes we are!\";
}

print areWeHavingItYet;";
    assert_eq!(ok(src), vec!["<fn areWeHavingItYet>"]);
}

#[test]
fn process_arith() {
    assert_eq!(ok("print 1+2-3*-4/(5-6);"), vec!["-9"]);
}

#[test]
fn process_literals() {
    assert!(ok("true;").is_empty());
    assert!(ok("false;").is_empty());
    assert!(ok("nil;").is_empty());
}

#[test]
fn process_types() {
    let o = run("!(5 - 4 > 3 * 2 == !nil)");
    assert_eq!(errors(&o), 1);
    assert!(matches!(o.diagnostics[0], ParseError::UnexpectedToken { .. }));
    assert!(o.diagnostics[0].allows_continuation());
    assert_eq!(ok("print !(5 - 4 > 3 * 2 == !nil);"), vec!["true"]);
}

#[test]
fn concat_strings() {
    assert_eq!(ok("print \"st\" + \"ri\" + \"ng\";"), vec!["string"]);
}

#[test]
fn challenge_17_1() {
    assert_eq!(errors(&run("(-1+2)*3--4")), 1);
    assert_eq!(ok("print (-1+2)*3--4;"), vec!["7"]);
}

#[test]
fn division_by_zero() {
    let o = run("
  print 1/0;
  print 2/(-3+3);
  print 1/0 + 2;
  ");
    assert!(o.error.is_none());
    assert_eq!(o.out, vec!["inf", "inf", "inf"]);
    assert_eq!(o.warnings.len(), 3);
    assert!(matches!(o.warnings[0], RuntimeError::ZeroDivision(_)));
}

#[test]
fn zero_over_zero_is_nan() {
    let o = run("print 0/0 == 0/0;");
    assert_eq!(o.out, vec!["false"]);
}

#[test]
fn can_print() {
    assert_eq!(ok("print 1+2;\n  print 3*4; print !5.4 == true;"), vec!["3", "12", "false"]);
}

#[test]
fn can_def_and_get_globals() {
    assert_eq!(ok("var a = 1; var b = a + 2; print b;"), vec!["3"]);
}

#[test]
fn can_def_get_and_set_globals() {
    assert_eq!(ok("var a = 1; a = a + 41; print a;"), vec!["42"]);
}

#[test]
fn redeclaring_global_is_ok() {
    let src = "var beverage = \"cafe au lait\";\nvar beverage = \"cappuccino\";\nprint beverage;";
    assert_eq!(ok(src), vec!["cappuccino"]);
}

#[test]
fn nested_locals() {
    let src = "{ var a = 1; { var b = 2; { var c = a + b; print c; } print a; } }";
    assert_eq!(ok(src), vec!["3", "1"]);
}

#[test]
fn redeclaring_local_emits_warning() {
    let o = run("{\n  var a = \"first\";\n  var a = \"second\";\n}");
    assert_eq!(o.diagnostics.len(), 1);
    assert_eq!(o.diagnostics[0].get_level(), ErrorLevel::Warning);
    assert!(o.error.is_none());
}

#[test]
fn cannot_init_local_to_self() {
    let o = run("{\n  var a = \"outer\";\n  {\n    var a = a;\n  }\n}");
    assert_eq!(errors(&o), 1);
    assert!(o.out.is_empty());
}

#[test]
fn undefined_global_is_a_runtime_error() {
    let o = run("print nope;");
    assert!(matches!(o.error, Some(RuntimeError::UndefinedVariable { .. })));
}

#[test]
fn assignment_does_not_create_globals() {
    let o = run("nope = 1;");
    assert!(matches!(o.error, Some(RuntimeError::UndefinedVariable { .. })));
}

#[test]
fn negating_a_string_is_unsupported() {
    let o = run("print -\"a\";");
    assert!(matches!(o.error, Some(RuntimeError::UnsupportedType { .. })));
}

#[test]
fn calling_a_number_is_unsupported() {
    let o = run("var x = 1; x();");
    assert!(matches!(o.error, Some(RuntimeError::UnsupportedType { .. })));
}

#[test]
fn for_loop_with_all_clauses() {
    assert_eq!(ok("for (var i = 0; i < 3; i = i + 1) print i;"), vec!["0", "1", "2"]);
}

#[test]
fn if_else_and_logic() {
    assert_eq!(
        ok("if (1 < 2 and nil or true) print \"yes\"; else print \"no\"; if (false) print 1; else print 2;"),
        vec!["yes", "2"]
    );
}

#[test]
fn sequence_operator_keeps_the_last_value() {
    assert_eq!(ok("print (1, 2, 3);"), vec!["3"]);
}

#[test]
fn recursion() {
    let src = "fun fib(n) { if (n < 2) return n; return fib(n - 2) + fib(n - 1); } print fib(10);";
    assert_eq!(ok(src), vec!["55"]);
}

#[test]
fn native_clock() {
    assert_eq!(ok("print clock();"), vec!["1.5"]);
}

#[test]
fn script_return_leaves_only_the_reserved_slot() {
    let o = run("var a = 1; { var b = 2; print a + b; }");
    assert!(o.error.is_none());
    assert_eq!(o.stack_len, 1);
}

#[test]
fn return_at_top_level_is_a_warning() {
    let o = run("return 1; print 2;");
    assert_eq!(errors(&o), 0);
    assert_eq!(o.diagnostics.len(), 1);
    assert_eq!(o.out, vec!["2"]);
}

#[test]
fn closure_counter_shares_its_variable() {
    let src = "fun make() { var x = 0; fun inc() { x = x + 1; print x; } return inc; }
var c = make(); c(); c(); c();";
    assert_eq!(ok(src), vec!["1", "2", "3"]);
}

#[test]
fn nested_closures_capture_through_functions() {
    let src = "fun a() { var x = \"x\"; fun b() { fun c() { print x; } return c; } return b; }
a()()();";
    assert_eq!(ok(src), vec!["x"]);
}

fn nested_calls(depth: usize) -> Outcome {
    run(&format!("fun f(n) {{ if (n > 0) f(n - 1); }} f({depth});"))
}

#[test]
fn sixty_four_frames_run() {
    assert!(nested_calls(62).error.is_none());
}

#[test]
fn sixty_five_frames_overflow() {
    assert!(matches!(nested_calls(63).error, Some(RuntimeError::StackOverflow(_))));
}

fn params(n: usize) -> String {
    (0..n).map(|i| format!("p{i}")).collect::<Vec<_>>().join(", ")
}

#[test]
fn two_hundred_fifty_five_parameters_compile() {
    let src = format!("fun f({}) {{}} f({});", params(255), vec!["1"; 255].join(", "));
    assert_eq!(errors(&run(&src)), 0);
}

#[test]
fn two_hundred_fifty_six_parameters_fail() {
    let src = format!("fun f({}) {{}}", params(256));
    assert_eq!(errors(&run(&src)), 1);
}

#[test]
fn two_hundred_fifty_six_arguments_fail() {
    let src = format!("fun f() {{}} f({});", vec!["1"; 256].join(", "));
    assert!(errors(&run(&src)) >= 1);
}

fn locals(n: usize) -> String {
    let body: String = (0..n).map(|i| format!("var v{i} = {i};")).collect();
    format!("fun f() {{ {body} }}")
}

#[test]
fn five_hundred_eleven_locals_compile() {
    assert_eq!(errors(&run(&locals(511))), 0);
}

#[test]
fn too_many_locals_fail() {
    let o = run(&locals(512));
    assert!(o.diagnostics.iter().any(|d| matches!(d, ParseError::StackOverflow { .. })));
}

fn jump_over(body_len: usize) -> String {
    let mut body = String::new();
    let mut left = body_len;
    if left % 2 == 1 {
        body.push_str("-1;");
        left -= 3;
    }
    for _ in 0..left / 2 {
        body.push_str("nil;");
    }
    format!("if (true) {{ {body} }}")
}

#[test]
fn jump_of_65535_compiles() {
    let o = run(&jump_over(65533));
    assert!(!o.diagnostics.iter().any(|d| matches!(d, ParseError::InvalidJump { .. })));
}

#[test]
fn jump_of_65536_fails() {
    let o = run(&jump_over(65534));
    assert!(o.diagnostics.iter().any(|d| matches!(d, ParseError::InvalidJump { .. })));
}

#[test]
fn invalid_assignment_target() {
    let o = run("var a = 1; var b = 2; a + b = 3;");
    assert_eq!(errors(&o), 1);
}

#[test]
fn parenthesized_expression_round_trip() {
    let src = "((1 + 2) * (3 - (4 / 8)))";
    let first = ok(&format!("print {src};"));
    assert_eq!(first, vec!["7.5"]);
    let again = ok(&format!("print {};", first[0]));
    assert_eq!(first, again);
}

fn chunk_of(code: Vec<Ins>) -> LoxFunction {
    let mut f = LoxFunction::new("test chunk".to_string());
    let mut chunk = Chunk::new("test chunk".to_string());
    for (i, ins) in code.into_iter().enumerate() {
        chunk.write(ins, Span::dummy(i as u32 + 1));
    }
    f.chunk = chunk;
    f
}

fn num(x: f64) -> Ins {
    Ins::Constant(Value::Number(x.to_bits()))
}

fn run_chunk(code: Vec<Ins>) -> Vec<String> {
    let mut host = TestHost;
    let mut console = Console::new();
    let mut vm = Vm::new();
    assert!(vm.start_function(chunk_of(code)));
    assert!(matches!(vm.run(&mut host, &mut console, 1000), RunOutcome::Finished));
    console.output
}

fn finishes(code: Vec<Ins>) {
    let mut host = TestHost;
    let mut console = Console::new();
    let mut vm = Vm::new();
    assert!(vm.start_function(chunk_of(code)));
    assert!(matches!(vm.run(&mut host, &mut console, 1000), RunOutcome::Finished));
    assert_eq!(vm.stack.len(), 1);
}

#[test]
fn correct_arith() {
    finishes(vec![num(1.2), num(3.4), Ins::Add, num(5.6), Ins::Divide, Ins::Negate, Ins::Return]);
    let out = run_chunk(vec![num(1.2), num(3.4), Ins::Add, num(5.6), Ins::Divide, Ins::Negate, Ins::Print, Ins::Nil, Ins::Return]);
    assert_eq!(out, vec![format!("{}", -((1.2f64 + 3.4) / 5.6))]);
}

#[test]
fn arith_challenge_1_1() {
    finishes(vec![num(1.0), num(2.0), Ins::Multiply, num(3.0), Ins::Add, Ins::Return]);
}

#[test]
fn arith_challenge_1_2() {
    finishes(vec![num(1.0), num(2.0), num(3.0), Ins::Multiply, Ins::Add, Ins::Return]);
}

#[test]
fn arith_challenge_1_3() {
    finishes(vec![num(3.0), num(2.0), Ins::Subtract, num(1.0), Ins::Subtract, Ins::Return]);
}

#[test]
fn arith_challenge_1_4() {
    finishes(vec![num(1.0), num(2.0), num(3.0), Ins::Multiply, Ins::Add, num(4.0), num(5.0), Ins::Negate, Ins::Divide, Ins::Subtract, Ins::Return]);
}

#[test]
fn arith_challenge_2_1() {
    finishes(vec![num(4.0), num(3.0), num(0.0), num(2.0), Ins::Subtract, Ins::Multiply, Ins::Subtract, Ins::Return]);
}

#[test]
fn arith_challenge_2_2() {
    finishes(vec![num(4.0), num(3.0), num(2.0), Ins::Negate, Ins::Multiply, Ins::Negate, Ins::Add, Ins::Return]);
}

#[test]
fn arith_chunk_values() {
    let p = |mut v: Vec<Ins>| {
        v.extend([Ins::Print, Ins::Nil, Ins::Return]);
        run_chunk(v)
    };
    assert_eq!(p(vec![num(1.0), num(2.0), Ins::Multiply, num(3.0), Ins::Add]), vec!["5"]);
    assert_eq!(p(vec![num(1.0), num(2.0), num(3.0), Ins::Multiply, Ins::Add]), vec!["7"]);
    assert_eq!(p(vec![num(3.0), num(2.0), Ins::Subtract, num(1.0), Ins::Subtract]), vec!["0"]);
    assert_eq!(p(vec![num(1.0), num(2.0), num(3.0), Ins::Multiply, Ins::Add, num(4.0), num(5.0), Ins::Negate, Ins::Divide, Ins::Subtract]), vec!["7.8"]);
    assert_eq!(p(vec![num(4.0), num(3.0), num(0.0), num(2.0), Ins::Subtract, Ins::Multiply, Ins::Subtract]), vec!["10"]);
    assert_eq!(p(vec![num(4.0), num(3.0), num(2.0), Ins::Negate, Ins::Multiply, Ins::Negate, Ins::Add]), vec!["10"]);
}

#[test]
fn rejects_a_chunk_that_jumps_outside() {
    let mut vm = Vm::new();
    assert!(!vm.start_function(chunk_of(vec![Ins::Jump(5), Ins::Return])));
    assert!(!vm.start_function(chunk_of(vec![Ins::Nil])));
    assert!(vm.frames.is_empty());
}

#[test]
fn challenges_challenge_1_1() {
    finishes(vec![num(1.0), num(2.0), Ins::Multiply, num(3.0), Ins::Add, Ins::Return]);
}

#[test]
fn challenges_challenge_1_2() {
    finishes(vec![num(1.0), num(2.0), num(3.0), Ins::Multiply, Ins::Add, Ins::Return]);
}

#[test]
fn challenges_challenge_1_3() {
    finishes(vec![num(3.0), num(2.0), Ins::Subtract, num(1.0), Ins::Subtract, Ins::Return]);
}

#[test]
fn challenges_challenge_1_4() {
    finishes(vec![num(1.0), num(2.0), num(3.0), Ins::Multiply, Ins::Add, num(4.0), num(5.0), Ins::Negate, Ins::Divide, Ins::Subtract, Ins::Return]);
}

#[test]
fn challenges_challenge_2_1() {
    finishes(vec![num(4.0), num(3.0), num(0.0), num(2.0), Ins::Subtract, Ins::Multiply, Ins::Subtract, Ins::Return]);
}

#[test]
fn challenges_challenge_2_2() {
    finishes(vec![num(4.0), num(3.0), num(2.0), Ins::Negate, Ins::Multiply, Ins::Negate, Ins::Add, Ins::Return]);
}

#[test]
fn reload_starts_from_the_reserved_slot() {
    let mut host = TestHost;
    let mut console = Console::new();
    let mut vm = Vm::new();
    vm.load("{ var a = 1; print a; } print nope;", &host);
    assert!(matches!(vm.run(&mut host, &mut console, 1000), RunOutcome::Failed(_)));
    vm.frames.clear();
    vm.load("{ var b = 2; print b; }", &host);
    assert_eq!(vm.stack.len(), 1);
    assert!(matches!(vm.run(&mut host, &mut console, 1000), RunOutcome::Finished));
    assert_eq!(console.output, vec!["1", "2"]);
}
