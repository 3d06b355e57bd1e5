use rblox::chunk::{Chunk, Ins};
use rblox::compiler::{compile, Compiler, FunctionType};
use rblox::display::usize_text;
use rblox::error::{ErrorLevel, ErrorType, LoxError, ParseError, RuntimeError, ScanError};
use rblox::host::{ArithOp, Host};
use rblox::mman::MemManager;
use rblox::module::Module;
use rblox::rules::{ParseFn, ParseRule, Precedence};
use rblox::span::Span;
use rblox::token::{Token, TokenType};
use rblox::value::{equals, num_eq, num_lt, num_neg, truth, LoxObject, Value};
use rblox::vm::{check_function, has_error, Console, RunOutcome, Vm};

struct Doubles;

impl Host for Doubles {
    fn parse_number(&self, text: &str) -> Option<u64> {
        text.parse::<f64>().ok().map(|f| f.to_bits())
    }

    fn arith(&self, op: ArithOp, a: u64, b: u64) -> u64 {
        let (x, y) = (f64::from_bits(a), f64::from_bits(b));
        match op {
            ArithOp::Add => x + y,
            ArithOp::Subtract => x - y,
            ArithOp::Multiply => x * y,
            ArithOp::Divide => x / y,
        }
        .to_bits()
    }

    fn number_text(&self, bits: u64) -> String {
        format!("{}", f64::from_bits(bits))
    }

    fn call_native(&mut self, _index: usize, _args: &Vec<Value>) -> Result<Value, RuntimeError> {
        Ok(Value::Nil)
    }


}

#[test]
fn span_normalises_and_joins() {
    assert_eq!(Span::new(5, 2, 3), Span(2, 5, 3));
    assert_eq!(Span::new(1, 4, 2).to(Span::new(3, 9, 1)), Span(1, 9, 1));
    assert!(Span::new(1, 4, 1).contains_p(3));
    assert!(!Span::new(1, 4, 1).contains_p(4));
    assert_eq!(Span::new(2, 8, 1).updated(1, -1), Span(3, 7, 1));
    assert_eq!(Span::new(2, 8, 1).range(), 2..8);
    assert_eq!(Span::dummy(7), Span(0, 0, 7));
}

#[test]
fn chunk_keeps_one_span_per_instruction() {
    let mut c = Chunk::new("c".to_string());
    c.write(Ins::Nil, Span::dummy(1));
    c.write(Ins::Jump(-1), Span::dummy(2));
    c.patch(1, Ins::Jump(0));
    assert_eq!(c.len(), 2);
    assert_eq!(c.code.len(), c.spans.len());
    assert_eq!(c.get(1), Some((&Ins::Jump(0), &Span::dummy(2))));
    assert_eq!(c.get(2), None);
}

#[test]
fn compiled_functions_keep_jumps_inside() {
    let mut module = Module::new();
    let src = "fun f(n) { var i = 0; while (i < n) { if (i == 2 or i == 3 and true) print i; i = i + 1; } return i; }
for (var k = 0; k < 3; k = k + 1) { f(k); }";
    let d = compile(src, &mut module, &Doubles);
    assert!(!has_error(&d));
    assert_eq!(module.functions.len(), 2);
    assert_eq!(module.functions[1].name, "<script>");
    for f in &module.functions {
        assert!(check_function(f));
        assert_eq!(f.chunk.code.len(), f.chunk.spans.len());
        assert_eq!(f.chunk.code.last(), Some(&Ins::Return));
    }
}

#[test]
fn closures_match_their_functions() {
    let src = "fun make() { var a = 1; var b = 2; fun g() { print a + b; } return g; } var g = make(); g(); g();";
    let mut host = Doubles;
    let mut vm = Vm::new();
    let d = vm.load(src, &host);
    assert!(d.is_empty());
    assert!(matches!(vm.run(&mut host, &mut Console::new(), 10_000), RunOutcome::Finished));
    assert!(!vm.module.closures.is_empty());
    for c in &vm.module.closures {
        assert_eq!(c.upvalues.len(), vm.module.functions[c.function].upvalues);
    }
    let g = vm.module.closures.iter().find(|c| vm.module.functions[c.function].name == "g").unwrap();
    assert_eq!(g.upvalues.len(), 2);
    let mut open: Vec<usize> = Vec::new();
    for u in &vm.module.upvals {
        if let rblox::module::LoxUpvalue::Open(s) = u {
            assert!(!open.contains(s));
            open.push(*s);
        }
    }
    assert_eq!(vm.stack.len(), 1);
}

#[test]
fn lox_strings_value_eq() {
    assert_eq!(LoxObject::String("asdf".to_string()), LoxObject::String("asdf".to_string()));
    let a = Value::Object(LoxObject::String("asdf".to_string()));
    let b = Value::Object(LoxObject::String("asdf".to_string()));
    assert_eq!(a, b);
    assert!(equals(&a, &b));
}

#[test]
fn interning_gives_one_handle_per_contents() {
    let mut m = MemManager::new();
    let a = m.add_string("asdf");
    let b = m.add_string("asdf");
    let c = m.add_string("other");
    assert_eq!(a, b);
    assert_ne!(a, c);
    assert_eq!(m.find_string("asdf"), Some(a));
    assert_eq!(m.find_string("none"), None);
    assert_eq!(m.objects[a], LoxObject::String("asdf".to_string()));
    assert_eq!(m.alloc_obj(LoxObject::String("asdf".to_string())), a);
    let f = m.alloc_obj(LoxObject::Function("f".to_string(), 0));
    assert_eq!(m.objects[f], LoxObject::Function("f".to_string(), 0));
    assert_eq!(m.take_string("asdf"), LoxObject::String("asdf".to_string()));
    assert_eq!(m.find_string("asdf"), None);
    assert_eq!(m.push(LoxObject::Native("clock".to_string(), 0)), m.objects.len() - 1);
}

#[test]
fn falsiness_and_equality() {
    assert!(!truth(&Value::Nil));
    assert!(!truth(&Value::Boolean(false)));
    assert!(truth(&Value::Number(0f64.to_bits())));
    assert!(truth(&Value::Object(LoxObject::String(String::new()))));
    assert!(!equals(&Value::Nil, &Value::Boolean(false)));
    assert!(!equals(&Value::Number(1f64.to_bits()), &Value::Boolean(true)));
    assert!(equals(&Value::Nil, &Value::Nil));
}

#[test]
fn doubles_compare_as_ieee() {
    let nan = f64::NAN.to_bits();
    assert!(!num_eq(nan, nan));
    assert!(num_eq(0f64.to_bits(), (-0f64).to_bits()));
    assert!(num_lt((-2.5f64).to_bits(), (-1f64).to_bits()));
    assert!(num_lt((-1f64).to_bits(), 3f64.to_bits()));
    assert!(!num_lt(3f64.to_bits(), 3f64.to_bits()));
    assert!(!num_lt(nan, 3f64.to_bits()));
    assert_eq!(f64::from_bits(num_neg(2f64.to_bits())), -2.0);
}

#[test]
fn object_kinds() {
    let f = LoxObject::Function("f".to_string(), 1);
    assert!(f.is_callable());
    assert!(!LoxObject::String("s".to_string()).is_callable());
    assert!(f.is_type(LoxObject::Function("g".to_string(), 2)));
    assert!(!f.is_type(LoxObject::Closure("f".to_string(), 1)));
    assert_eq!(f.data(), "f");
    assert_eq!(f.kind_name(), "<func>");
    assert_eq!(Value::Nil.kind_name(), "nil");
}

#[test]
fn precedence_steps() {
    assert_eq!(Precedence::Term.update(1), Precedence::Factor);
    assert_eq!(Precedence::Primary.update(1), Precedence::Lowest);
    assert_eq!(Precedence::Sequence.update(-1), Precedence::Lowest);
    assert!(Precedence::Assignment.le(&Precedence::Or));
    assert_eq!(ParseRule::from_token(&TokenType::Minus), ParseRule(ParseFn::Unary, ParseFn::Binary, Precedence::Term));
    assert_eq!(ParseRule::from_token(&TokenType::Comma), ParseRule(ParseFn::Nothing, ParseFn::Binary, Precedence::Sequence));
    assert_eq!(ParseRule::from_token(&TokenType::Semicolon), ParseRule(ParseFn::Nothing, ParseFn::Nothing, Precedence::Lowest));
}

#[test]
fn scope_end_pops_and_closes() {
    let mut c = Compiler::new();
    assert_eq!(c.fun_type, FunctionType::Script);
    c.begin_scope(Span::dummy(1)).unwrap();
    c.declare_variable(&"a".to_string(), Span::dummy(1)).unwrap();
    c.mark_init();
    c.declare_variable(&"b".to_string(), Span::dummy(1)).unwrap();
    c.mark_init();
    c.mark_captured(2);
    c.declare_variable(&"d".to_string(), Span::dummy(1)).unwrap();
    c.mark_init();
    let warn = c.declare_variable(&"a".to_string(), Span::dummy(2)).unwrap_err();
    assert_eq!(warn.get_level(), ErrorLevel::Warning);
    c.mark_init();
    assert_eq!(c.resolve_local(&"a".to_string()).unwrap(), Some(4));
    assert_eq!(c.resolve_local(&"zz".to_string()).unwrap(), None);
    c.end_scope(Span::dummy(3));
    assert_eq!(c.locals.len(), 1);
    assert_eq!(c.function.chunk.code, vec![Ins::PopN(2), Ins::CloseUpval, Ins::PopN(1)]);
}

#[test]
fn self_initialisation_is_an_error() {
    let mut c = Compiler::new();
    c.begin_scope(Span::dummy(1)).unwrap();
    c.declare_variable(&"a".to_string(), Span::dummy(1)).unwrap();
    assert!(matches!(c.resolve_local(&"a".to_string()), Err(ParseError::Error { level: ErrorLevel::Error, .. })));
}

#[test]
fn upvalues_are_shared_and_bounded() {
    let mut c = Compiler::new();
    assert_eq!(c.add_upvalue((true, 1), Span::dummy(1)).unwrap(), 0);
    assert_eq!(c.add_upvalue((false, 0), Span::dummy(1)).unwrap(), 1);
    assert_eq!(c.add_upvalue((true, 1), Span::dummy(1)).unwrap(), 0);
    assert_eq!(c.function.upvalues, 2);
}

#[test]
fn jump_patching_limits() {
    let mut c = Compiler::new();
    let j = c.emit(Ins::JumpIfFalse(-1), Span::dummy(1));
    for _ in 0..65535 {
        c.emit(Ins::Nil, Span::dummy(1));
    }
    c.patch_jump(j, Span::dummy(1)).unwrap();
    assert_eq!(c.function.chunk.code[j], Ins::JumpIfFalse(65535));
    c.emit(Ins::Nil, Span::dummy(1));
    assert!(matches!(c.patch_jump(j, Span::dummy(1)), Err(ParseError::InvalidJump { .. })));
    assert!(matches!(c.patch_jump(1, Span::dummy(1)), Err(ParseError::InvalidJump { .. })));
    let back = c.emit_loop(0, Span::dummy(1));
    assert!(matches!(back, Err(ParseError::InvalidJump { .. })));
    let mut d = Compiler::new();
    d.emit(Ins::Nil, Span::dummy(1));
    d.emit(Ins::Nil, Span::dummy(1));
    assert_eq!(d.emit_loop(0, Span::dummy(1)).unwrap(), 2);
    assert_eq!(d.function.chunk.code[2], Ins::Jump(-3));
}

#[test]
fn local_slots_are_bounded() {
    let mut c = Compiler::new();
    c.begin_scope(Span::dummy(1)).unwrap();
    for i in 0..511 {
        c.add_local(format!("v{i}"), Span::dummy(1)).unwrap();
    }
    assert!(matches!(c.add_local("x".to_string(), Span::dummy(1)), Err(ParseError::StackOverflow { .. })));
}

#[test]
fn diagnostics_carry_level_kind_and_span() {
    let e = ParseError::ScanError { error: ScanError::UnterminatedString, span: Span(1, 2, 3) };
    assert!(e.allows_continuation());
    assert_eq!(LoxError::get_span(&e), Span(1, 2, 3));
    assert_eq!(LoxError::get_type(&e), ErrorType::CompileError);
    let eof = ParseError::UnexpectedToken {
        message: String::new(),
        offending: Token::new(TokenType::EOF, Span(4, 4, 1)),
        expected: None,
    };
    assert!(eof.allows_continuation());
    assert_eq!(eof.primary_span(), Span(4, 4, 1));
    let r = RuntimeError::ZeroDivision(Span(0, 1, 2));
    assert_eq!(r.get_level(), ErrorLevel::Warning);
    assert_eq!(LoxError::get_type(&r), ErrorType::RuntimeError);
    assert_eq!(RuntimeError::StackOverflow(Span(5, 6, 1)).primary_span(), Span(5, 6, 1));
    assert_eq!(RuntimeError::EmptyStack(Span(5, 6, 1)).get_level(), ErrorLevel::Error);
    assert_eq!(ErrorLevel::Warning.word(), "WARNING");
    assert_eq!(ErrorType::CompileError.word(), "Compile Error");
}

#[test]
fn decimal_text() {
    assert_eq!(usize_text(0), "0");
    assert_eq!(usize_text(255), "255");
    assert_eq!(usize_text(1_000_007), "1000007");
}

#[test]
fn block_without_declarations_is_stack_neutral() {
    let mut module = Module::new();
    let d = compile("{ print 1; 1 + 2; }", &mut module, &Doubles);
    assert!(d.is_empty());
    let code = &module.functions[0].chunk.code;
    assert!(!code.iter().any(|i| matches!(i, Ins::PopN(_) | Ins::CloseUpval)));
    let mut host = Doubles;
    let mut vm = Vm::new();
    vm.load("var a = 0; { print a; a + 2; a = 3; }", &host);
    assert!(matches!(vm.run(&mut host, &mut Console::new(), 1000), RunOutcome::Finished));
    assert_eq!(vm.stack.len(), 1);
}
