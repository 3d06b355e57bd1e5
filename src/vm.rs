use vstd::prelude::*;
use crate::chunk::{jump_target, jumps_in_bounds, Ins};
use crate::compiler::compile;
use crate::parser::{literal_print_code, literal_prints};
use crate::scanner::tokenizes;
use crate::token::Token;
use crate::display::{decimal, usize_text};
use crate::error::{ErrorLevel, ParseError, RuntimeError};
use crate::host::{ArithOp, Host};
use crate::module::{LoxClosure, LoxFunction, LoxUpvalue, Module, NativeFunction};
use crate::parser::function_ok;
use crate::span::Span;
use crate::value::{equals, is_zero, num_is_zero, num_lt, num_neg, number_lt, number_neg, spec_equals, spec_truth, truth, LoxObject, Value};
use vstd::string::StringExecFns;

verus! {

/// At most this many nested calls.
pub const FRAMES_MAX: usize = 64;

/// At most this many values on the stack.
pub const STACK_MAX: usize = 16320;

/// What running the program hands out: the lines it prints and the
/// warnings it raises, in order.
#[derive(Debug)]
pub struct Console {
    pub output: Vec<String>,
    pub warnings: Vec<RuntimeError>,
}

impl Console {
    pub fn new() -> (r: Console)
        ensures
            r.output@.len() == 0,
            r.warnings@.len() == 0,
    {
        Console { output: Vec::new(), warnings: Vec::new() }
    }
}

/// An activation: the closure running, the offset of its next instruction,
/// and the stack index of its callee slot.
#[derive(Debug, Clone, Copy, PartialEq, Eq, Structural)]
pub struct CallFrame {
    pub closure: usize,
    pub ip: usize,
    pub base: usize,
}

/// How a run of the machine ended.
#[derive(Debug, Clone)]
pub enum RunOutcome {
    /// The script returned.
    Finished,
    /// The step budget ran out; running again goes on.
    Paused,
    /// A runtime error stopped the script.
    Failed(RuntimeError),
}

/// The virtual machine: call frames, the value stack, the globals and the
/// module that holds the code.
pub struct Vm {
    pub frames: Vec<CallFrame>,
    pub stack: Vec<Value>,
    pub globals: Vec<(String, Value)>,
    pub module: Module,
    pub last_span: Span,
}

/// No two open upvalues refer to the same stack slot.
pub open spec fn open_unique(u: Seq<LoxUpvalue>) -> bool {
    forall|i: int, j: int| 0 <= i < u.len() && 0 <= j < u.len() && i != j
        && (#[trigger] u[i]) is Open && (#[trigger] u[j]) is Open
        ==> u[i]->Open_0 != u[j]->Open_0
}

/// A closure sees exactly as many captured variables as its function
/// declares, each a valid upvalue.
pub open spec fn closure_ok(m: &Module, c: LoxClosure) -> bool {
    &&& c.function < m.functions@.len()
    &&& c.upvalues@.len() == m.functions@[c.function as int].upvalues
    &&& forall|k: int| 0 <= k < c.upvalues@.len() ==> (#[trigger] c.upvalues@[k]) < m.upvals@.len()
}

/// A frame runs a valid closure and its next instruction lies inside the code.
pub open spec fn frame_ok(m: &Module, f: CallFrame) -> bool {
    &&& f.closure < m.closures@.len()
    &&& f.ip < m.functions@[m.closures@[f.closure as int].function as int].chunk.spec_code().len()
}

impl Vm {
    pub open spec fn wf(&self) -> bool {
        &&& forall|i: int| 0 <= i < self.module.functions@.len() ==> function_ok(#[trigger] self.module.functions@[i])
        &&& forall|i: int| 0 <= i < self.module.closures@.len() ==> closure_ok(&self.module, #[trigger] self.module.closures@[i])
        &&& open_unique(self.module.upvals@)
        &&& self.frames@.len() <= FRAMES_MAX
        &&& forall|i: int| 0 <= i < self.frames@.len() ==> frame_ok(&self.module, #[trigger] self.frames@[i])
        &&& forall|i: int| 0 <= i < self.frames@.len() ==> (#[trigger] self.frames@[i]).base < self.stack@.len()
        &&& forall|i: int, j: int| 0 <= i < j < self.frames@.len() ==> (#[trigger] self.frames@[i]).base < (#[trigger] self.frames@[j]).base
        &&& self.stack@.len() <= STACK_MAX
        &&& self.stack@.len() >= 1
    }

    /// A machine with slot 0 reserved for the script and no code loaded.
    pub fn new() -> (r: Vm)
        ensures
            r.wf(),
            r.frames@.len() == 0,
            r.stack@.len() == 1,
            r.stack@[0] matches Value::Object(LoxObject::Function(n, 0)) && n@ == "<script>"@,
            r.globals@.len() == 0,
    {
        let mut stack: Vec<Value> = Vec::new();
        stack.push(Value::Object(LoxObject::Function(String::from_str("<script>"), 0)));
        Vm {
            frames: Vec::new(),
            stack,
            globals: Vec::new(),
            module: Module::new(),
            last_span: Span(0, 0, 0),
        }
    }

    /// The index of the global called `name`, if defined.
    fn find_global(&self, name: &String) -> (r: Option<usize>)
        ensures
            r matches Some(i) ==> i < self.globals@.len() && self.globals@[i as int].0@ == name@
                && forall|j: int| 0 <= j < i ==> (#[trigger] self.globals@[j]).0@ != name@,
            r is None ==> forall|i: int| 0 <= i < self.globals@.len() ==> (#[trigger] self.globals@[i]).0@ != name@,
    {
        let mut i: usize = 0;
        while i < self.globals.len()
            invariant
                i <= self.globals@.len(),
                forall|j: int| 0 <= j < i ==> (#[trigger] self.globals@[j]).0@ != name@,
            decreases self.globals@.len() - i,
        {
            if crate::value::text_eq(&self.globals[i].0, name) {
                return Some(i);
            }
            i = i + 1;
        }
        None
    }

    /// Binds the global `name` to `v`, defining it if new.
    pub fn define_global(&mut self, name: String, v: Value)
        requires
            old(self).wf(),
        ensures
            final(self).last_span == old(self).last_span,
            final(self).wf(),
            final(self).frames == old(self).frames,
            final(self).stack == old(self).stack,
            final(self).module == old(self).module,
            exists|i: int| 0 <= i < final(self).globals@.len() && (#[trigger] final(self).globals@[i]).0@ == name@
                && final(self).globals@[i].1 == v,
    {
        let ghost n = name;
        match self.find_global(&name) {
            Some(i) => {
                self.globals.set(i, (name, v));
                assert(self.globals@[i as int].0@ == n@);
            },
            None => {
                self.globals.push((name, v));
                assert(self.globals@[self.globals@.len() - 1].0@ == n@);
            },
        }
    }

    /// Registers a host function and binds it as a global of its name.
    pub fn define_native(&mut self, name: String, arity: usize) -> (r: usize)
        requires
            old(self).wf(),
        ensures
            final(self).last_span == old(self).last_span,
            final(self).wf(),
            r == old(self).module.natives@.len(),
            final(self).module.natives@.len() == old(self).module.natives@.len() + 1,
            final(self).module.natives@[r as int].arity == arity,
            binds_native(final(self).globals@, name@, r),
            final(self).frames == old(self).frames,
            final(self).stack == old(self).stack,
    {
        let index = self.module.push_native(NativeFunction { name: name.clone(), arity });
        let value = Value::Object(LoxObject::Native(name.clone(), index));
        let ghost n = name;
        let ghost v = value;
        self.define_global(name, value);
        proof {
            let i = choose|i: int| 0 <= i < self.globals@.len() && (#[trigger] self.globals@[i]).0@ == n@
                && self.globals@[i].1 == v;
            assert(self.globals@[i].0@ == n@);
        }
        index
    }

    /// Pushes a value; fails when the stack is full.
    fn push(&mut self, v: Value) -> (r: Result<(), RuntimeError>)
        requires
            old(self).wf(),
        ensures
            final(self).last_span == old(self).last_span,
            final(self).wf(),
            final(self).frames == old(self).frames,
            final(self).module.functions == old(self).module.functions,
            final(self).module.closures == old(self).module.closures,
            final(self).module.upvals == old(self).module.upvals,
            final(self).module.natives == old(self).module.natives,
            r is Ok <==> old(self).stack@.len() < STACK_MAX,
            r is Ok ==> final(self).stack@ == old(self).stack@.push(v),
            r is Err ==> final(self).stack == old(self).stack && r->Err_0 is StackOverflow,
            final(self).globals == old(self).globals,
    {
        if self.stack.len() >= STACK_MAX {
            return Err(RuntimeError::StackOverflow(self.last_span));
        }
        self.stack.push(v);
        Ok(())
    }

    /// The base of the running frame, or 0 with no frame.
    fn frame_base(&self) -> (r: usize)
        requires
            self.wf(),
        ensures
            r < self.stack@.len(),
            r == self.floor(),
    {
        if self.frames.len() == 0 { 0 } else { self.frames[self.frames.len() - 1].base }
    }

    /// Pops a value of the running frame; the callee slot is never popped.
    fn pop(&mut self) -> (r: Result<Value, RuntimeError>)
        requires
            old(self).wf(),
        ensures
            final(self).last_span == old(self).last_span,
            final(self).wf(),
            final(self).frames == old(self).frames,
            final(self).module == old(self).module,
            final(self).globals == old(self).globals,
            r is Ok <==> old(self).stack@.len() > old(self).floor() + 1,
            r is Ok ==> final(self).stack@ == old(self).stack@.drop_last() && r->Ok_0 == old(self).stack@.last(),
            r is Err ==> final(self).stack == old(self).stack && r->Err_0 is EmptyStack,
    {
        let base = self.frame_base();
        if self.stack.len() <= base + 1 {
            return Err(RuntimeError::EmptyStack(self.last_span));
        }
        proof {
            assert forall|i: int| 0 <= i < self.frames@.len() implies (#[trigger] self.frames@[i]).base < self.stack@.len() - 1 by {
                if self.frames@.len() > 0 && i < self.frames@.len() - 1 {
                    assert(self.frames@[i].base < self.frames@[self.frames@.len() - 1].base);
                }
            }
        }
        match self.stack.pop() {
            Some(v) => Ok(v),
            None => Err(RuntimeError::EmptyStack(self.last_span)),
        }
    }

    /// The value `distance` below the top, within the running frame.
    fn peek(&self, distance: usize) -> (r: Result<Value, RuntimeError>)
        requires
            self.wf(),
        ensures
            r is Ok <==> distance + 1 < self.stack@.len() - self.floor(),
            r is Ok ==> r->Ok_0 == self.stack@[self.stack@.len() - 1 - distance],
    {
        let base = self.frame_base();
        if distance >= self.stack.len() - base - 1 {
            return Err(RuntimeError::EmptyStack(self.last_span));
        }
        Ok(copy_value(&self.stack[self.stack.len() - 1 - distance]))
    }

    /// Drops values down to `len` entries.
    fn truncate_to(&mut self, len: usize)
        requires
            old(self).wf(),
            1 <= len,
            forall|i: int| 0 <= i < old(self).frames@.len() ==> (#[trigger] old(self).frames@[i]).base < len,
        ensures
            final(self).last_span == old(self).last_span,
            final(self).wf(),
            final(self).frames == old(self).frames,
            final(self).module == old(self).module,
            final(self).globals == old(self).globals,
            final(self).stack@.len() == if len < old(self).stack@.len() { len as int } else { old(self).stack@.len() as int },
            final(self).stack@ == old(self).stack@.subrange(0, final(self).stack@.len() as int),
    {
        if len < self.stack.len() {
            self.stack.truncate(len);
        } else {
            assert(self.stack@ =~= old(self).stack@.subrange(0, self.stack@.len() as int));
        }
    }

    /// The upvalue for absolute stack slot `slot`: the open one already
    /// there, or a new one.
    fn capture_upval(&mut self, slot: usize) -> (r: usize)
        requires
            old(self).wf(),
        ensures
            final(self).last_span == old(self).last_span,
            final(self).wf(),
            final(self).frames == old(self).frames,
            final(self).stack == old(self).stack,
            final(self).globals == old(self).globals,
            final(self).module.functions == old(self).module.functions,
            final(self).module.closures == old(self).module.closures,
            final(self).module.natives == old(self).module.natives,
            (exists|i: int| 0 <= i < old(self).module.upvals@.len() && old(self).module.upvals@[i] == LoxUpvalue::Open(slot))
                ==> final(self).module.upvals == old(self).module.upvals,
            !(exists|i: int| 0 <= i < old(self).module.upvals@.len() && old(self).module.upvals@[i] == LoxUpvalue::Open(slot))
                ==> final(self).module.upvals@ == old(self).module.upvals@.push(LoxUpvalue::Open(slot))
                && r == old(self).module.upvals@.len(),
            r < final(self).module.upvals@.len(),
            final(self).module.upvals@[r as int] == LoxUpvalue::Open(slot),
            final(self).module.upvals@.subrange(0, old(self).module.upvals@.len() as int) == old(self).module.upvals@,
    {
        let mut i: usize = 0;
        while i < self.module.upvals.len()
            invariant
                *self == *old(self),
                self.wf(),
                i <= self.module.upvals@.len(),
                forall|j: int| 0 <= j < i ==> (#[trigger] self.module.upvals@[j]) != LoxUpvalue::Open(slot),
            decreases self.module.upvals@.len() - i,
        {
            if let LoxUpvalue::Open(s) = &self.module.upvals[i] {
                if *s == slot {
                    proof {
                        assert(self.module.upvals@.subrange(0, old(self).module.upvals@.len() as int) =~= old(self).module.upvals@);
                    }
                    return i;
                }
            }
            i = i + 1;
        }
        let ghost before = self.module.upvals@;
        self.module.upvals.push(LoxUpvalue::Open(slot));
        proof {
            assert(self.module.upvals@.subrange(0, before.len() as int) =~= before);
            assert forall|c: int| 0 <= c < self.module.closures@.len()
                implies closure_ok(&self.module, #[trigger] self.module.closures@[c]) by {
                assert(closure_ok(&old(self).module, old(self).module.closures@[c]));
            }
            assert forall|f: int| 0 <= f < self.frames@.len()
                implies frame_ok(&self.module, #[trigger] self.frames@[f]) by {
                assert(frame_ok(&old(self).module, old(self).frames@[f]));
            }
        }
        self.module.upvals.len() - 1
    }

    /// Closes every open upvalue on slot `threshold` or above: it takes the
    /// slot's value and no longer refers to the stack.
    fn close_upvals(&mut self, threshold: usize)
        requires
            old(self).wf(),
        ensures
            final(self).last_span == old(self).last_span,
            final(self).wf(),
            final(self).frames == old(self).frames,
            final(self).stack == old(self).stack,
            final(self).globals == old(self).globals,
            final(self).module.functions == old(self).module.functions,
            final(self).module.closures == old(self).module.closures,
            final(self).module.natives == old(self).module.natives,
            final(self).module.upvals@.len() == old(self).module.upvals@.len(),
            forall|i: int| 0 <= i < final(self).module.upvals@.len() && (#[trigger] final(self).module.upvals@[i]) is Open
                ==> final(self).module.upvals@[i]->Open_0 < threshold,
            forall|i: int| 0 <= i < old(self).module.upvals@.len() ==> (#[trigger] final(self).module.upvals@[i]) == closed_at(
                old(self).module.upvals@[i], threshold, old(self).stack@),
    {
        let mut i: usize = 0;
        while i < self.module.upvals.len()
            invariant
                self.wf(),
                self.last_span == old(self).last_span,
                self.frames == old(self).frames,
                self.stack == old(self).stack,
                self.globals == old(self).globals,
                self.module.functions == old(self).module.functions,
                self.module.closures == old(self).module.closures,
                self.module.natives == old(self).module.natives,
                self.module.upvals@.len() == old(self).module.upvals@.len(),
                i <= self.module.upvals@.len(),
                forall|j: int| 0 <= j < i && (#[trigger] self.module.upvals@[j]) is Open ==> self.module.upvals@[j]->Open_0 < threshold,
                forall|j: int| 0 <= j < i ==> (#[trigger] self.module.upvals@[j]) == closed_at(
                    old(self).module.upvals@[j], threshold, old(self).stack@),
                forall|j: int| i <= j < self.module.upvals@.len() ==> (#[trigger] self.module.upvals@[j]) == old(self).module.upvals@[j],
            decreases self.module.upvals@.len() - i,
        {
            let slot = match &self.module.upvals[i] {
                LoxUpvalue::Open(s) => Some(*s),
                LoxUpvalue::Closed(_) => None,
            };
            if let Some(s) = slot {
                if s >= threshold {
                    let v = if s < self.stack.len() { copy_value(&self.stack[s]) } else { Value::Nil };
                    let ghost before = self.module;
                    self.module.upvals.set(i, LoxUpvalue::Closed(v));
                    proof {
                        assert forall|c: int| 0 <= c < self.module.closures@.len()
                            implies closure_ok(&self.module, #[trigger] self.module.closures@[c]) by {
                            assert(closure_ok(&before, before.closures@[c]));
                        }
                        assert forall|f: int| 0 <= f < self.frames@.len()
                            implies frame_ok(&self.module, #[trigger] self.frames@[f]) by {
                            assert(frame_ok(&before, self.frames@[f]));
                        }
                    }
                }
            }
            i = i + 1;
        }
    }
}


/// An exact copy of a value.
pub fn copy_value(v: &Value) -> (r: Value)
    ensures
        r == *v,
{
    match v {
        Value::Boolean(b) => Value::Boolean(*b),
        Value::Nil => Value::Nil,
        Value::Number(n) => Value::Number(*n),
        Value::Object(o) => Value::Object(match o {
            LoxObject::Identifier(s) => LoxObject::Identifier(s.clone()),
            LoxObject::String(s) => LoxObject::String(s.clone()),
            LoxObject::Function(s, i) => LoxObject::Function(s.clone(), *i),
            LoxObject::Native(s, i) => LoxObject::Native(s.clone(), *i),
            LoxObject::Closure(s, i) => LoxObject::Closure(s.clone(), *i),
        }),
    }
}

/// A copy of an instruction; a `Closure` keeps its function index and
/// leaves its capture list behind (it is read from the code when run).
fn copy_ins(ins: &Ins) -> (r: Ins)
    ensures
        !(*ins is Closure) ==> r == *ins,
        *ins is Closure ==> r is Closure && r->Closure_0 == ins->Closure_0,
{
    match ins {
        Ins::Constant(v) => Ins::Constant(copy_value(v)),
        Ins::True => Ins::True,
        Ins::False => Ins::False,
        Ins::Nil => Ins::Nil,
        Ins::Add => Ins::Add,
        Ins::Subtract => Ins::Subtract,
        Ins::Multiply => Ins::Multiply,
        Ins::Divide => Ins::Divide,
        Ins::Negate => Ins::Negate,
        Ins::Not => Ins::Not,
        Ins::Equal => Ins::Equal,
        Ins::Greater => Ins::Greater,
        Ins::Less => Ins::Less,
        Ins::DefGlobal(s) => Ins::DefGlobal(s.clone()),
        Ins::GetGlobal(s) => Ins::GetGlobal(s.clone()),
        Ins::SetGlobal(s) => Ins::SetGlobal(s.clone()),
        Ins::GetLocal(i) => Ins::GetLocal(*i),
        Ins::SetLocal(i) => Ins::SetLocal(*i),
        Ins::GetUpval(i) => Ins::GetUpval(*i),
        Ins::SetUpval(i) => Ins::SetUpval(*i),
        Ins::Call(i) => Ins::Call(*i),
        Ins::Closure(i, _) => Ins::Closure(*i, Vec::new()),
        Ins::Jump(d) => Ins::Jump(*d),
        Ins::JumpIfFalse(d) => Ins::JumpIfFalse(*d),
        Ins::Print => Ins::Print,
        Ins::Pop => Ins::Pop,
        Ins::PopN(n) => Ins::PopN(*n),
        Ins::CloseUpval => Ins::CloseUpval,
        Ins::Return => Ins::Return,
    }
}

/// The printed form of an object.
pub fn object_text(o: &LoxObject) -> (r: String)
    ensures
        o matches LoxObject::String(s) ==> r@ == s@,
        o matches LoxObject::Identifier(s) ==> r@ == s@,
        o matches LoxObject::Function(name, _) ==> r@ == "<fn "@ + name@ + ">"@,
        o matches LoxObject::Closure(name, _) ==> r@ == "<fn "@ + name@ + ">"@,
        o matches LoxObject::Native(name, _) ==> r@ == "<native fn "@ + name@ + ">"@,
{
    match o {
        LoxObject::Identifier(s) => s.clone(),
        LoxObject::String(s) => s.clone(),
        LoxObject::Function(name, _) | LoxObject::Closure(name, _) => {
            let t = String::from_str("<fn ");
            let t = t.concat(name.as_str());
            t.concat(">")
        },
        LoxObject::Native(name, _) => {
            let t = String::from_str("<native fn ");
            let t = t.concat(name.as_str());
            t.concat(">")
        },
    }
}

/// The printed form of a value; numbers are written by the host.
pub fn value_text<H: Host>(v: &Value, host: &H) -> (r: String)
    ensures
        shows(*v, r@),
        *v == Value::Nil ==> r@ == "nil"@,
        *v == Value::Boolean(true) ==> r@ == "true"@,
        *v == Value::Boolean(false) ==> r@ == "false"@,
        v matches Value::Object(LoxObject::String(s)) ==> r@ == s@,
{
    match v {
        Value::Boolean(b) => if *b { String::from_str("true") } else { String::from_str("false") },
        Value::Nil => String::from_str("nil"),
        Value::Number(n) => host.number_text(*n),
        Value::Object(o) => object_text(o),
    }
}

/// The message for a call with the wrong number of arguments.
pub fn arity_message(expected: usize, got: usize) -> (r: String)
    ensures
        r@ == "Expected "@ + decimal(expected as nat) + " arguments, but got "@ + decimal(got as nat),
{
    let t = String::from_str("Expected ");
    let t = t.concat(usize_text(expected).as_str());
    let t = t.concat(" arguments, but got ");
    t.concat(usize_text(got).as_str())
}

fn unsupported(message: &str, span: Span) -> (r: RuntimeError)
    ensures
        r is UnsupportedType,
{
    RuntimeError::UnsupportedType { message: String::from_str(message), span, level: ErrorLevel::Error }
}


/// What a step leaves of the parts of the machine that code cannot change.
pub open spec fn keeps_code(a: &Vm, b: &Vm) -> bool {
    &&& b.module.functions == a.module.functions
    &&& b.module.natives == a.module.natives
}

impl Vm {
    pub open spec fn top(&self) -> CallFrame {
        self.frames@.last()
    }

    /// The upvalue indices of the running closure.
    pub open spec fn top_upvalues(&self) -> Seq<usize> {
        self.module.closures@[self.top().closure as int].upvalues@
    }

    /// The stack index of the running frame's callee slot, or 0.
    pub open spec fn floor(&self) -> int {
        if self.frames@.len() == 0 { 0 } else { self.top().base as int }
    }

    /// The span of the instruction the running frame executes next.
    pub open spec fn top_span(&self) -> Span {
        self.module.functions@[self.module.closures@[self.top().closure as int].function as int].chunk.spec_spans()[self.top().ip as int]
    }

    /// The instruction the running frame executes next.
    pub open spec fn fetched(&self) -> Ins {
        self.top_code()[self.top().ip as int]
    }

    pub open spec fn top_code(&self) -> Seq<Ins> {
        self.module.functions@[self.module.closures@[self.top().closure as int].function as int].chunk.spec_code()
    }

    /// The instruction of the running frame, its span and its offset.
    fn fetch(&self) -> (r: (Ins, Span, usize))
        requires
            self.wf(),
            self.frames@.len() > 0,
        ensures
            r.2 == self.top().ip,
            r.1 == self.top_span(),
            r.2 < self.top_code().len(),
            !(self.top_code()[r.2 as int] is Closure) ==> r.0 == self.top_code()[r.2 as int],
            self.top_code()[r.2 as int] is Closure ==> (r.0 is Closure
                && r.0->Closure_0 == self.top_code()[r.2 as int]->Closure_0),
    {
        let frame = self.frames[self.frames.len() - 1];
        let f = self.module.closures[frame.closure].function;
        let chunk = &self.module.functions[f].chunk;
        (copy_ins(chunk.code_at(frame.ip)), chunk.span_at(frame.ip), frame.ip)
    }

    /// The length of the running code.
    fn top_len(&self) -> (r: usize)
        requires
            self.wf(),
            self.frames@.len() > 0,
        ensures
            r == self.top_code().len(),
    {
        let frame = self.frames[self.frames.len() - 1];
        let f = self.module.closures[frame.closure].function;
        self.module.functions[f].chunk.len()
    }

    /// Moves the running frame to offset `ip` of its code.
    fn set_ip(&mut self, ip: usize)
        requires
            old(self).wf(),
            old(self).frames@.len() > 0,
            ip < old(self).top_code().len(),
        ensures
            final(self).last_span == old(self).last_span,
            final(self).wf(),
            final(self).frames@.len() == old(self).frames@.len(),
            final(self).top() == (CallFrame { ip, ..old(self).top() }),
            final(self).stack == old(self).stack,
            final(self).module == old(self).module,
            final(self).globals == old(self).globals,
    {
        let last = self.frames.len() - 1;
        let frame = self.frames[last];
        self.frames.set(last, CallFrame { ip, ..frame });
        proof {
            assert forall|i: int| 0 <= i < self.frames@.len() implies frame_ok(&self.module, #[trigger] self.frames@[i]) by {
                if i != last {
                    assert(frame_ok(&old(self).module, old(self).frames@[i]));
                }
            }
            assert forall|i: int, j: int| 0 <= i < j < self.frames@.len()
                implies (#[trigger] self.frames@[i]).base < (#[trigger] self.frames@[j]).base by {
                assert(old(self).frames@[i].base < old(self).frames@[j].base);
            }
        }
    }
}


/// Reading captured variable `k` of the running closure: the stack slot of
/// an open upvalue, or the value a closed one holds, is pushed.
pub open spec fn get_upval_effect(a: &Vm, b: &Vm, k: usize, ok: bool) -> bool {
    let len = a.stack@.len();
    k < a.top_upvalues().len() && len < STACK_MAX ==> match a.module.upvals@[a.top_upvalues()[k as int] as int] {
        LoxUpvalue::Closed(v) => ok && b.stack@ == a.stack@.push(v),
        LoxUpvalue::Open(pos) => pos < len ==> ok && b.stack@ == a.stack@.push(a.stack@[pos as int]),
    }
}

/// Writing the top value to captured variable `k`: into the stack slot of
/// an open upvalue, or into a closed one.
pub open spec fn set_upval_effect(a: &Vm, b: &Vm, k: usize, ok: bool) -> bool {
    let len = a.stack@.len();
    let u = a.top_upvalues()[k as int] as int;
    k < a.top_upvalues().len() && len > a.floor() + 1 ==> match a.module.upvals@[u] {
        LoxUpvalue::Closed(_) => ok && b.stack == a.stack
            && b.module.upvals@ == a.module.upvals@.update(u, LoxUpvalue::Closed(a.stack@.last())),
        LoxUpvalue::Open(pos) => pos < len ==> ok && b.stack@ == a.stack@.update(pos as int, a.stack@.last())
            && b.module.upvals == a.module.upvals,
    }
}

/// `g1` is `g0` with the first global called `name` set to `v`; every
/// other global is kept.
pub open spec fn assigned(g0: Seq<(String, Value)>, g1: Seq<(String, Value)>, name: Seq<char>, v: Value) -> bool {
    exists|i: int| 0 <= i < g0.len() && (#[trigger] g0[i]).0@ == name
        && (forall|j: int| 0 <= j < i ==> (#[trigger] g0[j]).0@ != name)
        && g1.len() == g0.len() && g1[i].0@ == name && g1[i].1 == v
        && forall|j: int| 0 <= j < g0.len() && j != i ==> #[trigger] g1[j] == g0[j]
}

/// Some global called `name` holds the host function of index `k`.
pub open spec fn binds_native(globals: Seq<(String, Value)>, name: Seq<char>, k: usize) -> bool {
    exists|i: int| 0 <= i < globals.len() && (#[trigger] globals[i]).0@ == name
        && (globals[i].1 matches Value::Object(LoxObject::Native(n, j)) && j == k && n@ == name)
}

/// A global called `name` is defined.
pub open spec fn defined(globals: Seq<(String, Value)>, name: Seq<char>) -> bool {
    exists|i: int| 0 <= i < globals.len() && (#[trigger] globals[i]).0@ == name
}

/// `Add` on two strings joins them; on operands that are neither two
/// numbers nor led by a string it fails.
pub open spec fn add_effect(a: &Vm, b: &Vm, ok: bool) -> bool {
    let s = a.stack@;
    let len = s.len();
    len > a.floor() + 2 ==> {
        &&& (s[len - 2] matches Value::Object(LoxObject::String(x)) && s[len - 1] matches Value::Object(LoxObject::String(y)))
            ==> ok && b.stack@.drop_last() == s.drop_last().drop_last()
                && (b.stack@.last() matches Value::Object(LoxObject::String(t))
                    && t@ == s[len - 2]->Object_0->String_0@ + s[len - 1]->Object_0->String_0@)
        &&& !(s[len - 2] is Number && s[len - 1] is Number) && !(s[len - 2] matches Value::Object(LoxObject::String(_)))
            ==> !ok
    }
}

/// The printed form of a value; a number's is the host's, left open here.
pub open spec fn shows(v: Value, t: Seq<char>) -> bool {
    match v {
        Value::Nil => t == "nil"@,
        Value::Boolean(b) => t == if b { "true"@ } else { "false"@ },
        Value::Number(_) => true,
        Value::Object(o) => t == object_shows(o),
    }
}

/// The printed form of an object.
pub open spec fn object_shows(o: LoxObject) -> Seq<char> {
    match o {
        LoxObject::Identifier(s) => s@,
        LoxObject::String(s) => s@,
        LoxObject::Function(n, _) => "<fn "@ + n@ + ">"@,
        LoxObject::Closure(n, _) => "<fn "@ + n@ + ">"@,
        LoxObject::Native(n, _) => "<native fn "@ + n@ + ">"@,
    }
}

/// What one instruction hands out: `Print` adds the printed form of the
/// value it pops; `Divide` warns exactly when its divisor is zero.
pub open spec fn console_effect(a: &Vm, c0: &Console, c1: &Console) -> bool {
    let len = a.stack@.len();
    match a.fetched() {
        Ins::Print => c1.warnings == c0.warnings
            && (len > a.floor() + 1 ==> c1.output@.len() == c0.output@.len() + 1
                && c1.output@.drop_last() == c0.output@ && shows(a.stack@.last(), c1.output@.last()@))
            && (len <= a.floor() + 1 ==> c1.output == c0.output),
        Ins::Divide => c1.output == c0.output
            && (two_numbers(a) && is_zero(a.stack@.last()->Number_0)
                ==> c1.warnings@ == c0.warnings@.push(RuntimeError::ZeroDivision(a.top_span())))
            && (!(two_numbers(a) && is_zero(a.stack@.last()->Number_0)) ==> c1.warnings == c0.warnings),
        _ => *c1 == *c0,
    }
}

/// The two top values of the running frame are numbers.
pub open spec fn two_numbers(vm: &Vm) -> bool {
    let len = vm.stack@.len();
    len > vm.floor() + 2 && vm.stack@[len - 2] is Number && vm.stack@[len - 1] is Number
}

/// The value `argc` slots below the top lies in the running frame and is a
/// closure expecting `argc` arguments.
pub open spec fn calls_closure(vm: &Vm, argc: usize) -> bool {
    let start = vm.stack@.len() - argc - 1;
    &&& argc + 1 < vm.stack@.len() - vm.floor()
    &&& vm.stack@[start] matches Value::Object(LoxObject::Closure(_, idx))
    &&& vm.stack@[start]->Object_0->Closure_1 < vm.module.closures@.len()
    &&& vm.module.functions@[vm.module.closures@[vm.stack@[start]->Object_0->Closure_1 as int].function as int].arity == argc
}

/// The callee `argc` slots below the top is a known closure whose function
/// expects another number of arguments.
pub open spec fn wrong_arity(vm: &Vm, argc: usize) -> bool {
    let start = vm.stack@.len() - argc - 1;
    &&& argc + 1 < vm.stack@.len() - vm.floor()
    &&& vm.stack@[start] matches Value::Object(LoxObject::Closure(_, idx))
    &&& vm.stack@[start]->Object_0->Closure_1 < vm.module.closures@.len()
    &&& callee_arity(vm, argc) != argc
}

/// The number of parameters of the closure `argc` slots below the top.
pub open spec fn callee_arity(vm: &Vm, argc: usize) -> usize {
    let start = vm.stack@.len() - argc - 1;
    vm.module.functions@[vm.module.closures@[vm.stack@[start]->Object_0->Closure_1 as int].function as int].arity
}

/// The value `argc` slots below the top lies in the running frame and
/// cannot be called.
pub open spec fn not_callable(vm: &Vm, argc: usize) -> bool {
    let start = vm.stack@.len() - argc - 1;
    &&& argc + 1 < vm.stack@.len() - vm.floor()
    &&& !(vm.stack@[start] matches Value::Object(LoxObject::Closure(_, _)))
    &&& !(vm.stack@[start] matches Value::Object(LoxObject::Native(_, _)))
}

/// A `Return` from a called frame: the frame is gone, its window of the
/// stack is replaced by the result, and the upvalues on that window are
/// closed.
pub open spec fn returned(a: &Vm, b: &Vm) -> bool {
    let base = a.top().base;
    &&& b.frames@ == a.frames@.drop_last()
    &&& b.stack@ == a.stack@.subrange(0, base as int).push(a.stack@.last())
    &&& b.module.upvals@.len() == a.module.upvals@.len()
    &&& forall|i: int| 0 <= i < a.module.upvals@.len() ==> (#[trigger] b.module.upvals@[i]) == closed_at(
        a.module.upvals@[i], base, a.stack@.drop_last())
}

/// Every capture of a `Closure` instruction can be made: locals lie in the
/// running frame, captured variables in the running closure.
pub open spec fn closure_ready(vm: &Vm, f: usize, caps: Seq<(bool, usize)>) -> bool {
    &&& f < vm.module.functions@.len()
    &&& caps.len() == vm.module.functions@[f as int].upvalues
    &&& forall|k: int| 0 <= k < caps.len() ==> {
        &&& (#[trigger] caps[k]).0 ==> caps[k].1 < vm.stack@.len() - vm.floor()
        &&& !caps[k].0 ==> caps[k].1 < vm.top_upvalues().len()
    }
}

/// A closure over function `f` with `n` captured variables was registered
/// and pushed.
pub open spec fn made_closure(a: &Vm, b: &Vm, f: usize, n: nat) -> bool {
    &&& f < a.module.functions@.len()
    &&& b.module.closures@.len() == a.module.closures@.len() + 1
    &&& b.module.closures@.drop_last() == a.module.closures@
    &&& b.module.closures@.last().function == f
    &&& b.module.closures@.last().upvalues@.len() == n
    &&& b.stack@ == a.stack@.push(Value::Object(LoxObject::Closure(
        a.module.functions@[f as int].name, a.module.closures@.len() as usize)))
}

/// The callee `argc` slots below the top is a known host function that
/// expects another number of arguments.
pub open spec fn native_wrong_arity(vm: &Vm, argc: usize) -> bool {
    let start = vm.stack@.len() - argc - 1;
    &&& argc + 1 < vm.stack@.len() - vm.floor()
    &&& vm.stack@[start] matches Value::Object(LoxObject::Native(_, idx))
    &&& vm.stack@[start]->Object_0->Native_1 < vm.module.natives@.len()
    &&& native_arity(vm, argc) != argc
}

/// The number of arguments the host function `argc` slots below the top expects.
pub open spec fn native_arity(vm: &Vm, argc: usize) -> usize {
    let start = vm.stack@.len() - argc - 1;
    vm.module.natives@[vm.stack@[start]->Object_0->Native_1 as int].arity
}

/// The callee `argc` slots below the top is a host function expecting
/// `argc` arguments.
pub open spec fn calls_native(vm: &Vm, argc: usize) -> bool {
    let start = vm.stack@.len() - argc - 1;
    &&& argc + 1 < vm.stack@.len() - vm.floor()
    &&& vm.stack@[start] matches Value::Object(LoxObject::Native(_, idx))
    &&& vm.stack@[start]->Object_0->Native_1 < vm.module.natives@.len()
    &&& vm.module.natives@[vm.stack@[start]->Object_0->Native_1 as int].arity == argc
}

/// What one instruction does, for the instructions whose effect the
/// machine fixes by itself (the host is not asked).
pub open spec fn step_effect(a: &Vm, b: &Vm, r: Result<bool, RuntimeError>) -> bool {
    let len = a.stack@.len();
    let next = a.top().ip + 1;
    let ok = r == Ok::<bool, RuntimeError>(false);
    let same_frame = b.frames@.len() == a.frames@.len() && b.top().ip == next;
    match a.fetched() {
        Ins::Constant(v) => len < STACK_MAX ==> ok && same_frame && b.stack@ == a.stack@.push(v),
        Ins::True => len < STACK_MAX ==> ok && same_frame && b.stack@ == a.stack@.push(Value::Boolean(true)),
        Ins::False => len < STACK_MAX ==> ok && same_frame && b.stack@ == a.stack@.push(Value::Boolean(false)),
        Ins::Nil => len < STACK_MAX ==> ok && same_frame && b.stack@ == a.stack@.push(Value::Nil),
        Ins::Not => len > a.floor() + 1 ==> ok && same_frame
            && b.stack@ == a.stack@.drop_last().push(Value::Boolean(!spec_truth(a.stack@.last()))),
        Ins::Equal => len > a.floor() + 2 ==> ok && same_frame
            && b.stack@ == a.stack@.drop_last().drop_last().push(
                Value::Boolean(spec_equals(a.stack@[len - 2], a.stack@[len - 1]))),
        Ins::Pop => len > a.floor() + 1 ==> ok && same_frame && b.stack@ == a.stack@.drop_last(),
        Ins::Print => len > a.floor() + 1 ==> ok && same_frame && b.stack@ == a.stack@.drop_last(),
        Ins::Negate => len > a.floor() + 1 ==> match a.stack@.last() {
            Value::Number(n) => ok && same_frame && b.stack@ == a.stack@.drop_last().push(Value::Number(number_neg(n))),
            _ => r is Err && r->Err_0 is UnsupportedType,
        },
        Ins::Less => (len > a.floor() + 2 && !two_numbers(a) ==> r is Err && r->Err_0 is UnsupportedType)
            && (len > a.floor() + 2 && a.stack@[len - 2] is Number && a.stack@[len - 1] is Number ==> ok
            && same_frame && b.stack@ == a.stack@.drop_last().drop_last().push(
                Value::Boolean(number_lt(a.stack@[len - 2]->Number_0, a.stack@[len - 1]->Number_0)))),
        Ins::Greater => (len > a.floor() + 2 && !two_numbers(a) ==> r is Err && r->Err_0 is UnsupportedType)
            && (len > a.floor() + 2 && a.stack@[len - 2] is Number && a.stack@[len - 1] is Number ==> ok
            && same_frame && b.stack@ == a.stack@.drop_last().drop_last().push(
                Value::Boolean(number_lt(a.stack@[len - 1]->Number_0, a.stack@[len - 2]->Number_0)))),
        Ins::Add => same_frame && (r is Ok ==> ok) && add_effect(a, b, r is Ok),
        Ins::Subtract | Ins::Multiply | Ins::Divide => (len > a.floor() + 2 && !two_numbers(a)
                ==> r is Err && r->Err_0 is UnsupportedType)
            && (two_numbers(a) ==> ok && same_frame
                && b.stack@.drop_last() == a.stack@.drop_last().drop_last() && b.stack@.last() is Number),
        Ins::CloseUpval => len > a.floor() + 1 ==> ok && same_frame && b.stack@ == a.stack@.drop_last()
            && b.module.upvals@.len() == a.module.upvals@.len()
            && forall|i: int| 0 <= i < a.module.upvals@.len() ==> (#[trigger] b.module.upvals@[i]) == closed_at(
                a.module.upvals@[i], (len - 1) as usize, a.stack@),
        Ins::DefGlobal(name) => len > a.floor() + 1 ==> ok && same_frame && b.stack@ == a.stack@.drop_last()
            && exists|i: int| 0 <= i < b.globals@.len() && (#[trigger] b.globals@[i]).0@ == name@
                && b.globals@[i].1 == a.stack@.last(),
        Ins::GetGlobal(name) => same_frame && b.globals == a.globals
            && (!defined(a.globals@, name@) ==> r is Err && b.stack == a.stack
                && (r->Err_0 matches RuntimeError::UndefinedVariable { name: n, span } && n@ == name@ && span == a.top_span()))
            && (defined(a.globals@, name@) && len < STACK_MAX ==> ok && b.stack@.drop_last() == a.stack@
                && exists|i: int| 0 <= i < a.globals@.len() && (#[trigger] a.globals@[i]).0@ == name@
                    && b.stack@.last() == a.globals@[i].1),
        Ins::SetGlobal(name) => same_frame && b.stack == a.stack
            && (!defined(a.globals@, name@) ==> r is Err && b.globals == a.globals
                && (r->Err_0 matches RuntimeError::UndefinedVariable { name: n, span } && n@ == name@ && span == a.top_span()))
            && (defined(a.globals@, name@) && len > a.floor() + 1 ==> ok
                && assigned(a.globals@, b.globals@, name@, a.stack@.last())),
        Ins::GetUpval(k) => same_frame && b.module.closures == a.module.closures && b.module.upvals == a.module.upvals
            && (r is Ok ==> ok) && get_upval_effect(a, b, k, r is Ok),
        Ins::SetUpval(k) => same_frame && b.module.closures == a.module.closures
            && (r is Ok ==> ok) && set_upval_effect(a, b, k, r is Ok),
        Ins::GetLocal(slot) => slot < len - a.floor() && len < STACK_MAX ==> ok && same_frame
            && b.stack@ == a.stack@.push(a.stack@[a.floor() + slot]),
        Ins::Return => len > a.floor() + 1 ==> {
            &&& a.frames@.len() == 1 ==> r == Ok::<bool, RuntimeError>(true) && b.stack@ == a.stack@.subrange(0, 1)
            &&& a.frames@.len() > 1 ==> ok && returned(a, b)
        },
        Ins::Closure(f, caps) => same_frame
            && (r is Ok ==> ok && made_closure(a, b, f, caps@.len()))
            && (!(f < a.module.functions@.len() && caps@.len() == a.module.functions@[f as int].upvalues) ==> r is Err)
            && (closure_ready(a, f, caps@) && len < STACK_MAX ==> ok),
        Ins::PopN(n) => len > a.floor() + n ==> ok && same_frame && b.stack@ == a.stack@.subrange(0, len - n),
        Ins::SetLocal(slot) => slot < len - a.floor() && len > a.floor() + 1 ==> ok && same_frame
            && b.stack@ == a.stack@.update(a.floor() + slot, a.stack@.last()),
        Ins::Jump(d) => ok && b.frames@.len() == a.frames@.len() && b.top().ip == next + d && b.stack == a.stack,
        Ins::JumpIfFalse(d) => len > a.floor() + 1 ==> ok && b.frames@.len() == a.frames@.len()
            && b.stack == a.stack
            && b.top().ip == if spec_truth(a.stack@.last()) { next as int } else { next + d },
        Ins::Call(argc) => (wrong_arity(a, argc) ==> r is Err && (r->Err_0 matches RuntimeError::UnsupportedType { message, span, level }
                && message@ == "Expected "@ + decimal(callee_arity(a, argc) as nat) + " arguments, but got "@
                    + decimal(argc as nat) && span == a.top_span() && level == ErrorLevel::Error))
            && (r is Err ==> b.stack == a.stack && b.frames@.len() == a.frames@.len())
            && (calls_native(a, argc) && r is Ok ==> same_frame
                && b.stack@.drop_last() == a.stack@.subrange(0, len - argc - 1))
            && (not_callable(a, argc) ==> r is Err && r->Err_0 is UnsupportedType)
            && (native_wrong_arity(a, argc) ==> r is Err && (r->Err_0 matches RuntimeError::UnsupportedType { message, span, level }
                && message@ == "Expected "@ + decimal(native_arity(a, argc) as nat) + " arguments, but got "@
                    + decimal(argc as nat) && span == a.top_span() && level == ErrorLevel::Error))
            && (calls_closure(a, argc) ==> {
            &&& a.frames@.len() >= FRAMES_MAX ==> r == Err::<bool, RuntimeError>(RuntimeError::StackOverflow(a.top_span()))
            &&& a.frames@.len() < FRAMES_MAX ==> ok && b.frames@.len() == a.frames@.len() + 1
                && b.top() == (CallFrame {
                    closure: a.stack@[len - argc - 1]->Object_0->Closure_1,
                    ip: 0,
                    base: (len - argc - 1) as usize,
                })
        }),
        _ => true,
    }
}

/// An upvalue after closing everything from slot `threshold` up: an open
/// one at or above it takes the slot's value (nil past the top).
pub open spec fn closed_at(u: LoxUpvalue, threshold: usize, stack: Seq<Value>) -> LoxUpvalue {
    match u {
        LoxUpvalue::Open(s) => if s >= threshold {
            LoxUpvalue::Closed(if s < stack.len() { stack[s as int] } else { Value::Nil })
        } else {
            u
        },
        LoxUpvalue::Closed(_) => u,
    }
}

/// `b` is reached from `a` by `k` steps of a running machine, each
/// continuing (`Ok(false)`) with the effect its instruction states.
pub open spec fn steps(a: Vm, b: Vm, k: nat) -> bool
    decreases k,
{
    if k == 0 {
        a == b
    } else {
        exists|m: Vm| steps(a, m, (k - 1) as nat) && m.wf() && m.frames@.len() > 0
            && #[trigger] step_effect(&m, &b, Ok::<bool, RuntimeError>(false))
    }
}

/// A step keeps the code, and a running machine keeps at least one frame.
pub open spec fn step_frame(a: &Vm, b: &Vm) -> bool {
    &&& b.wf()
    &&& keeps_code(a, b)
    &&& b.frames@.len() >= 1
}

impl Vm {
    /// Calls the value `argc` slots below the top with the `argc` values
    /// above it: a closure gets a new frame, a host function runs at once.
    fn call_value<H: Host>(&mut self, argc: usize, host: &mut H) -> (r: Result<(), RuntimeError>)
        requires
            old(self).wf(),
            old(self).frames@.len() > 0,
        ensures
            final(self).last_span == old(self).last_span,
            step_frame(old(self), final(self)),
            r is Ok ==> final(self).frames@.len() >= old(self).frames@.len(),
            calls_closure(old(self), argc) ==> {
                let idx = old(self).stack@[old(self).stack@.len() - argc - 1]->Object_0->Closure_1;
                &&& old(self).frames@.len() >= FRAMES_MAX
                    ==> r == Err::<(), RuntimeError>(RuntimeError::StackOverflow(old(self).last_span))
                &&& old(self).frames@.len() < FRAMES_MAX ==> r is Ok
                    && final(self).frames@ == old(self).frames@.push(
                        CallFrame { closure: idx, ip: 0, base: (old(self).stack@.len() - argc - 1) as usize })
                    && final(self).stack == old(self).stack
            },
            wrong_arity(old(self), argc) ==> r is Err && (r->Err_0 matches RuntimeError::UnsupportedType { message, .. }
                && message@ == "Expected "@ + decimal(callee_arity(old(self), argc) as nat) + " arguments, but got "@
                    + decimal(argc as nat)),
            not_callable(old(self), argc) ==> r is Err && r->Err_0 is UnsupportedType,
            wrong_arity(old(self), argc) ==> (r->Err_0 matches RuntimeError::UnsupportedType { span, level, .. }
                && span == old(self).last_span && level == ErrorLevel::Error),
            r is Err ==> final(self).frames == old(self).frames && final(self).stack == old(self).stack,
            native_wrong_arity(old(self), argc) ==> r is Err && (r->Err_0 matches RuntimeError::UnsupportedType { message, span, level }
                && message@ == "Expected "@ + decimal(native_arity(old(self), argc) as nat) + " arguments, but got "@
                    + decimal(argc as nat) && span == old(self).last_span && level == ErrorLevel::Error),
            calls_native(old(self), argc) && r is Ok ==> final(self).frames == old(self).frames
                && final(self).stack@.drop_last() == old(self).stack@.subrange(0, old(self).stack@.len() - argc - 1),
    {
        let base = self.frame_base();
        let len = self.stack.len();
        if argc >= len - base - 1 {
            return Err(RuntimeError::EmptyStack(self.last_span));
        }
        let start = len - argc - 1;
        let callee = copy_value(&self.stack[start]);
        match callee {
            Value::Object(LoxObject::Closure(_, idx)) => {
                if idx >= self.module.closures.len() {
                    return Err(unsupported("Unknown closure", self.last_span));
                }
                let f = self.module.closures[idx].function;
                let arity = self.module.functions[f].arity;
                if argc != arity {
                    return Err(RuntimeError::UnsupportedType {
                        message: arity_message(arity, argc),
                        span: self.last_span,
                        level: ErrorLevel::Error,
                    });
                }
                if self.frames.len() >= FRAMES_MAX {
                    return Err(RuntimeError::StackOverflow(self.last_span));
                }
                let ghost before = self.frames@;
                self.frames.push(CallFrame { closure: idx, ip: 0, base: start });
                proof {
                    assert forall|i: int| 0 <= i < self.frames@.len() implies frame_ok(&self.module, #[trigger] self.frames@[i]) by {
                        if i < before.len() {
                            assert(frame_ok(&self.module, before[i]));
                        }
                    }
                    assert forall|i: int, j: int| 0 <= i < j < self.frames@.len()
                        implies (#[trigger] self.frames@[i]).base < (#[trigger] self.frames@[j]).base by {
                        if j < before.len() {
                            assert(before[i].base < before[j].base);
                        } else if i < before.len() - 1 {
                            assert(before[i].base < before[before.len() - 1].base);
                        }
                    }
                }
                Ok(())
            },
            Value::Object(LoxObject::Native(_, idx)) => {
                if idx >= self.module.natives.len() {
                    return Err(unsupported("Unknown host function", self.last_span));
                }
                let arity = self.module.natives[idx].arity;
                if argc != arity {
                    return Err(RuntimeError::UnsupportedType {
                        message: arity_message(arity, argc),
                        span: self.last_span,
                        level: ErrorLevel::Error,
                    });
                }
                let args = self.native_args(start + 1);
                let result = host.call_native(idx, &args)?;
                proof {
                    assert forall|i: int| 0 <= i < self.frames@.len() implies (#[trigger] self.frames@[i]).base < start by {
                        if i < self.frames@.len() - 1 {
                            assert(self.frames@[i].base < self.frames@[self.frames@.len() - 1].base);
                        }
                    }
                }
                self.truncate_to(start);
                self.push(result)
            },
            other => {
                let kind = match &other {
                    Value::Object(o) => o.kind_name(),
                    _ => other.kind_name(),
                };
                let message = crate::compiler::message3("Can only call functions and classes. Got `", kind, "`");
                Err(RuntimeError::UnsupportedType { message, span: self.last_span, level: ErrorLevel::Error })
            },
        }
    }

    /// The values from stack index `from` to the top: the arguments handed
    /// to a host function.
    pub fn native_args(&self, from: usize) -> (r: Vec<Value>)
        requires
            from <= self.stack@.len(),
        ensures
            r@ == self.stack@.subrange(from as int, self.stack@.len() as int),
    {
        let mut args: Vec<Value> = Vec::new();
        let mut k: usize = from;
        while k < self.stack.len()
            invariant
                from <= k <= self.stack@.len(),
                args@ == self.stack@.subrange(from as int, k as int),
            decreases self.stack@.len() - k,
        {
            args.push(copy_value(&self.stack[k]));
            k = k + 1;
            assert(args@ =~= self.stack@.subrange(from as int, k as int));
        }
        args
    }

    /// Creates a closure over function `f`, capturing what the `Closure`
    /// instruction at `ip` of the running code lists, and pushes it.
    fn make_closure(&mut self, f: usize, ip: usize) -> (r: Result<(), RuntimeError>)
        requires
            old(self).wf(),
            old(self).frames@.len() > 0,
            ip < old(self).top_code().len(),
            old(self).top_code()[ip as int] is Closure,
        ensures
            final(self).last_span == old(self).last_span,
            step_frame(old(self), final(self)),
            final(self).frames == old(self).frames,
            r is Ok ==> made_closure(old(self), final(self), f, old(self).top_code()[ip as int]->Closure_1@.len()),
            !(f < old(self).module.functions@.len()
                && old(self).top_code()[ip as int]->Closure_1@.len() == old(self).module.functions@[f as int].upvalues)
                && old(self).top_code()[ip as int] is Closure ==> r is Err,
            old(self).top_code()[ip as int] is Closure
                && closure_ready(old(self), f, old(self).top_code()[ip as int]->Closure_1@)
                && old(self).stack@.len() < STACK_MAX ==> r is Ok,
    {
        let frame = self.frames[self.frames.len() - 1];
        let cur = self.module.closures[frame.closure].function;
        let ncaps = match self.module.functions[cur].chunk.code_at(ip) {
            Ins::Closure(_, caps) => caps.len(),
            _ => 0,
        };
        if f >= self.module.functions.len() {
            return Err(unsupported("Unknown function", self.last_span));
        }
        if ncaps != self.module.functions[f].upvalues {
            return Err(unsupported("Malformed closure", self.last_span));
        }
        let mut ups: Vec<usize> = Vec::new();
        let mut k: usize = 0;
        while k < ncaps
            invariant
                self.wf(),
                self.last_span == old(self).last_span,
                keeps_code(old(self), self),
                self.frames == old(self).frames,
                self.stack == old(self).stack,
                self.module.closures == old(self).module.closures,
                frame == self.frames@.last(),
                self.module.functions@[cur as int].chunk.spec_code()[ip as int] == old(self).top_code()[ip as int],
                self.frames@.len() > 0,
                cur == self.module.closures@[frame.closure as int].function,
                cur < self.module.functions@.len(),
                ip < self.module.functions@[cur as int].chunk.spec_code().len(),
                f < self.module.functions@.len(),
                ncaps == self.module.functions@[f as int].upvalues,
                ups@.len() == k,
                k <= ncaps,
                forall|j: int| 0 <= j < k ==> (#[trigger] ups@[j]) < self.module.upvals@.len(),
            decreases ncaps - k,
        {
            let (is_local, index) = match self.module.functions[cur].chunk.code_at(ip) {
                Ins::Closure(_, caps) => if k < caps.len() { caps[k] } else { (false, 0) },
                _ => (false, 0),
            };
            let u = if is_local {
                if index >= self.stack.len() - frame.base {
                    return Err(RuntimeError::EmptyStack(self.last_span));
                }
                self.capture_upval(frame.base + index)
            } else {
                let cl = &self.module.closures[frame.closure];
                if index >= cl.upvalues.len() {
                    return Err(unsupported("Unknown captured variable", self.last_span));
                }
                cl.upvalues[index]
            };
            ups.push(u);
            k = k + 1;
        }
        let name = self.module.functions[f].name.clone();
        let idx = self.module.closures.len();
        let ghost before = self.module;
        self.module.closures.push(LoxClosure { function: f, upvalues: ups });
        proof {
            assert(self.module.closures@.drop_last() =~= before.closures@);
            assert forall|c: int| 0 <= c < self.module.closures@.len()
                implies closure_ok(&self.module, #[trigger] self.module.closures@[c]) by {
                if c < before.closures@.len() {
                    assert(closure_ok(&before, before.closures@[c]));
                }
            }
            assert forall|i: int| 0 <= i < self.frames@.len() implies frame_ok(&self.module, #[trigger] self.frames@[i]) by {
                assert(frame_ok(&before, self.frames@[i]));
            }
        }
        self.push(Value::Object(LoxObject::Closure(name, idx)))
    }

    /// Returns from the running frame: its result replaces the frame's
    /// window of the stack, and the variables it captured are closed. From
    /// the script only the reserved slot stays; then it reports `true`.
    fn do_return(&mut self) -> (r: Result<bool, RuntimeError>)
        requires
            old(self).wf(),
            old(self).frames@.len() > 0,
        ensures
            final(self).last_span == old(self).last_span,
            final(self).wf(),
            keeps_code(old(self), final(self)),
            r matches Ok(true) ==> final(self).frames@.len() == 0 && final(self).stack@.len() == 1,
            r matches Ok(false) ==> final(self).frames@.len() == old(self).frames@.len() - 1 && final(self).frames@.len() > 0,
            r is Err ==> final(self).frames@.len() >= 1,
            old(self).stack@.len() > old(self).floor() + 1 ==> r is Ok,
            old(self).frames@.len() == 1 && r is Ok ==> r == Ok::<bool, RuntimeError>(true),
            old(self).frames@.len() > 1 && r is Ok ==> r == Ok::<bool, RuntimeError>(false),
            old(self).stack@.len() > old(self).floor() + 1 && old(self).frames@.len() == 1
                ==> final(self).stack@ == old(self).stack@.subrange(0, 1),
            old(self).stack@.len() > old(self).floor() + 1 && old(self).frames@.len() > 1 ==> returned(old(self), final(self)),
    {
        let result = self.pop()?;
        let frame = self.frames.pop().unwrap();
        if self.frames.len() == 0 {
            self.truncate_to(1);
            assert(self.stack@ =~= old(self).stack@.subrange(0, 1));
            return Ok(true);
        }
        proof {
            assert forall|i: int| 0 <= i < self.frames@.len() implies (#[trigger] self.frames@[i]).base < frame.base by {
                assert(old(self).frames@[i].base < old(self).frames@[old(self).frames@.len() - 1].base);
            }
            assert(self.frames@[0].base < frame.base);
        }
        let ghost popped = self.stack@;
        self.close_upvals(frame.base);
        self.truncate_to(frame.base);
        proof {
            assert(popped =~= old(self).stack@.drop_last());
            assert(self.stack@ =~= old(self).stack@.subrange(0, frame.base as int));
        }
        match self.push(result) {
            Ok(()) => Ok(false),
            Err(e) => Err(e),
        }
    }
}


/// A data step: the frames and the code stay as they are.
pub open spec fn data_step(a: &Vm, b: &Vm) -> bool {
    &&& b.wf()
    &&& b.last_span == a.last_span
    &&& keeps_code(a, b)
    &&& b.frames == a.frames
}

impl Vm {
    /// Pops a number, or fails.
    fn pop_number(&mut self) -> (r: Result<u64, RuntimeError>)
        requires
            old(self).wf(),
        ensures
            final(self).last_span == old(self).last_span,
            data_step(old(self), final(self)),
            old(self).stack@.len() > old(self).floor() + 1 && old(self).stack@.last() is Number ==>
                r == Ok::<u64, RuntimeError>(old(self).stack@.last()->Number_0)
                && final(self).stack@ == old(self).stack@.drop_last(),
            r is Ok ==> old(self).stack@.len() > old(self).floor() + 1 && old(self).stack@.last() is Number
                && final(self).stack@ == old(self).stack@.drop_last(),
            old(self).stack@.len() > old(self).floor() + 1 && !(old(self).stack@.last() is Number)
                ==> r is Err && r->Err_0 is UnsupportedType,
    {
        match self.pop()? {
            Value::Number(n) => Ok(n),
            _ => Err(unsupported("Operands must be numbers", self.last_span)),
        }
    }

    /// `Subtract`, `Multiply` or `Divide`; the host computes. Dividing by
    /// zero is reported as a warning and goes on.
    fn exec_arith<H: Host>(&mut self, op: ArithOp, host: &mut H, console: &mut Console) -> (r: Result<(), RuntimeError>)
        requires
            old(self).wf(),
        ensures
            final(self).last_span == old(self).last_span,
            data_step(old(self), final(self)),
            final(console).output == old(console).output,
            two_numbers(old(self)) && op == ArithOp::Divide && is_zero(old(self).stack@.last()->Number_0)
                ==> final(console).warnings@ == old(console).warnings@.push(RuntimeError::ZeroDivision(old(self).last_span)),
            !(two_numbers(old(self)) && op == ArithOp::Divide && is_zero(old(self).stack@.last()->Number_0))
                ==> final(console).warnings == old(console).warnings,
            two_numbers(old(self)) ==> r is Ok
                && final(self).stack@.drop_last() == old(self).stack@.drop_last().drop_last()
                && final(self).stack@.last() is Number,
            old(self).stack@.len() > old(self).floor() + 2 && !two_numbers(old(self))
                ==> r is Err && r->Err_0 is UnsupportedType,
    {
        let b = self.pop_number()?;
        let a = self.pop_number()?;
        if op == ArithOp::Divide && num_is_zero(b) {
            console.warnings.push(RuntimeError::ZeroDivision(self.last_span));
        }
        let v = host.arith(op, a, b);
        self.push(Value::Number(v))
    }

    /// `Add`: numbers are added by the host; a string on the left is joined
    /// with the printed form of the right operand.
    fn exec_add<H: Host>(&mut self, host: &mut H) -> (r: Result<(), RuntimeError>)
        requires
            old(self).wf(),
        ensures
            final(self).last_span == old(self).last_span,
            data_step(old(self), final(self)),
            add_effect(old(self), final(self), r is Ok),
    {
        let b = self.pop()?;
        let a = self.pop()?;
        match (a, b) {
            (Value::Number(x), Value::Number(y)) => {
                let v = host.arith(ArithOp::Add, x, y);
                self.push(Value::Number(v))
            },
            (Value::Object(LoxObject::String(s)), other) => {
                let tail = value_text(&other, host);
                let joined = s.concat(tail.as_str());
                let ghost mid = self.stack@;
                let r = self.push(Value::Object(LoxObject::String(joined)));
                proof {
                    if r is Ok {
                        assert(self.stack@.drop_last() =~= mid);
                    }
                }
                r
            },
            _ => Err(unsupported("Operands must be two numbers or start with a string", self.last_span)),
        }
    }

    /// `Greater` (`less` false) or `Less` (`less` true) on two numbers.
    fn exec_compare(&mut self, less: bool) -> (r: Result<(), RuntimeError>)
        requires
            old(self).wf(),
        ensures
            final(self).last_span == old(self).last_span,
            data_step(old(self), final(self)),
            ({
                let s = old(self).stack@;
                let len = s.len();
                len > old(self).floor() + 2 && s[len - 2] is Number && s[len - 1] is Number ==> r is Ok
                    && final(self).stack@ == s.drop_last().drop_last().push(Value::Boolean(
                        if less { number_lt(s[len - 2]->Number_0, s[len - 1]->Number_0) }
                        else { number_lt(s[len - 1]->Number_0, s[len - 2]->Number_0) }))
            }),
            old(self).stack@.len() > old(self).floor() + 2 && !two_numbers(old(self))
                ==> r is Err && r->Err_0 is UnsupportedType,
    {
        let b = self.pop_number()?;
        let a = self.pop_number()?;
        let v = if less { num_lt(a, b) } else { num_lt(b, a) };
        self.push(Value::Boolean(v))
    }

    /// The stack index of local `slot` of the running frame, if inside the stack.
    fn local_index(&self, slot: usize) -> (r: Result<usize, RuntimeError>)
        requires
            self.wf(),
        ensures
            r matches Ok(i) ==> i < self.stack@.len(),
            r is Ok <==> slot < self.stack@.len() - self.floor(),
            r is Ok ==> r->Ok_0 == self.floor() + slot,
    {
        let base = self.frame_base();
        if slot >= self.stack.len() - base {
            return Err(RuntimeError::EmptyStack(self.last_span));
        }
        Ok(base + slot)
    }

    /// Writes `v` into stack index `i`.
    fn set_slot(&mut self, i: usize, v: Value)
        requires
            old(self).wf(),
            i < old(self).stack@.len(),
        ensures
            final(self).last_span == old(self).last_span,
            data_step(old(self), final(self)),
            final(self).stack@ == old(self).stack@.update(i as int, v),
            final(self).module == old(self).module,
    {
        self.stack.set(i, v);
    }

    /// The upvalue index behind captured variable `slot` of the running closure.
    fn upvalue_index(&self, slot: usize) -> (r: Result<usize, RuntimeError>)
        requires
            self.wf(),
            self.frames@.len() > 0,
        ensures
            r matches Ok(u) ==> u < self.module.upvals@.len(),
            r is Ok <==> slot < self.top_upvalues().len(),
            r is Ok ==> r->Ok_0 == self.top_upvalues()[slot as int],
    {
        let frame = self.frames[self.frames.len() - 1];
        let cl = &self.module.closures[frame.closure];
        if slot >= cl.upvalues.len() {
            return Err(unsupported("Unknown captured variable", self.last_span));
        }
        Ok(cl.upvalues[slot])
    }

    /// Pushes the value of captured variable `slot`.
    fn get_upval(&mut self, slot: usize) -> (r: Result<(), RuntimeError>)
        requires
            old(self).wf(),
            old(self).frames@.len() > 0,
        ensures
            final(self).last_span == old(self).last_span,
            data_step(old(self), final(self)),
            final(self).module == old(self).module,
            get_upval_effect(old(self), final(self), slot, r is Ok),
    {
        let u = self.upvalue_index(slot)?;
        let v = match &self.module.upvals[u] {
            LoxUpvalue::Open(pos) => {
                if *pos >= self.stack.len() {
                    return Err(RuntimeError::EmptyStack(self.last_span));
                }
                copy_value(&self.stack[*pos])
            },
            LoxUpvalue::Closed(v) => copy_value(v),
        };
        self.push(v)
    }

    /// Assigns the top value to captured variable `slot`: on the stack while
    /// it is open, in the upvalue once closed.
    fn set_upval(&mut self, slot: usize) -> (r: Result<(), RuntimeError>)
        requires
            old(self).wf(),
            old(self).frames@.len() > 0,
        ensures
            final(self).last_span == old(self).last_span,
            data_step(old(self), final(self)),
            final(self).module.closures == old(self).module.closures,
            set_upval_effect(old(self), final(self), slot, r is Ok),
    {
        let u = self.upvalue_index(slot)?;
        let v = self.peek(0)?;
        let open = match &self.module.upvals[u] {
            LoxUpvalue::Open(pos) => Some(*pos),
            LoxUpvalue::Closed(_) => None,
        };
        match open {
            Some(pos) => {
                if pos >= self.stack.len() {
                    return Err(RuntimeError::EmptyStack(self.last_span));
                }
                self.set_slot(pos, v);
            },
            None => {
                let ghost before = self.module;
                self.module.upvals.set(u, LoxUpvalue::Closed(v));
                proof {
                    assert forall|c: int| 0 <= c < self.module.closures@.len()
                        implies closure_ok(&self.module, #[trigger] self.module.closures@[c]) by {
                        assert(closure_ok(&before, before.closures@[c]));
                    }
                    assert forall|i: int| 0 <= i < self.frames@.len() implies frame_ok(&self.module, #[trigger] self.frames@[i]) by {
                        assert(frame_ok(&before, self.frames@[i]));
                    }
                }
            },
        }
        Ok(())
    }

    /// `GetGlobal`: pushes the global's value; an undefined one is an error.
    fn get_global(&mut self, name: String) -> (r: Result<(), RuntimeError>)
        requires
            old(self).wf(),
        ensures
            final(self).last_span == old(self).last_span,
            data_step(old(self), final(self)),
            final(self).globals == old(self).globals,
            !defined(old(self).globals@, name@) ==> r is Err && final(self).stack == old(self).stack
                && (r->Err_0 matches RuntimeError::UndefinedVariable { name: n, span } && n@ == name@ && span == old(self).last_span),
            defined(old(self).globals@, name@) && old(self).stack@.len() < STACK_MAX ==> r is Ok
                && final(self).stack@.drop_last() == old(self).stack@
                && exists|i: int| 0 <= i < old(self).globals@.len() && (#[trigger] old(self).globals@[i]).0@ == name@
                    && final(self).stack@.last() == old(self).globals@[i].1,
    {
        match self.find_global(&name) {
            Some(i) => {
                let v = copy_value(&self.globals[i].1);
                self.push(v)
            },
            None => Err(RuntimeError::UndefinedVariable { name, span: self.last_span }),
        }
    }

    /// `SetGlobal`: assigns the top value; assignment does not create globals.
    fn set_global(&mut self, name: String) -> (r: Result<(), RuntimeError>)
        requires
            old(self).wf(),
        ensures
            final(self).last_span == old(self).last_span,
            data_step(old(self), final(self)),
            final(self).stack == old(self).stack,
            !defined(old(self).globals@, name@) ==> r is Err && final(self).globals == old(self).globals
                && (r->Err_0 matches RuntimeError::UndefinedVariable { name: n, span } && n@ == name@ && span == old(self).last_span),
            defined(old(self).globals@, name@) && old(self).stack@.len() > old(self).floor() + 1 ==> r is Ok
                && assigned(old(self).globals@, final(self).globals@, name@, old(self).stack@.last()),
    {
        match self.find_global(&name) {
            Some(i) => {
                let v = self.peek(0)?;
                let ghost n = name;
                let ghost v0 = v;
                self.globals.set(i, (name, v));
                assert(self.globals@[i as int].0@ == n@);
                assert(old(self).globals@[i as int].0@ == n@);
                assert(self.globals@[i as int].1 == v0);
                Ok(())
            },
            None => Err(RuntimeError::UndefinedVariable { name, span: self.last_span }),
        }
    }
}

impl Vm {
    /// Executes one instruction of the running frame. Reports `true` once
    /// the script has returned (or when nothing is loaded); then only the
    /// reserved slot is left on the stack.
    pub fn step<H: Host>(&mut self, host: &mut H, console: &mut Console) -> (r: Result<bool, RuntimeError>)
        requires
            old(self).wf(),
        ensures
            final(self).wf(),
            keeps_code(old(self), final(self)),
            r matches Ok(true) ==> final(self).frames@.len() == 0 && final(self).stack@.len() == 1,
            r matches Ok(false) ==> final(self).frames@.len() > 0,
            old(self).frames@.len() == 0 ==> r == Ok::<bool, RuntimeError>(true)
                && final(self).stack@ == old(self).stack@.subrange(0, 1),
            old(self).frames@.len() > 0 ==> step_effect(old(self), final(self), r),
            old(self).frames@.len() > 0 ==> console_effect(old(self), old(console), final(console)),
            old(self).frames@.len() == 0 ==> *final(console) == *old(console),
    {
        if self.frames.len() == 0 {
            self.truncate_to(1);
            return Ok(true);
        }
        let (ins, span, ip) = self.fetch();
        self.last_span = span;
        let is_return = match &ins {
            Ins::Return => true,
            _ => false,
        };
        if is_return {
            return self.do_return();
        }
        let len = self.top_len();
        proof {
            let code = self.top_code();
            let f = self.module.closures@[self.top().closure as int].function;
            assert(closure_ok(&self.module, self.module.closures@[self.top().closure as int]));
            assert(function_ok(self.module.functions@[f as int]));
            assert(code[code.len() - 1] == Ins::Return);
            assert(code[ip as int] != Ins::Return);
            assert(ip + 1 < len);
        }
        self.set_ip(ip + 1);
        match ins {
            Ins::Constant(v) => self.push(v)?,
            Ins::True => self.push(Value::Boolean(true))?,
            Ins::False => self.push(Value::Boolean(false))?,
            Ins::Nil => self.push(Value::Nil)?,
            Ins::Negate => {
                match self.pop()? {
                    Value::Number(n) => self.push(Value::Number(num_neg(n)))?,
                    other => {
                        let message = crate::compiler::message3("Bad type for unary `-` operator: `", other.kind_name(), "`");
                        return Err(RuntimeError::UnsupportedType { message, span, level: ErrorLevel::Error });
                    },
                }
            },
            Ins::Not => {
                let v = self.pop()?;
                self.push(Value::Boolean(!truth(&v)))?;
            },
            Ins::Add => self.exec_add(host)?,
            Ins::Subtract => self.exec_arith(ArithOp::Subtract, host, console)?,
            Ins::Multiply => self.exec_arith(ArithOp::Multiply, host, console)?,
            Ins::Divide => self.exec_arith(ArithOp::Divide, host, console)?,
            Ins::Equal => {
                let b = self.pop()?;
                let a = self.pop()?;
                self.push(Value::Boolean(equals(&a, &b)))?;
            },
            Ins::Greater => self.exec_compare(false)?,
            Ins::Less => self.exec_compare(true)?,
            Ins::Print => {
                let v = self.pop()?;
                let text = value_text(&v, host);
                let ghost before = console.output@;
                console.output.push(text);
                assert(console.output@.drop_last() =~= before);
            },
            Ins::Pop => {
                self.pop()?;
            },
            Ins::PopN(n) => {
                let mut k: usize = 0;
                let ghost s0 = self.stack@;
                let ghost f0 = self.frames;
                while k < n
                    invariant
                        self.wf(),
                        keeps_code(old(self), self),
                        self.frames@.len() > 0,
                        old(self).frames@.len() > 0,
                        old(self).fetched() == Ins::PopN(n),
                        self.frames == f0,
                        s0 == old(self).stack@,
                        self.floor() == old(self).floor(),
                        k <= n,
                        k <= s0.len(),
                        self.stack@ == s0.subrange(0, s0.len() - k),
                    decreases n - k,
                {
                    self.pop()?;
                    k = k + 1;
                    assert(self.stack@ =~= s0.subrange(0, s0.len() - k));
                }
            },
            Ins::CloseUpval => {
                let top = self.stack.len() - 1;
                self.close_upvals(top);
                self.pop()?;
            },
            Ins::DefGlobal(name) => {
                let v = self.peek(0)?;
                self.define_global(name, v);
                self.pop()?;
            },
            Ins::GetGlobal(name) => self.get_global(name)?,
            Ins::SetGlobal(name) => self.set_global(name)?,
            Ins::GetLocal(slot) => {
                let i = self.local_index(slot)?;
                let v = copy_value(&self.stack[i]);
                self.push(v)?;
            },
            Ins::SetLocal(slot) => {
                let i = self.local_index(slot)?;
                let v = self.peek(0)?;
                self.set_slot(i, v);
            },
            Ins::GetUpval(slot) => self.get_upval(slot)?,
            Ins::SetUpval(slot) => self.set_upval(slot)?,
            Ins::Jump(d) => {
                proof {
                    let code = self.top_code();
                    let f = self.module.closures@[self.top().closure as int].function;
                    assert(closure_ok(&self.module, self.module.closures@[self.top().closure as int]));
                    assert(function_ok(self.module.functions@[f as int]));
                    assert(jump_target(code[ip as int], ip as int) == Some(ip + 1 + d));
                    assert(0 <= ip + 1 + d < code.len());
                }
                let target = (ip as i128 + 1 + d as i128) as usize;
                self.set_ip(target);
            },
            Ins::JumpIfFalse(d) => {
                let v = self.peek(0)?;
                if !truth(&v) {
                    proof {
                        let code = self.top_code();
                        let f = self.module.closures@[self.top().closure as int].function;
                        assert(closure_ok(&self.module, self.module.closures@[self.top().closure as int]));
                        assert(function_ok(self.module.functions@[f as int]));
                        assert(jump_target(code[ip as int], ip as int) == Some(ip + 1 + d));
                        assert(0 <= ip + 1 + d < code.len());
                    }
                    let target = (ip as i128 + 1 + d as i128) as usize;
                    self.set_ip(target);
                }
            },
            Ins::Call(argc) => self.call_value(argc, host)?,
            Ins::Closure(f, _) => self.make_closure(f, ip)?,
            Ins::Return => {},
        }
        Ok(false)
    }
}


/// Whether any diagnostic is an error (warnings do not count).
pub fn has_error(diagnostics: &Vec<ParseError>) -> (r: bool)
    ensures
        r == exists|i: int| 0 <= i < diagnostics@.len() && (#[trigger] diagnostics@[i]).spec_level() == ErrorLevel::Error,
{
    let mut i: usize = 0;
    while i < diagnostics.len()
        invariant
            i <= diagnostics@.len(),
            forall|j: int| 0 <= j < i ==> (#[trigger] diagnostics@[j]).spec_level() != ErrorLevel::Error,
        decreases diagnostics@.len() - i,
    {
        if diagnostics[i].get_level() == ErrorLevel::Error {
            return true;
        }
        i = i + 1;
    }
    false
}

/// Registers the host functions the language provides: `clock()`, the host
/// function of index 0.
pub fn attach(vm: &mut Vm)
    requires
        old(vm).wf(),
    ensures
        final(vm).wf(),
        final(vm).frames == old(vm).frames,
        final(vm).stack == old(vm).stack,
        exists|k: usize| k < final(vm).module.natives@.len() && final(vm).module.natives@[k as int].arity == 0
            && #[trigger] binds_native(final(vm).globals@, "clock"@, k),
{
    let name = String::from_str("clock");
    let k = vm.define_native(name, 0);
    assert(binds_native(vm.globals@, "clock"@, k));
}

impl Vm {
    /// Compiles `src` and, if no diagnostic is an error, starts the script:
    /// a closure over it runs in a frame whose callee slot is slot 0.
    /// Returns the diagnostics.
    pub fn load<H: Host>(&mut self, src: &str, host: &H) -> (r: Vec<ParseError>)
        requires
            old(self).wf(),
            old(self).frames@.len() == 0,
            4 * src@.len() <= usize::MAX,
        ensures
            final(self).last_span == old(self).last_span,
            final(self).wf(),
            has_error_spec(r) ==> final(self).frames@.len() == 0,
            !has_error_spec(r) ==> final(self).frames@.len() == 1 && final(self).top().ip == 0
                && final(self).top().base == 0
                && final(self).module.closures@[final(self).top().closure as int].function
                    == final(self).module.functions@.len() - 1,
            final(self).stack@ == old(self).stack@.subrange(0, 1),
            exists|toks: Seq<Token>, b: Seq<(int, int)>| #[trigger] tokenizes(src@, toks, b)
                && forall|k: nat| #[trigger] literal_prints(toks, 0, k) ==> r@.len() == 0
                    && final(self).frames@.len() == 1 && final(self).top_code() == literal_print_code(toks, 0, k)
                        + seq![Ins::Nil, Ins::Return],
    {
        self.truncate_to(1);
        let ghost before = self.module;
        let diagnostics = compile(src, &mut self.module, host);
        let ghost fns_after = self.module.functions@;
        proof {
            assert forall|c: int| 0 <= c < self.module.closures@.len()
                implies closure_ok(&self.module, #[trigger] self.module.closures@[c]) by {
                assert(closure_ok(&before, before.closures@[c]));
                assert(self.module.functions@[self.module.closures@[c].function as int]
                    == self.module.functions@.subrange(0, before.functions@.len() as int)[self.module.closures@[c].function as int]);
            }
            assert forall|i: int| 0 <= i < self.module.functions@.len() implies function_ok(#[trigger] self.module.functions@[i]) by {
                if i < before.functions@.len() {
                    assert(self.module.functions@[i] == self.module.functions@.subrange(0, before.functions@.len() as int)[i]);
                }
            }
        }
        if has_error(&diagnostics) {
            return diagnostics;
        }
        let script = self.module.functions.len() - 1;
        let idx = self.module.closures.len();
        let ghost mid = self.module;
        self.module.closures.push(LoxClosure { function: script, upvalues: Vec::new() });
        proof {
            assert forall|c: int| 0 <= c < self.module.closures@.len()
                implies closure_ok(&self.module, #[trigger] self.module.closures@[c]) by {
                if c < mid.closures@.len() {
                    assert(closure_ok(&mid, mid.closures@[c]));
                }
            }
        }
        self.frames.push(CallFrame { closure: idx, ip: 0, base: 0 });
        proof {
            assert(self.module.functions@ == fns_after);
        }
        diagnostics
    }

    /// Runs at most `budget` steps.
    pub fn run<H: Host>(&mut self, host: &mut H, console: &mut Console, budget: usize) -> (r: RunOutcome)
        requires
            old(self).wf(),
        ensures
            final(self).wf(),
            keeps_code(old(self), final(self)),
            r is Finished ==> final(self).frames@.len() == 0 && final(self).stack@.len() == 1,
            budget > 0 && old(self).frames@.len() == 0 ==> r is Finished
                && final(self).stack@ == old(self).stack@.subrange(0, 1),
            r matches RunOutcome::Failed(e) ==> exists|s: Vm, j: nat| j < budget && steps(*old(self), s, j)
                && s.wf() && s.frames@.len() > 0 && step_effect(&s, final(self), Err::<bool, RuntimeError>(e)),
            r is Finished && old(self).frames@.len() > 0 ==> exists|s: Vm, j: nat| j < budget
                && steps(*old(self), s, j) && s.wf() && s.frames@.len() > 0
                && step_effect(&s, final(self), Ok::<bool, RuntimeError>(true)),
            r is Paused ==> steps(*old(self), *final(self), budget as nat),
            r is Paused ==> budget == 0 || final(self).frames@.len() > 0,
    {
        let mut k: usize = 0;
        while k < budget
            invariant
                self.wf(),
                keeps_code(old(self), self),
                k > 0 ==> self.frames@.len() > 0 && old(self).frames@.len() > 0,
                k == 0 ==> *self == *old(self),
                steps(*old(self), *self, k as nat),
                k <= budget,
            decreases budget - k,
        {
            let ghost before = *self;
            match self.step(host, console) {
                Ok(true) => {
                    proof {
                        if k == 0 && old(self).frames@.len() == 0 {
                            assert(self.stack@ =~= old(self).stack@.subrange(0, 1));
                        }
                        if old(self).frames@.len() > 0 {
                            assert(before.frames@.len() > 0);
                            assert(steps(*old(self), before, k as nat));
                        }
                    }
                    return RunOutcome::Finished;
                },
                Ok(false) => {
                    proof {
                        assert(before.frames@.len() > 0);
                        assert(steps(*old(self), before, k as nat) && before.wf() && before.frames@.len() > 0
                            && step_effect(&before, self, Ok::<bool, RuntimeError>(false)));
                        assert(steps(*old(self), *self, (k + 1) as nat));
                    }
                },
                Err(e) => {
                    assert(before.frames@.len() > 0);
                    assert(step_effect(&before, self, Err::<bool, RuntimeError>(e)));
                    assert(steps(*old(self), before, k as nat));
                    return RunOutcome::Failed(e);
                },
            }
            k = k + 1;
        }
        RunOutcome::Paused
    }

    /// The call stack from the innermost frame out: each function's name and
    /// the span of the instruction it was running.
    pub fn trace(&self) -> (r: Vec<(String, Span)>)
        requires
            self.wf(),
        ensures
            r@.len() == self.frames@.len(),
            forall|i: int| 0 <= i < r@.len() ==> {
                let f = self.frames@[self.frames@.len() - 1 - i];
                let func = self.module.functions@[self.module.closures@[f.closure as int].function as int];
                &&& (#[trigger] r@[i]).0 == func.name
                &&& r@[i].1 == func.chunk.spec_spans()[if f.ip > 0 { f.ip - 1 } else { 0 }]
            },
    {
        let mut out: Vec<(String, Span)> = Vec::new();
        let mut i: usize = self.frames.len();
        while i > 0
            invariant
                i <= self.frames@.len(),
                out@.len() == self.frames@.len() - i,
                self.wf(),
                forall|j: int| 0 <= j < out@.len() ==> {
                    let f = self.frames@[self.frames@.len() - 1 - j];
                    let func = self.module.functions@[self.module.closures@[f.closure as int].function as int];
                    &&& (#[trigger] out@[j]).0 == func.name
                    &&& out@[j].1 == func.chunk.spec_spans()[if f.ip > 0 { f.ip - 1 } else { 0 }]
                },
            decreases i,
        {
            let frame = self.frames[i - 1];
            let f = self.module.closures[frame.closure].function;
            let chunk = &self.module.functions[f].chunk;
            let at = if frame.ip > 0 { frame.ip - 1 } else { 0 };
            out.push((self.module.functions[f].name.clone(), chunk.span_at(at)));
            i = i - 1;
        }
        out
    }
}

/// Whether a function may run: spans parallel to code, jumps inside the
/// code, and a final `Return`.
pub fn check_function(f: &LoxFunction) -> (r: bool)
    ensures
        r == function_ok(*f),
{
    let chunk = &f.chunk;
    if chunk.code.len() != chunk.spans.len() || chunk.code.len() == 0 {
        return false;
    }
    let n = chunk.code.len();
    match &chunk.code[n - 1] {
        Ins::Return => {},
        _ => {
            return false;
        },
    }
    let mut i: usize = 0;
    while i < n
        invariant
            *chunk == f.chunk,
            chunk.wf(),
            n == chunk.spec_code().len(),
            n > 0,
            chunk.spec_code()[n - 1] == Ins::Return,
            i <= n,
            forall|j: int| 0 <= j < i ==> match #[trigger] jump_target(chunk.spec_code()[j], j) {
                Some(t) => 0 <= t < n,
                None => true,
            },
        decreases n - i,
    {
        let d = match &chunk.code[i] {
            Ins::Jump(d) => Some(*d),
            Ins::JumpIfFalse(d) => Some(*d),
            _ => None,
        };
        if let Some(d) = d {
            let t = i as i128 + 1 + d as i128;
            if t < 0 || t >= n as i128 {
                assert(jump_target(chunk.spec_code()[i as int], i as int) == Some(t as int));
                assert(!jumps_in_bounds(chunk.spec_code()));
                return false;
            }
        }
        i = i + 1;
    }
    true
}

impl Vm {
    /// Registers `f` and starts it as the script, if it may run.
    pub fn start_function(&mut self, f: LoxFunction) -> (r: bool)
        requires
            old(self).wf(),
            old(self).frames@.len() == 0,
        ensures
            final(self).last_span == old(self).last_span,
            final(self).wf(),
            r == (function_ok(f) && f.upvalues == 0),
            r ==> final(self).frames@.len() == 1 && final(self).top().ip == 0 && final(self).top().base == 0,
            !r ==> final(self).frames@.len() == 0,
    {
        if !check_function(&f) || f.upvalues != 0 {
            return false;
        }
        let ghost before = self.module;
        let fi = self.module.push_function(f);
        let idx = self.module.closures.len();
        self.module.closures.push(LoxClosure { function: fi, upvalues: Vec::new() });
        proof {
            assert forall|c: int| 0 <= c < self.module.closures@.len()
                implies closure_ok(&self.module, #[trigger] self.module.closures@[c]) by {
                if c < before.closures@.len() {
                    assert(closure_ok(&before, before.closures@[c]));
                }
            }
        }
        self.frames.push(CallFrame { closure: idx, ip: 0, base: 0 });
        true
    }
}

pub open spec fn has_error_spec(d: Vec<ParseError>) -> bool {
    exists|i: int| 0 <= i < d@.len() && (#[trigger] d@[i]).spec_level() == ErrorLevel::Error
}

/// A captured variable is one shared cell: once its scope has ended (the
/// upvalue is closed), a value written through one closure's slot is what a
/// later read through any closure's slot on the same upvalue gives back,
/// across separate invocations.
pub proof fn lemma_shared_variable(a: &Vm, b: &Vm, c: &Vm, r1: Result<bool, RuntimeError>,
    r2: Result<bool, RuntimeError>, k1: usize, k2: usize)
    requires
        a.frames@.len() > 0,
        b.frames@.len() > 0,
        a.fetched() == Ins::SetUpval(k1),
        step_effect(a, b, r1),
        k1 < a.top_upvalues().len(),
        a.stack@.len() > a.floor() + 1,
        a.module.upvals@[a.top_upvalues()[k1 as int] as int] is Closed,
        b.fetched() == Ins::GetUpval(k2),
        step_effect(b, c, r2),
        k2 < b.top_upvalues().len(),
        b.stack@.len() < STACK_MAX,
        b.top_upvalues()[k2 as int] == a.top_upvalues()[k1 as int],
        a.top_upvalues()[k1 as int] < a.module.upvals@.len(),
    ensures
        r1 is Ok,
        r2 is Ok,
        c.stack@.last() == a.stack@.last(),
{
}

/// In a well-formed machine every frame's next instruction lies inside the
/// code of the closure it runs; `step` keeps the machine well formed.
pub proof fn lemma_frames_in_code(vm: &Vm)
    requires
        vm.wf(),
    ensures
        forall|i: int| 0 <= i < vm.frames@.len() ==> {
            let f = #[trigger] vm.frames@[i];
            let c = vm.module.closures@[f.closure as int];
            &&& f.closure < vm.module.closures@.len()
            &&& c.function < vm.module.functions@.len()
            &&& f.ip < vm.module.functions@[c.function as int].chunk.spec_code().len()
        },
{
    assert forall|i: int| 0 <= i < vm.frames@.len() implies {
        let f = #[trigger] vm.frames@[i];
        let c = vm.module.closures@[f.closure as int];
        &&& f.closure < vm.module.closures@.len()
        &&& c.function < vm.module.functions@.len()
        &&& f.ip < vm.module.functions@[c.function as int].chunk.spec_code().len()
    } by {
        assert(frame_ok(&vm.module, vm.frames@[i]));
        assert(closure_ok(&vm.module, vm.module.closures@[vm.frames@[i].closure as int]));
    }
}

/// Every closure holds exactly as many captured variables as its function
/// declares.
pub proof fn lemma_closure_upvalue_counts(vm: &Vm)
    requires
        vm.wf(),
    ensures
        forall|i: int| 0 <= i < vm.module.closures@.len() ==>
            (#[trigger] vm.module.closures@[i]).upvalues@.len()
                == vm.module.functions@[vm.module.closures@[i].function as int].upvalues,
{
    assert forall|i: int| 0 <= i < vm.module.closures@.len() implies
        (#[trigger] vm.module.closures@[i]).upvalues@.len()
            == vm.module.functions@[vm.module.closures@[i].function as int].upvalues by {
        assert(closure_ok(&vm.module, vm.module.closures@[i]));
    }
}

/// At any instant, at most one open upvalue refers to a given stack slot.
pub proof fn lemma_open_upvalues_unique(vm: &Vm, i: int, j: int)
    requires
        vm.wf(),
        0 <= i < vm.module.upvals@.len(),
        0 <= j < vm.module.upvals@.len(),
        vm.module.upvals@[i] is Open,
        vm.module.upvals@[j] == vm.module.upvals@[i],
    ensures
        i == j,
{
}

} // verus!
