use vstd::prelude::*;
use vstd::string::StringExecFns;
use crate::chunk::{jump_target, jumps_in_bounds, Chunk, Ins, JUMP_MAX};
use crate::error::{ErrorLevel, ParseError};
use crate::module::LoxFunction;
use crate::span::Span;
use crate::value::text_eq;
use crate::host::Host;
use crate::module::Module;
use crate::parser::{error_added, self_init_block_at, self_init_block_tokens, function_ok, ignorable_kind, lemma_literal_prints, literal_print_code, literal_prints, print_program, Parser};
use crate::scanner::tokenizes;
use crate::token::Token;
use crate::scanner::scan_tokens;
use crate::token::TokenType;

verus! {

/// At most this many local slots per function, the callee's slot included.
pub const LOCALS_MAX: usize = 512;

/// At most this many captured variables per function.
pub const UPVALUES_MAX: usize = 512;

pub type PResult<T> = Result<T, ParseError>;

/// A local variable known to the compiler. A depth of -1 marks a variable
/// declared whose initializer is still being compiled.
#[derive(Debug, Clone)]
pub struct Local {
    pub name: String,
    pub span: Span,
    pub depth: i32,
    pub captured: bool,
}

/// What is being compiled.
#[derive(Debug, Clone, Copy, PartialEq, Eq, Structural)]
pub enum FunctionType {
    Function,
    Native,
    Script,
}

/// The compiler of one function: its body so far, its locals and the
/// variables it captures from enclosing functions.
#[derive(Debug)]
pub struct Compiler {
    pub function: LoxFunction,
    pub fun_type: FunctionType,
    pub locals: Vec<Local>,
    pub scope_depth: i32,
    pub upvalues: Vec<(bool, usize)>,
}

/// Builds a message from three pieces.
pub fn message3(a: &str, b: &str, c: &str) -> (r: String)
    ensures
        r@ == a@ + b@ + c@,
{
    let s = String::from_str(a);
    let s = s.concat(b);
    s.concat(c)
}

/// The locals from index `i` up all belong to the scope at `depth` (or are
/// still being initialised).
pub open spec fn in_scope_from(locals: Seq<Local>, i: int, depth: i32) -> bool {
    forall|j: int| i <= j < locals.len() ==> (#[trigger] locals[j]).depth == -1 || locals[j].depth >= depth
}

/// A local of the innermost scope is already called `name`.
pub open spec fn redeclared(locals: Seq<Local>, name: Seq<char>, depth: i32) -> bool {
    exists|i: int| 0 <= i < locals.len() && in_scope_from(locals, i, depth) && (#[trigger] locals[i]).name@ == name
}

/// The slot of the innermost local called `name`, if any.
pub open spec fn innermost(locals: Seq<Local>, name: Seq<char>) -> Option<int>
    decreases locals.len(),
{
    if locals.len() == 0 {
        None
    } else if locals.last().name@ == name {
        Some(locals.len() - 1)
    } else {
        innermost(locals.drop_last(), name)
    }
}

/// Every jump of `code` lands inside it or just past its end.
pub open spec fn jumps_within(code: Seq<Ins>) -> bool {
    forall|i: int| 0 <= i < code.len() ==> match #[trigger] jump_target(code[i], i) {
        Some(t) => 0 <= t <= code.len(),
        None => true,
    }
}

/// An instruction that may be appended at `at` without leaving `jumps_within`.
pub open spec fn lands_within(ins: Ins, at: int) -> bool {
    match jump_target(ins, at) {
        Some(t) => 0 <= t <= at + 1,
        None => true,
    }
}

/// A `PopN` for the pops still pending, if any.
pub open spec fn flush(pending: nat) -> Seq<Ins> {
    if pending > 0 { seq![Ins::PopN(pending as usize)] } else { Seq::empty() }
}

/// The code emitted while dropping the locals `s`, topmost (last) first,
/// before the final flush: each captured local flushes the pending pops and
/// emits `CloseUpval`.
pub open spec fn scope_emitted(s: Seq<Local>) -> Seq<Ins>
    decreases s.len(),
{
    if s.len() == 0 {
        Seq::empty()
    } else if s[0].captured {
        scope_emitted(s.drop_first()) + flush(scope_pending(s.drop_first())) + seq![Ins::CloseUpval]
    } else {
        scope_emitted(s.drop_first())
    }
}

/// The pops still pending after dropping the locals `s`, topmost first.
pub open spec fn scope_pending(s: Seq<Local>) -> nat
    decreases s.len(),
{
    if s.len() == 0 { 0 } else if s[0].captured { 0 } else { scope_pending(s.drop_first()) + 1 }
}

/// How many stack slots a run of pop instructions releases.
pub open spec fn released(code: Seq<Ins>) -> int
    decreases code.len(),
{
    if code.len() == 0 {
        0
    } else {
        released(code.drop_last()) + match code.last() {
            Ins::PopN(n) => n as int,
            Ins::CloseUpval => 1int,
            _ => 0int,
        }
    }
}

proof fn lemma_released_push(code: Seq<Ins>, ins: Ins)
    ensures
        released(code.push(ins)) == released(code) + match ins {
            Ins::PopN(n) => n as int,
            Ins::CloseUpval => 1int,
            _ => 0int,
        },
{
    assert(code.push(ins).drop_last() =~= code);
}

impl Compiler {
    pub open spec fn wf(&self) -> bool {
        &&& self.function.chunk.wf()
        &&& self.locals@.len() <= LOCALS_MAX
        &&& self.upvalues@.len() == self.function.upvalues
        &&& self.upvalues@.len() <= UPVALUES_MAX
        &&& self.scope_depth >= 0
        &&& jumps_within(self.function.chunk.spec_code())
        &&& self.locals@.len() >= 1
        &&& self.locals@[0].depth == 0
    }

    pub open spec fn code(&self) -> Seq<Ins> {
        self.function.chunk.spec_code()
    }

    /// A compiler for the top-level script.
    pub fn new() -> (r: Compiler)
        ensures
            r.wf(),
            r.fun_type == FunctionType::Script,
            r.function.name@ == "<script>"@,
            r.function.arity == 0,
            r.upvalues@.len() == 0,
            r.code().len() == 0,
            r.locals@.len() == 1,
            r.scope_depth == 0,
    {
        Compiler::build(String::from_str("<script>"), FunctionType::Script)
    }

    /// A compiler for a function of the given name and type, whose slot 0 is
    /// reserved for the callee.
    pub fn build(name: String, fun_type: FunctionType) -> (r: Compiler)
        ensures
            r.wf(),
            r.fun_type == fun_type,
            r.function.name == name,
            r.function.arity == 0,
            r.code().len() == 0,
            r.locals@.len() == 1,
            r.locals@[0].depth == 0,
            !r.locals@[0].captured,
            r.upvalues@.len() == 0,
            r.scope_depth == 0,
    {
        let mut locals: Vec<Local> = Vec::new();
        locals.push(Local { name: name.clone(), span: Span(0, 0, 0), depth: 0, captured: false });
        Compiler {
            function: LoxFunction::new(name),
            fun_type,
            locals,
            scope_depth: 0,
            upvalues: Vec::new(),
        }
    }

    /// Appends an instruction; returns its offset.
    pub fn emit(&mut self, ins: Ins, span: Span) -> (r: usize)
        requires
            old(self).wf(),
            lands_within(ins, old(self).code().len() as int),
        ensures
            final(self).wf(),
            final(self).code() == old(self).code().push(ins),
            r == old(self).code().len(),
            final(self).function.chunk.spec_spans() == old(self).function.chunk.spec_spans().push(span),
            final(self).locals == old(self).locals,
            final(self).upvalues == old(self).upvalues,
            final(self).scope_depth == old(self).scope_depth,
            final(self).function.arity == old(self).function.arity,
            final(self).function.name == old(self).function.name,
            final(self).fun_type == old(self).fun_type,
    {
        self.function.chunk.write(ins, span);
        proof {
            let c = self.code();
            assert forall|i: int| 0 <= i < c.len() implies match #[trigger] jump_target(c[i], i) {
                Some(t) => 0 <= t <= c.len(),
                None => true,
            } by {
                if i < c.len() - 1 {
                    assert(c[i] == old(self).code()[i]);
                }
            }
        }
        self.function.chunk.len() - 1
    }

    /// Enters a block.
    pub fn begin_scope(&mut self, span: Span) -> (r: PResult<()>)
        requires
            old(self).wf(),
        ensures
            final(self).wf(),
            final(self).locals == old(self).locals,
            final(self).code() == old(self).code(),
            final(self).upvalues == old(self).upvalues,
            final(self).function.arity == old(self).function.arity,
            final(self).function.name == old(self).function.name,
            final(self).fun_type == old(self).fun_type,
            r is Ok <==> old(self).scope_depth < i32::MAX,
            r is Ok ==> final(self).scope_depth == old(self).scope_depth + 1,
            r is Err ==> final(self).scope_depth == old(self).scope_depth && r->Err_0 is StackOverflow,
    {
        if self.scope_depth == i32::MAX {
            return Err(ParseError::StackOverflow { message: String::from_str("Too many nested scopes"), span });
        }
        self.scope_depth = self.scope_depth + 1;
        Ok(())
    }

    /// Leaves a block: drops its locals, emitting `CloseUpval` for each
    /// captured one and one `PopN` for each run of the others.
    pub fn end_scope(&mut self, span: Span)
        requires
            old(self).wf(),
            old(self).scope_depth > 0,
        ensures
            final(self).wf(),
            final(self).scope_depth == old(self).scope_depth - 1,
            final(self).upvalues == old(self).upvalues,
            final(self).function.arity == old(self).function.arity,
            final(self).function.name == old(self).function.name,
            final(self).fun_type == old(self).fun_type,
            final(self).locals@.len() <= old(self).locals@.len(),
            final(self).locals@ == old(self).locals@.subrange(0, final(self).locals@.len() as int),
            forall|i: int| final(self).locals@.len() <= i < old(self).locals@.len()
                ==> (#[trigger] old(self).locals@[i]).depth > final(self).scope_depth,
            final(self).locals@.len() > 0 ==> final(self).locals@.last().depth <= final(self).scope_depth,
            old(self).code().len() <= final(self).code().len(),
            final(self).code().subrange(0, old(self).code().len() as int) == old(self).code(),
            released(final(self).code().subrange(old(self).code().len() as int, final(self).code().len() as int))
                == old(self).locals@.len() - final(self).locals@.len(),
            final(self).locals@.len() == old(self).locals@.len() ==> final(self).code() == old(self).code(),
            ({
                let dropped = old(self).locals@.subrange(final(self).locals@.len() as int, old(self).locals@.len() as int);
                final(self).code() == old(self).code() + scope_emitted(dropped) + flush(scope_pending(dropped))
            }),
    {
        self.scope_depth = self.scope_depth - 1;
        let ghost start = self.code().len();
        let ghost n0 = self.locals@.len();
        let mut pops: usize = 0;
        proof {
            assert(self.code().subrange(start as int, start as int) =~= Seq::<Ins>::empty());
        }
        while self.locals.len() > 0 && self.locals[self.locals.len() - 1].depth > self.scope_depth
            invariant
                self.wf(),
                self.scope_depth == old(self).scope_depth - 1,
                self.upvalues == old(self).upvalues,
                self.function.arity == old(self).function.arity,
                self.function.name == old(self).function.name,
                self.fun_type == old(self).fun_type,
                n0 == old(self).locals@.len(),
                n0 <= LOCALS_MAX,
                start == old(self).code().len(),
                self.locals@ == old(self).locals@.subrange(0, self.locals@.len() as int),
                self.code() == old(self).code() + scope_emitted(old(self).locals@.subrange(self.locals@.len() as int, n0 as int)),
                pops as nat == scope_pending(old(self).locals@.subrange(self.locals@.len() as int, n0 as int)),
                forall|i: int| self.locals@.len() <= i < n0 ==> (#[trigger] old(self).locals@[i]).depth > self.scope_depth,
                start <= self.code().len(),
                self.code().subrange(0, start as int) == old(self).code(),
                pops <= n0 - self.locals@.len(),
                released(self.code().subrange(start as int, self.code().len() as int)) + pops
                    == n0 - self.locals@.len(),
                self.locals@.len() == n0 ==> self.code() == old(self).code() && pops == 0,
            decreases self.locals@.len(),
        {
            let ghost before = self.code();
            let ghost s_old = old(self).locals@.subrange(self.locals@.len() as int, n0 as int);
            let ghost s_new = old(self).locals@.subrange(self.locals@.len() - 1, n0 as int);
            let ghost pops0 = pops;
            proof {
                assert(s_new.drop_first() =~= s_old);
                assert(s_new[0] == self.locals@[self.locals@.len() - 1]);
            }
            if self.locals[self.locals.len() - 1].captured {
                if pops > 0 {
                    self.emit(Ins::PopN(pops), span);
                    proof {
                        lemma_released_push(before.subrange(start as int, before.len() as int), Ins::PopN(pops));
                        assert(self.code().subrange(start as int, self.code().len() as int)
                            =~= before.subrange(start as int, before.len() as int).push(Ins::PopN(pops)));
                        assert(self.code().subrange(0, start as int) =~= before.subrange(0, start as int));
                    }
                    pops = 0;
                }
                let ghost mid = self.code();
                self.emit(Ins::CloseUpval, span);
                proof {
                    lemma_released_push(mid.subrange(start as int, mid.len() as int), Ins::CloseUpval);
                    assert(self.code().subrange(start as int, self.code().len() as int)
                        =~= mid.subrange(start as int, mid.len() as int).push(Ins::CloseUpval));
                    assert(self.code().subrange(0, start as int) =~= mid.subrange(0, start as int));
                }
            } else {
                pops = pops + 1;
            }
            self.locals.pop();
            proof {
                assert(self.locals@ =~= old(self).locals@.subrange(0, self.locals@.len() as int));
                assert(s_new =~= old(self).locals@.subrange(self.locals@.len() as int, n0 as int));
                if s_new[0].captured {
                    assert(self.code() =~= old(self).code() + scope_emitted(s_old) + flush(pops0 as nat) + seq![Ins::CloseUpval]);
                    assert(self.code() =~= old(self).code() + scope_emitted(s_new));
                }
            }
        }
        let ghost dropped = old(self).locals@.subrange(self.locals@.len() as int, n0 as int);
        let ghost body = self.code();
        if pops > 0 {
            let ghost before = self.code();
            self.emit(Ins::PopN(pops), span);
            proof {
                assert(self.code() =~= body + flush(scope_pending(dropped)));
                lemma_released_push(before.subrange(start as int, before.len() as int), Ins::PopN(pops));
                assert(self.code().subrange(start as int, self.code().len() as int)
                    =~= before.subrange(start as int, before.len() as int).push(Ins::PopN(pops)));
                assert(self.code().subrange(0, start as int) =~= before.subrange(0, start as int));
            }
        } else {
            assert(self.code() =~= body + flush(scope_pending(dropped)));
        }
    }
}


/// Facts a change to the locals keeps about the rest of the compiler.
pub open spec fn same_but_locals(a: &Compiler, b: &Compiler) -> bool {
    &&& a.function.chunk.spec_code() == b.function.chunk.spec_code()
    &&& a.upvalues == b.upvalues
    &&& a.scope_depth == b.scope_depth
    &&& a.function.arity == b.function.arity
    &&& a.function.name == b.function.name
    &&& a.fun_type == b.fun_type
}

impl Compiler {
    /// Adds an uninitialised local, unless the function has no slot left.
    pub fn add_local(&mut self, name: String, span: Span) -> (r: PResult<()>)
        requires
            old(self).wf(),
        ensures
            final(self).wf(),
            same_but_locals(old(self), final(self)),
            r is Ok <==> old(self).locals@.len() < LOCALS_MAX,
            r is Ok ==> final(self).locals@ == old(self).locals@.push(Local { name, span, depth: -1i32, captured: false }),
            r is Err ==> final(self).locals == old(self).locals && r->Err_0 is StackOverflow,
    {
        if self.locals.len() == LOCALS_MAX {
            return Err(ParseError::StackOverflow {
                message: String::from_str("Too many local variables in function"),
                span,
            });
        }
        self.locals.push(Local { name, span, depth: -1i32, captured: false });
        Ok(())
    }

    /// Declares a variable in the current scope. At the top level nothing is
    /// recorded: globals are bound by name at run time. A name already used
    /// in the same scope is declared again, with a warning.
    pub fn declare_variable(&mut self, name: &String, span: Span) -> (r: PResult<()>)
        requires
            old(self).wf(),
        ensures
            final(self).wf(),
            same_but_locals(old(self), final(self)),
            old(self).scope_depth == 0 ==> r is Ok && final(self).locals == old(self).locals,
            old(self).scope_depth > 0 && old(self).locals@.len() >= LOCALS_MAX ==>
                final(self).locals == old(self).locals && r is Err && r->Err_0 is StackOverflow,
            old(self).scope_depth > 0 && old(self).locals@.len() < LOCALS_MAX ==> {
                &&& final(self).locals@ == old(self).locals@.push(Local { name: *name, span, depth: -1i32, captured: false })
                &&& (r is Ok <==> !redeclared(old(self).locals@, name@, old(self).scope_depth))
                &&& r is Err ==> (r->Err_0 matches ParseError::Error { level: ErrorLevel::Warning, span: s, .. } && s == span)
            },
    {
        if self.scope_depth == 0 {
            return Ok(());
        }
        let mut found = false;
        let ghost mut clear = false;
        let mut i: usize = self.locals.len();
        while i > 0
            invariant
                *self == *old(self),
                self.wf(),
                i <= self.locals@.len(),
                in_scope_from(self.locals@, i as int, self.scope_depth),
                forall|j: int| i <= j < self.locals@.len() ==> (#[trigger] self.locals@[j]).name@ != name@,
                found ==> 0 < i && in_scope_from(self.locals@, i - 1, self.scope_depth)
                    && self.locals@[i - 1].name@ == name@,
                clear ==> !found && forall|k: int| 0 <= k < self.locals@.len() && in_scope_from(self.locals@, k, self.scope_depth)
                    ==> (#[trigger] self.locals@[k]).name@ != name@,
            ensures
                found || clear || i == 0,
            decreases i,
        {
            let local = &self.locals[i - 1];
            if local.depth != -1 && local.depth < self.scope_depth {
                proof {
                    assert forall|k: int| 0 <= k < self.locals@.len() && in_scope_from(self.locals@, k, self.scope_depth)
                        implies (#[trigger] self.locals@[k]).name@ != name@ by {
                        if k < i {
                            assert(self.locals@[i - 1].depth == -1 || self.locals@[i - 1].depth >= self.scope_depth);
                        }
                    }
                    clear = true;
                }
                break;
            }
            if text_eq(name, &local.name) {
                proof {
                    assert(in_scope_from(self.locals@, i - 1, self.scope_depth));
                }
                found = true;
                break;
            }
            i = i - 1;
        }
        proof {
            if !found && !clear {
                assert(i == 0);
                assert forall|k: int| 0 <= k < self.locals@.len() && in_scope_from(self.locals@, k, self.scope_depth)
                    implies (#[trigger] self.locals@[k]).name@ != name@ by {
                    assert(i <= k);
                }
            }
            if found {
                assert(in_scope_from(self.locals@, i - 1, self.scope_depth));
                assert(self.locals@[i - 1].name@ == name@);
            }
        }
        let added = self.add_local(name.clone(), span);
        match added {
            Err(e) => Err(e),
            Ok(()) => {
                if found {
                    Err(ParseError::Error {
                        level: ErrorLevel::Warning,
                        message: message3("Variable `", name.as_str(), "` is already declared in this scope"),
                        span,
                    })
                } else {
                    Ok(())
                }
            },
        }
    }

    /// Marks the newest local as initialised, at the current depth.
    pub fn mark_init(&mut self)
        requires
            old(self).wf(),
        ensures
            final(self).wf(),
            same_but_locals(old(self), final(self)),
            old(self).scope_depth == 0 || old(self).locals@.len() <= 1 ==> final(self).locals == old(self).locals,
            old(self).scope_depth > 0 && old(self).locals@.len() > 1 ==> final(self).locals@ == old(self).locals@.update(
                old(self).locals@.len() - 1,
                Local { depth: old(self).scope_depth, ..old(self).locals@.last() },
            ),
    {
        if self.scope_depth == 0 || self.locals.len() <= 1 {
            return;
        }
        let last = self.locals.len() - 1;
        let local = Local {
            name: self.locals[last].name.clone(),
            span: self.locals[last].span,
            depth: self.scope_depth,
            captured: self.locals[last].captured,
        };
        self.locals.set(last, local);
    }
}


impl Compiler {
    /// The slot of the innermost local called `name`. Reading a local inside
    /// its own initializer is an error.
    pub fn resolve_local(&self, name: &String) -> (r: PResult<Option<usize>>)
        ensures
            r matches Ok(Some(i)) ==> i < self.locals@.len(),
            match innermost(self.locals@, name@) {
                None => r == Ok::<Option<usize>, ParseError>(None),
                Some(i) => if self.locals@[i].depth == -1 {
                    r is Err && (r->Err_0 matches ParseError::Error { level: ErrorLevel::Error, span: s, .. }
                        && s == self.locals@[i].span)
                } else {
                    r == Ok::<Option<usize>, ParseError>(Some(i as usize))
                },
            },
    {
        let mut i: usize = self.locals.len();
        proof {
            assert(self.locals@.subrange(0, i as int) =~= self.locals@);
            lemma_innermost_bound(self.locals@, name@);
        }
        while i > 0
            invariant
                i <= self.locals@.len(),
                innermost(self.locals@, name@) == innermost(self.locals@.subrange(0, i as int), name@),
            decreases i,
        {
            proof {
                let pre = self.locals@.subrange(0, i as int);
                assert(pre.drop_last() =~= self.locals@.subrange(0, i - 1));
            }
            let local = &self.locals[i - 1];
            if text_eq(name, &local.name) {
                if local.depth == -1 {
                    return Err(ParseError::Error {
                        level: ErrorLevel::Error,
                        message: message3("Can't read local variable `", local.name.as_str(), "` in its own initializer"),
                        span: local.span,
                    });
                }
                return Ok(Some(i - 1));
            }
            i = i - 1;
        }
        Ok(None)
    }

    /// Records a captured variable, reusing an equal one; returns its index.
    pub fn add_upvalue(&mut self, capture: (bool, usize), span: Span) -> (r: PResult<usize>)
        requires
            old(self).wf(),
        ensures
            final(self).wf(),
            final(self).locals == old(self).locals,
            final(self).code() == old(self).code(),
            final(self).scope_depth == old(self).scope_depth,
            final(self).function.arity == old(self).function.arity,
            final(self).function.name == old(self).function.name,
            final(self).fun_type == old(self).fun_type,
            old(self).upvalues@.contains(capture) ==> final(self).upvalues == old(self).upvalues
                && r is Ok && r->Ok_0 < old(self).upvalues@.len() && old(self).upvalues@[r->Ok_0 as int] == capture,
            !old(self).upvalues@.contains(capture) && old(self).upvalues@.len() < UPVALUES_MAX
                ==> final(self).upvalues@ == old(self).upvalues@.push(capture)
                && r == Ok::<usize, ParseError>(old(self).upvalues@.len() as usize),
            !old(self).upvalues@.contains(capture) && old(self).upvalues@.len() >= UPVALUES_MAX
                ==> final(self).upvalues == old(self).upvalues && r is Err && r->Err_0 is StackOverflow,
    {
        let count = self.function.upvalues;
        let mut i: usize = 0;
        while i < self.upvalues.len()
            invariant
                *self == *old(self),
                self.wf(),
                i <= self.upvalues@.len(),
                forall|j: int| 0 <= j < i ==> self.upvalues@[j] != capture,
            decreases self.upvalues@.len() - i,
        {
            let pair = self.upvalues[i];
            if pair.0 == capture.0 && pair.1 == capture.1 {
                return Ok(i);
            }
            i = i + 1;
        }
        if count == UPVALUES_MAX {
            return Err(ParseError::StackOverflow {
                message: String::from_str("Too many closure variables in function"),
                span,
            });
        }
        self.upvalues.push(capture);
        self.function.upvalues = self.function.upvalues + 1;
        Ok(count)
    }

    /// Points the placeholder jump at `offset` to the end of the code so far.
    pub fn patch_jump(&mut self, offset: usize, span: Span) -> (r: PResult<()>)
        requires
            old(self).wf(),
            offset < old(self).code().len(),
        ensures
            final(self).wf(),
            final(self).locals == old(self).locals,
            final(self).upvalues == old(self).upvalues,
            final(self).scope_depth == old(self).scope_depth,
            final(self).function.arity == old(self).function.arity,
            final(self).function.name == old(self).function.name,
            final(self).fun_type == old(self).fun_type,
            final(self).code().len() == old(self).code().len(),
            final(self).function.chunk.spec_spans() == old(self).function.chunk.spec_spans(),
            r is Ok <==> old(self).code().len() - offset - 1 <= JUMP_MAX
                && jump_target(old(self).code()[offset as int], offset as int) is Some,
            r is Ok ==> final(self).code() == old(self).code().update(offset as int, match old(self).code()[offset as int] {
                Ins::Jump(_) => Ins::Jump((old(self).code().len() - offset - 1) as isize),
                _ => Ins::JumpIfFalse((old(self).code().len() - offset - 1) as isize),
            }),
            r is Ok ==> jump_target(final(self).code()[offset as int], offset as int)
                == Some(old(self).code().len() as int),
            r is Err ==> final(self).code() == old(self).code() && r->Err_0 is InvalidJump,
    {
        let len = self.function.chunk.len();
        let jump = len - offset - 1;
        if jump > JUMP_MAX {
            return Err(ParseError::InvalidJump {
                message: String::from_str("Too much code to jump over"),
                span,
            });
        }
        let ins = match self.function.chunk.code_at(offset) {
            Ins::Jump(_) => Ins::Jump(jump as isize),
            Ins::JumpIfFalse(_) => Ins::JumpIfFalse(jump as isize),
            _ => {
                return Err(ParseError::InvalidJump {
                    message: String::from_str("Not a jump instruction"),
                    span: self.function.chunk.span_at(offset),
                });
            },
        };
        self.function.chunk.patch(offset, ins);
        Ok(())
    }

    /// Emits a backward jump to `start`.
    pub fn emit_loop(&mut self, start: usize, span: Span) -> (r: PResult<usize>)
        requires
            old(self).wf(),
        ensures
            final(self).wf(),
            final(self).locals == old(self).locals,
            final(self).upvalues == old(self).upvalues,
            final(self).scope_depth == old(self).scope_depth,
            final(self).function.arity == old(self).function.arity,
            final(self).function.name == old(self).function.name,
            final(self).fun_type == old(self).fun_type,
            r is Ok <==> start < old(self).code().len() && old(self).code().len() + 1 - start <= JUMP_MAX,
            r is Ok ==> final(self).code() == old(self).code().push(Ins::Jump((start - old(self).code().len() - 1) as isize))
                && r->Ok_0 == old(self).code().len()
                && jump_target(final(self).code()[r->Ok_0 as int], r->Ok_0 as int) == Some(start as int),
            r is Err ==> final(self).code() == old(self).code() && r->Err_0 is InvalidJump,
            r is Ok ==> final(self).function.chunk.spec_spans() == old(self).function.chunk.spec_spans().push(span),
            r is Err ==> final(self).function.chunk.spec_spans() == old(self).function.chunk.spec_spans(),
    {
        let len = self.function.chunk.len();
        if start >= len {
            return Err(ParseError::InvalidJump {
                message: String::from_str("Cannot jump ahead when looping"),
                span,
            });
        }
        let back = len - start;
        if back >= JUMP_MAX {
            return Err(ParseError::InvalidJump { message: String::from_str("Loop body too large"), span });
        }
        let offset = back + 1;
        Ok(self.emit(Ins::Jump(-(offset as isize)), span))
    }
}


impl Compiler {
    /// Marks the local in `slot` as captured by a closure.
    pub fn mark_captured(&mut self, slot: usize)
        requires
            old(self).wf(),
            slot < old(self).locals@.len(),
        ensures
            final(self).wf(),
            same_but_locals(old(self), final(self)),
            final(self).locals@.len() == old(self).locals@.len(),
            final(self).locals@[slot as int].captured,
            final(self).locals@[slot as int].name == old(self).locals@[slot as int].name,
            forall|i: int| 0 <= i < old(self).locals@.len() && i != slot ==> final(self).locals@[i] == old(self).locals@[i],
            forall|i: int| 0 <= i < old(self).locals@.len() ==> (#[trigger] final(self).locals@[i]).depth == old(self).locals@[i].depth,
    {
        let local = Local {
            name: self.locals[slot].name.clone(),
            span: self.locals[slot].span,
            depth: self.locals[slot].depth,
            captured: true,
        };
        self.locals.set(slot, local);
    }
}


/// The innermost local of a name is one of the locals.
pub proof fn lemma_innermost_bound(locals: Seq<Local>, name: Seq<char>)
    ensures
        innermost(locals, name) matches Some(i) ==> 0 <= i < locals.len(),
    decreases locals.len(),
{
    if locals.len() > 0 {
        lemma_innermost_bound(locals.drop_last(), name);
    }
}

impl Compiler {
    /// Ends the function with an implicit `return nil`. Afterwards every
    /// jump lands inside the code.
    pub fn emit_return(&mut self, span: Span)
        requires
            old(self).wf(),
        ensures
            final(self).wf(),
            final(self).code() == old(self).code().push(Ins::Nil).push(Ins::Return),
            jumps_in_bounds(final(self).code()),
            final(self).locals == old(self).locals,
            final(self).upvalues == old(self).upvalues,
            final(self).scope_depth == old(self).scope_depth,
            final(self).function.arity == old(self).function.arity,
            final(self).function.name == old(self).function.name,
            final(self).fun_type == old(self).fun_type,
    {
        self.emit(Ins::Nil, span);
        self.emit(Ins::Return, span);
        proof {
            let c = self.code();
            assert forall|i: int| 0 <= i < c.len() implies match #[trigger] jump_target(c[i], i) {
                Some(t) => 0 <= t < c.len(),
                None => true,
            } by {
                if i < c.len() - 2 {
                    assert(c[i] == old(self).code()[i]);
                    assert(jump_target(old(self).code()[i], i) matches Some(t) ==> t <= old(self).code().len());
                }
            }
        }
    }
}


/// Compiles `src` into `module`: the functions it declares, then the
/// script itself, which comes last and takes no arguments. Returns the
/// diagnostics; execution may start only if none of them is an error.
pub fn compile<H: Host>(src: &str, module: &mut Module, host: &H) -> (r: Vec<ParseError>)
    requires
        4 * src@.len() <= usize::MAX,
    ensures
        final(module).functions@.len() > old(module).functions@.len(),
        final(module).functions@.subrange(0, old(module).functions@.len() as int) == old(module).functions@,
        forall|i: int| old(module).functions@.len() <= i < final(module).functions@.len()
            ==> function_ok(#[trigger] final(module).functions@[i]),
        final(module).functions@.last().arity == 0,
        final(module).functions@.last().upvalues == 0,
        final(module).natives == old(module).natives,
        final(module).closures == old(module).closures,
        final(module).upvals == old(module).upvals,
        exists|toks: Seq<Token>, b: Seq<(int, int)>| tokenizes(src@, toks, b)
            && (forall|k: nat| #[trigger] literal_prints(toks, 0, k) ==> r@.len() == 0
                && final(module).functions@.last().chunk.spec_code()
                    == literal_print_code(toks, 0, k) + seq![Ins::Nil, Ins::Return])
            && (self_init_block_tokens(toks, 0)
                ==> exists|i: int| 0 <= i < r@.len() && (#[trigger] r@[i]).spec_level() == ErrorLevel::Error),
{
    let tokens = scan_tokens(src);
    let mut numbers: Vec<Option<u64>> = Vec::new();
    let mut i: usize = 0;
    while i < tokens.len()
        invariant
            i <= tokens@.len(),
            numbers@.len() == i,
        decreases tokens@.len() - i,
    {
        match &tokens[i].kind {
            TokenType::Number(text) => numbers.push(host.parse_number(text.as_str())),
            _ => numbers.push(None),
        }
        i = i + 1;
    }
    let ghost toks = tokens@;
    let ghost b = choose|b: Seq<(int, int)>| tokenizes(src@, toks, b);
    let mut parser = Parser::new(tokens, numbers, module.functions.len());
    let ghost p0 = parser;
    parser.parse_program();
    let ghost p1 = parser;
    let (mut functions, script, diagnostics) = parser.finish();
    proof {
        if self_init_block_tokens(toks, 0) {
            assert(!ignorable_kind(toks[0].kind));
            assert(self_init_block_at(&p0, p0.spec_current()));
            assert(error_added(p1.spec_diagnostics(), 0));
            assert(diagnostics@ == p1.spec_diagnostics());
        }
        assert forall|k: nat| #[trigger] literal_prints(toks, 0, k) implies diagnostics@.len() == 0
            && script.chunk.spec_code() == literal_print_code(toks, 0, k) + seq![Ins::Nil, Ins::Return] by {
            lemma_literal_prints(&p0, 0, k);
            assert(!ignorable_kind(toks[0].kind)) by {
                if k > 0 {} else {}
            }
            assert(print_program(&p0, p0.spec_current(), k));
            assert(p1.spec_code() =~= literal_print_code(toks, 0, k));
            assert(script.chunk.spec_code() =~= literal_print_code(toks, 0, k) + seq![Ins::Nil, Ins::Return]);
        }
    }
    let ghost before = module.functions@;
    module.functions.append(&mut functions);
    module.functions.push(script);
    proof {
        assert(module.functions@.subrange(0, before.len() as int) =~= before);
    }
    diagnostics
}

} // verus!
