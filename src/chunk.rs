use vstd::prelude::*;
use crate::span::Span;
use crate::value::Value;

verus! {

/// Jumps move at most this many instructions either way.
pub const JUMP_MAX: usize = 65535;

/// One bytecode instruction. Jump offsets are relative to the instruction
/// that follows the jump.
#[derive(Debug, Clone, PartialEq)]
pub enum Ins {
    Constant(Value),
    True,
    False,
    Nil,
    Add,
    Subtract,
    Multiply,
    Divide,
    Negate,
    Not,
    Equal,
    Greater,
    Less,
    DefGlobal(String),
    GetGlobal(String),
    SetGlobal(String),
    GetLocal(usize),
    SetLocal(usize),
    GetUpval(usize),
    SetUpval(usize),
    Call(usize),
    Closure(usize, Vec<(bool, usize)>),
    Jump(isize),
    JumpIfFalse(isize),
    Print,
    Pop,
    PopN(usize),
    CloseUpval,
    Return,
}

/// Where a jump at `at` in code of length `len` lands, if it is a jump.
pub open spec fn jump_target(ins: Ins, at: int) -> Option<int> {
    match ins {
        Ins::Jump(d) => Some(at + 1 + d),
        Ins::JumpIfFalse(d) => Some(at + 1 + d),
        _ => None,
    }
}

/// Every jump of `code` lands inside it.
pub open spec fn jumps_in_bounds(code: Seq<Ins>) -> bool {
    forall|i: int| 0 <= i < code.len() ==> match #[trigger] jump_target(code[i], i) {
        Some(t) => 0 <= t < code.len(),
        None => true,
    }
}

/// A function's compiled body: instructions with the source span of each.
#[derive(Debug)]
pub struct Chunk {
    pub name: String,
    pub code: Vec<Ins>,
    pub spans: Vec<Span>,
}

impl Chunk {
    /// The instructions and the spans run in parallel.
    pub open spec fn wf(&self) -> bool {
        self.spec_code().len() == self.spec_spans().len()
    }

    pub open spec fn spec_code(&self) -> Seq<Ins> {
        self.code@
    }

    pub open spec fn spec_spans(&self) -> Seq<Span> {
        self.spans@
    }

    pub open spec fn spec_len(&self) -> nat {
        self.spec_code().len()
    }

    /// An empty chunk.
    pub fn new(name: String) -> (r: Chunk)
        ensures
            r.wf(),
            r.spec_code().len() == 0,
            r.name == name,
    {
        Chunk { name, code: Vec::new(), spans: Vec::new() }
    }

    /// Appends an instruction with its span.
    pub fn write(&mut self, ins: Ins, span: Span)
        requires
            old(self).wf(),
        ensures
            final(self).wf(),
            final(self).spec_code() == old(self).spec_code().push(ins),
            final(self).spec_spans() == old(self).spec_spans().push(span),
            final(self).name == old(self).name,
    {
        self.code.push(ins);
        self.spans.push(span);
    }

    /// The instruction at `offset` and its span, if there is one.
    pub fn get(&self, offset: usize) -> (r: Option<(&Ins, &Span)>)
        requires
            self.wf(),
        ensures
            offset < self.spec_len() ==> r == Some((&self.spec_code()[offset as int], &self.spec_spans()[offset as int])),
            offset >= self.spec_len() ==> r is None,
    {
        if offset >= self.code.len() {
            return None;
        }
        Some((&self.code[offset], &self.spans[offset]))
    }

    /// The instruction at `offset`.
    pub fn code_at(&self, offset: usize) -> (r: &Ins)
        requires
            offset < self.spec_len(),
        ensures
            *r == self.spec_code()[offset as int],
    {
        &self.code[offset]
    }

    /// The span at `offset`.
    pub fn span_at(&self, offset: usize) -> (r: Span)
        requires
            self.wf(),
            offset < self.spec_len(),
        ensures
            r == self.spec_spans()[offset as int],
    {
        self.spans[offset]
    }

    /// The number of instructions.
    pub fn len(&self) -> (r: usize)
        ensures
            r == self.spec_len(),
    {
        self.code.len()
    }

    /// Replaces the instruction at `offset`, keeping its span.
    pub fn patch(&mut self, offset: usize, ins: Ins)
        requires
            old(self).wf(),
            offset < old(self).spec_len(),
        ensures
            final(self).wf(),
            final(self).spec_code() == old(self).spec_code().update(offset as int, ins),
            final(self).spec_spans() == old(self).spec_spans(),
            final(self).name == old(self).name,
    {
        self.code.set(offset, ins);
    }
}

/// Every chunk keeps one span per instruction: writing and patching preserve it.
pub proof fn lemma_chunk_parallel(c: Chunk, ins: Ins, span: Span, offset: int)
    requires
        c.wf(),
    ensures
        c.spec_code().push(ins).len() == c.spec_spans().push(span).len(),
        0 <= offset < c.spec_len() ==> c.spec_code().update(offset, ins).len() == c.spec_spans().len(),
{
}

} // verus!
