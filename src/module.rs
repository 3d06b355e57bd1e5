use vstd::prelude::*;
use crate::chunk::Chunk;
use crate::value::Value;
use vstd::string::StrSliceExecFns;

verus! {

/// A compiled function: its name, how many parameters and captured
/// variables it has, and its body.
#[derive(Debug)]
pub struct LoxFunction {
    pub name: String,
    pub arity: usize,
    pub chunk: Chunk,
    pub upvalues: usize,
}

impl LoxFunction {
    /// A function of no parameters with an empty body.
    pub fn new(name: String) -> (r: LoxFunction)
        ensures
            r.name == name,
            r.arity == 0,
            r.upvalues == 0,
            r.chunk.wf(),
            r.chunk.spec_len() == 0,
    {
        let n = name.clone();
        LoxFunction { name, arity: 0, chunk: Chunk::new(n), upvalues: 0 }
    }
}

/// A function provided by the host, called with a fixed number of arguments.
#[derive(Debug, Clone)]
pub struct NativeFunction {
    pub name: String,
    pub arity: usize,
}

/// A captured variable: still on the stack at an absolute slot, or lifted
/// off it with its last value.
#[derive(Debug, Clone)]
pub enum LoxUpvalue {
    Open(usize),
    Closed(Value),
}

/// A function together with the captured variables it sees, as indices into
/// the module's upvalue registry.
#[derive(Debug)]
pub struct LoxClosure {
    pub function: usize,
    pub upvalues: Vec<usize>,
}


/// The registries of one virtual machine: compiled functions, host
/// functions, closures and captured variables. Indices are stable handles.
#[derive(Debug)]
pub struct Module {
    pub functions: Vec<LoxFunction>,
    pub natives: Vec<NativeFunction>,
    pub closures: Vec<LoxClosure>,
    pub upvals: Vec<LoxUpvalue>,
}

impl Module {
    /// Empty registries.
    pub fn new() -> (r: Module)
        ensures
            r.functions@.len() == 0,
            r.natives@.len() == 0,
            r.closures@.len() == 0,
            r.upvals@.len() == 0,
    {
        Module { functions: Vec::new(), natives: Vec::new(), closures: Vec::new(), upvals: Vec::new() }
    }

    /// Registers a compiled function; returns its index.
    pub fn push_function(&mut self, f: LoxFunction) -> (r: usize)
        ensures
            final(self).functions@ == old(self).functions@.push(f),
            r == old(self).functions@.len(),
            final(self).natives == old(self).natives,
            final(self).closures == old(self).closures,
            final(self).upvals == old(self).upvals,
    {
        self.functions.push(f);
        self.functions.len() - 1
    }

    /// Registers a host function; returns its index.
    pub fn push_native(&mut self, f: NativeFunction) -> (r: usize)
        ensures
            final(self).natives@ == old(self).natives@.push(f),
            r == old(self).natives@.len(),
            final(self).functions == old(self).functions,
            final(self).closures == old(self).closures,
            final(self).upvals == old(self).upvals,
    {
        self.natives.push(f);
        self.natives.len() - 1
    }
}

/// Comparison of string slices by contents.
pub trait TextEq {
    fn eq_text(&self, other: &str) -> bool;
}

impl TextEq for str {
    fn eq_text(&self, other: &str) -> (r: bool)
        ensures
            r == (self@ == other@),
    {
        let n = self.unicode_len();
        if n != other.unicode_len() {
            return false;
        }
        let mut i: usize = 0;
        while i < n
            invariant
                n == self@.len(),
                n == other@.len(),
                i <= n,
                forall|j: int| 0 <= j < i ==> self@[j] == other@[j],
            decreases n - i,
        {
            if self.get_char(i) != other.get_char(i) {
                return false;
            }
            i = i + 1;
        }
        assert(self@ =~= other@);
        true
    }
}

} // verus!
