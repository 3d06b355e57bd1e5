use vstd::prelude::*;
use crate::error::RuntimeError;
use crate::value::Value;

verus! {

/// An arithmetic operation on doubles.
#[derive(Debug, Clone, Copy, PartialEq, Eq, Structural)]
pub enum ArithOp {
    Add,
    Subtract,
    Multiply,
    Divide,
}

/// What the library asks of the program that embeds it: floating-point
/// work and the host functions. Numbers
/// cross this boundary as IEEE-754 bit patterns. Nothing is assumed of the
/// answers: the library is verified for every value they may take.
pub trait Host {
    /// The double that a number literal's text denotes, if it reads as one.
    fn parse_number(&self, text: &str) -> Option<u64>;

    /// `a op b` on doubles.
    fn arith(&self, op: ArithOp, a: u64, b: u64) -> u64;

    /// The printed form of a double.
    fn number_text(&self, bits: u64) -> String;

    /// Runs the host function registered at `index` on the arguments.
    fn call_native(&mut self, index: usize, args: &Vec<Value>) -> Result<Value, RuntimeError>;
}

} // verus!
