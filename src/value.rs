use vstd::prelude::*;

verus! {

/// A heap object of the language.
#[derive(Debug, Clone, PartialEq)]
pub enum LoxObject {
    Identifier(String),
    String(String),
    Function(String, usize),
    Native(String, usize),
    Closure(String, usize),
}

pub open spec fn object_tag(o: LoxObject) -> nat {
    match o {
        LoxObject::Identifier(_) => 0,
        LoxObject::String(_) => 1,
        LoxObject::Function(_, _) => 2,
        LoxObject::Native(_, _) => 3,
        LoxObject::Closure(_, _) => 4,
    }
}

pub open spec fn object_data(o: LoxObject) -> String {
    match o {
        LoxObject::Identifier(s) => s,
        LoxObject::String(s) => s,
        LoxObject::Function(s, _) => s,
        LoxObject::Native(s, _) => s,
        LoxObject::Closure(s, _) => s,
    }
}

/// The name of an object's type.
pub open spec fn object_kind(o: LoxObject) -> Seq<char> {
    match o {
        LoxObject::Identifier(_) => "<ident>"@,
        LoxObject::String(_) => "string"@,
        LoxObject::Function(_, _) => "<func>"@,
        LoxObject::Closure(_, _) => "<func>"@,
        LoxObject::Native(_, _) => "<native fn>"@,
    }
}

impl LoxObject {
    /// The name of the object's type, for diagnostics.
    pub fn kind_name(&self) -> (r: &'static str)
        ensures
            r@ == object_kind(*self),
    {
        match self {
            LoxObject::Identifier(_) => "<ident>",
            LoxObject::String(_) => "string",
            LoxObject::Function(_, _) | LoxObject::Closure(_, _) => "<func>",
            LoxObject::Native(_, _) => "<native fn>",
        }
    }

    /// The text the object carries: its contents or its name.
    pub fn data(&self) -> (r: &String)
        ensures
            *r == object_data(*self),
    {
        match self {
            LoxObject::Identifier(s) => s,
            LoxObject::String(s) => s,
            LoxObject::Function(s, _) => s,
            LoxObject::Native(s, _) => s,
            LoxObject::Closure(s, _) => s,
        }
    }

    /// Whether both objects are of the same variant.
    pub fn is_type(&self, other: LoxObject) -> (r: bool)
        ensures
            r == (object_tag(*self) == object_tag(other)),
    {
        match (self, &other) {
            (LoxObject::Identifier(_), LoxObject::Identifier(_)) => true,
            (LoxObject::String(_), LoxObject::String(_)) => true,
            (LoxObject::Function(_, _), LoxObject::Function(_, _)) => true,
            (LoxObject::Native(_, _), LoxObject::Native(_, _)) => true,
            (LoxObject::Closure(_, _), LoxObject::Closure(_, _)) => true,
            _ => false,
        }
    }

    pub open spec fn spec_is_callable(&self) -> bool {
        ||| *self is Function
        ||| *self is Native
        ||| *self is Closure
    }

    /// Functions, natives and closures can be called.
    pub fn is_callable(&self) -> (r: bool)
        ensures
            r == self.spec_is_callable(),
    {
        match self {
            LoxObject::Function(_, _) | LoxObject::Native(_, _) | LoxObject::Closure(_, _) => true,
            _ => false,
        }
    }
}

/// A runtime value. A number is held as the bit pattern of an IEEE-754
/// double; the library compares and negates such patterns exactly, and
/// leaves other arithmetic to the host.
#[derive(Debug, Clone, PartialEq)]
pub enum Value {
    Boolean(bool),
    Nil,
    Number(u64),
    Object(LoxObject),
}

pub open spec fn exponent_bits(b: u64) -> u64 {
    b & 0x7FF0_0000_0000_0000u64
}

pub open spec fn mantissa_bits(b: u64) -> u64 {
    b & 0x000F_FFFF_FFFF_FFFFu64
}

/// The pattern is a NaN: all exponent bits set and a non-zero mantissa.
pub open spec fn is_nan(b: u64) -> bool {
    exponent_bits(b) == 0x7FF0_0000_0000_0000u64 && mantissa_bits(b) != 0
}

/// The pattern is positive or negative zero.
pub open spec fn is_zero(b: u64) -> bool {
    b & 0x7FFF_FFFF_FFFF_FFFFu64 == 0
}

/// IEEE-754 equality of two doubles: NaN equals nothing, and the two zeros are equal.
pub open spec fn number_eq(a: u64, b: u64) -> bool {
    !is_nan(a) && !is_nan(b) && (a == b || (is_zero(a) && is_zero(b)))
}

/// A key that orders non-NaN doubles as numbers (the zeros aside, which
/// `number_lt` treats as equal).
pub open spec fn order_key(b: u64) -> u64 {
    if b & 0x8000_0000_0000_0000u64 != 0 { !b } else { b | 0x8000_0000_0000_0000u64 }
}

/// IEEE-754 `a < b`.
pub open spec fn number_lt(a: u64, b: u64) -> bool {
    !is_nan(a) && !is_nan(b) && !(is_zero(a) && is_zero(b)) && order_key(a) < order_key(b)
}

/// The negation of a double: its sign bit flipped.
pub open spec fn number_neg(a: u64) -> u64 {
    a ^ 0x8000_0000_0000_0000u64
}

pub fn num_is_nan(b: u64) -> (r: bool)
    ensures
        r == is_nan(b),
{
    (b & 0x7FF0_0000_0000_0000u64) == 0x7FF0_0000_0000_0000u64 && (b & 0x000F_FFFF_FFFF_FFFFu64) != 0
}

pub fn num_is_zero(b: u64) -> (r: bool)
    ensures
        r == is_zero(b),
{
    b & 0x7FFF_FFFF_FFFF_FFFFu64 == 0
}

/// IEEE-754 equality on bit patterns.
pub fn num_eq(a: u64, b: u64) -> (r: bool)
    ensures
        r == number_eq(a, b),
{
    !num_is_nan(a) && !num_is_nan(b) && (a == b || (num_is_zero(a) && num_is_zero(b)))
}

fn num_key(b: u64) -> (r: u64)
    ensures
        r == order_key(b),
{
    if b & 0x8000_0000_0000_0000u64 != 0 { !b } else { b | 0x8000_0000_0000_0000u64 }
}

/// IEEE-754 `a < b` on bit patterns.
pub fn num_lt(a: u64, b: u64) -> (r: bool)
    ensures
        r == number_lt(a, b),
{
    !num_is_nan(a) && !num_is_nan(b) && !(num_is_zero(a) && num_is_zero(b)) && num_key(a) < num_key(b)
}

/// IEEE-754 negation on bit patterns.
pub fn num_neg(a: u64) -> (r: u64)
    ensures
        r == number_neg(a),
{
    a ^ 0x8000_0000_0000_0000u64
}

/// Falsiness: only `nil` and `false` are false.
pub open spec fn spec_truth(v: Value) -> bool {
    match v {
        Value::Boolean(b) => b,
        Value::Nil => false,
        _ => true,
    }
}

/// Equality without coercion: values of different types differ, numbers
/// compare as doubles, objects by kind and contents.
pub open spec fn spec_equals(a: Value, b: Value) -> bool {
    match (a, b) {
        (Value::Boolean(x), Value::Boolean(y)) => x == y,
        (Value::Number(x), Value::Number(y)) => number_eq(x, y),
        (Value::Nil, Value::Nil) => true,
        (Value::Object(x), Value::Object(y)) => object_eq(x, y),
        _ => false,
    }
}

pub open spec fn object_eq(a: LoxObject, b: LoxObject) -> bool {
    object_tag(a) == object_tag(b) && object_data(a)@ == object_data(b)@ && match (a, b) {
        (LoxObject::Function(_, i), LoxObject::Function(_, j)) => i == j,
        (LoxObject::Native(_, i), LoxObject::Native(_, j)) => i == j,
        (LoxObject::Closure(_, i), LoxObject::Closure(_, j)) => i == j,
        _ => true,
    }
}

/// Equality of two strings by contents.
pub fn text_eq(a: &String, b: &String) -> (r: bool)
    ensures
        r == (a@ == b@),
{
    a.eq(b)
}

fn same_object(a: &LoxObject, b: &LoxObject) -> (r: bool)
    ensures
        r == object_eq(*a, *b),
{
    match (a, b) {
        (LoxObject::Identifier(x), LoxObject::Identifier(y)) => text_eq(x, y),
        (LoxObject::String(x), LoxObject::String(y)) => text_eq(x, y),
        (LoxObject::Function(x, i), LoxObject::Function(y, j)) => *i == *j && text_eq(x, y),
        (LoxObject::Native(x, i), LoxObject::Native(y, j)) => *i == *j && text_eq(x, y),
        (LoxObject::Closure(x, i), LoxObject::Closure(y, j)) => *i == *j && text_eq(x, y),
        _ => false,
    }
}

/// Falsiness: only `nil` and `false` are false.
pub fn truth(v: &Value) -> (r: bool)
    ensures
        r == spec_truth(*v),
{
    match v {
        Value::Boolean(b) => *b,
        Value::Nil => false,
        _ => true,
    }
}

/// Equality of two values, without type coercion.
pub fn equals(a: &Value, b: &Value) -> (r: bool)
    ensures
        r == spec_equals(*a, *b),
{
    match (a, b) {
        (Value::Boolean(x), Value::Boolean(y)) => *x == *y,
        (Value::Number(x), Value::Number(y)) => num_eq(*x, *y),
        (Value::Nil, Value::Nil) => true,
        (Value::Object(x), Value::Object(y)) => same_object(x, y),
        _ => false,
    }
}

impl Value {
    /// The name of the value's type, for diagnostics.
    pub fn kind_name(&self) -> (r: &'static str)
        ensures
            *self is Boolean ==> r@ == "boolean"@,
            *self is Number ==> r@ == "number"@,
            *self is Nil ==> r@ == "nil"@,
            *self matches Value::Object(o) ==> r@ == object_kind(o),
    {
        match self {
            Value::Boolean(_) => "boolean",
            Value::Number(_) => "number",
            Value::Nil => "nil",
            Value::Object(o) => o.kind_name(),
        }
    }

    /// Falsiness: only `nil` and `false` are false.
    pub fn truth(&self) -> (r: bool)
        ensures
            r == spec_truth(*self),
    {
        truth(self)
    }

    /// Equality without type coercion.
    pub fn equals(&self, other: &Value) -> (r: bool)
        ensures
            r == spec_equals(*self, *other),
    {
        equals(self, other)
    }
}

} // verus!
