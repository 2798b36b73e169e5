//! The machine's run-time errors.
use vstd::prelude::*;
use crate::value::Value;

verus! {

/// An arithmetic operator, as an integer-overflow error names it.
#[derive(Clone, Copy, PartialEq, Eq, Structural, Debug)]
pub enum IntOp {
    Add,
    Sub,
    Mul,
    Div,
    Rem,
    Pow,
}

/// A run-time error raised by an operation.
#[derive(Clone, Copy, PartialEq, Eq, Structural, Debug)]
pub enum RuntimeError {
    /// `lhs op rhs` left the 64-bit integer range.
    IntegerOverflow { op: IntOp, lhs: i64, rhs: i64 },
    /// `-(operand)` left the 64-bit integer range.
    NegationOverflow { operand: i64 },
    /// A division (`modulo == false`) or remainder (`modulo == true`) by zero.
    DivisionByZero { modulo: bool },
    /// An integer power with a negative exponent.
    NegativeExponent,
    /// A bigint power with an exponent beyond `u32::MAX`.
    ExponentTooLarge,
    /// A backward jump past the start of the code.
    LoopNegativeIp,
    /// An opcode byte that names no instruction.
    UnknownOpcode { byte: u8 },
    /// A null assertion met `null`.
    NullAssertion,
    /// The enum-tag read met a value that is not an enum variant.
    NotEnumVariant,
    /// An index read or write on a value that has no elements.
    NotIndexable { write: bool },
    /// A write into a tuple.
    CannotMutateTuple,
    /// An array operation on a value that is not an array.
    NotAnArray { array_op: ArrayOp },
    /// An array extension where either side is not an array.
    NotArrays,
    /// An object operation on a value that is not an object.
    NotAnObject { object_op: ObjectOp },
    /// A class operation on a value that is not a class.
    ExpectedClass,
    /// Inheritance into a value that is not a class.
    NotAClass,
    /// A `super` read in a class without a superclass.
    NoSuperclass,
    /// A `super` read of a method the superclass does not have.
    MethodNotFound,
    /// A numeric conversion of a value that is not a number.
    NotNumeric,
    /// A numeric conversion to `int` of a number outside the 64-bit range.
    IntOutOfRange,
    /// A call of `null`.
    NullCallee,
    /// A call of `callee`, a value that is not callable.
    NotCallable { callee: Value },
    /// A call of a bound method whose method is neither a closure nor a host
    /// function.
    InvalidBoundMethod,
    /// A property read or write on `null`.
    PropertyOfNull,
    /// A property write on a value that takes none.
    CannotSetProperty,
    /// A call that would run deeper than the machine's call depth limit.
    StackOverflow,
}

/// The array operation that an error names.
#[derive(Clone, Copy, PartialEq, Eq, Structural, Debug)]
pub enum ArrayOp {
    Length,
    Push,
    Pop,
}

/// The object operation that an error names.
#[derive(Clone, Copy, PartialEq, Eq, Structural, Debug)]
pub enum ObjectOp {
    Keys,
    Rest,
}

/// Why an operation on values gave no result.
#[derive(Clone, Copy, PartialEq, Eq, Structural, Debug)]
pub enum VmError {
    /// A run-time error of the program.
    Runtime(RuntimeError),
    /// The operands take a path that happens outside this library: float
    /// arithmetic or comparison, decimal division, decimals beyond the scale
    /// limit, or the conversion of a non-integer to an index or of a value
    /// to its string form.
    Deferred,
}

} // verus!
