//! Function values and what they stand for.
use vstd::prelude::*;
use crate::value::lox_function::function_text;
use crate::value::lox_function::LoxFunction;

verus! {

/// A function value: the place of a callable in the interpreter's table.
/// Two function values are the same function exactly when their places
/// are equal.
#[derive(Debug, PartialEq, Eq, Clone, Copy, Structural)]
pub struct LoxCallable {
    pub func: usize,
}

/// A function of the driver, known by its name and its arity only.
#[derive(Debug)]
pub struct NativeFunction {
    pub name: String,
    pub arity: usize,
}

/// What can be called.
#[derive(Debug)]
pub enum Callable {
    Native(NativeFunction),
    Function(LoxFunction),
}

/// How a native function shows when printed.
pub open spec fn native_text(name: Seq<char>) -> Seq<char> {
    "<native "@ + name + ">"@
}

impl Callable {
    /// The number of arguments that a call must give.
    pub open spec fn spec_arity(&self) -> nat {
        match self {
            Callable::Native(native) => native.arity as nat,
            Callable::Function(function) => function.params@.len(),
        }
    }

    /// How the callable shows when printed.
    pub open spec fn text(&self) -> Seq<char> {
        match self {
            Callable::Native(native) => native_text(native.name@),
            Callable::Function(function) => function_text(function.name.lexeme@),
        }
    }

    /// The number of arguments that a call must give.
    pub fn arity(&self) -> (count: usize)
        ensures
            count == self.spec_arity(),
    {
        match self {
            Callable::Native(native) => native.arity,
            Callable::Function(function) => function.arity(),
        }
    }

    /// How the callable shows when printed.
    pub fn to_string(&self) -> (text: String)
        ensures
            text@ == self.text(),
    {
        match self {
            Callable::Native(native) => String::from_str("<native ").concat(
                native.name.as_str(),
            ).concat(">"),
            Callable::Function(function) => function.to_string(),
        }
    }
}

} // verus!
