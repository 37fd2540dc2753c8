//! Functions that a program declares.
use vstd::prelude::*;
use std::rc::Rc;
use crate::interpreter::machine::Action;
use crate::interpreter::semantics::call_function;
use crate::interpreter::turned;
use crate::interpreter::Interpreter;
use crate::share::share;
use crate::value::object::Object;
use crate::stmt::FunctionStmt;
use crate::stmt::Stmt;
use crate::token::Token;

verus! {

/// A declared function with the scope it was declared in: its closure.
/// The parameter list and the body are shared with the declaration.
#[derive(Debug)]
pub struct LoxFunction {
    pub name: Token,
    pub params: Rc<Vec<Token>>,
    pub body: Rc<Vec<Rc<Stmt>>>,
    pub closure: usize,
}

/// How a function shows when printed.
pub open spec fn function_text(name: Seq<char>) -> Seq<char> {
    "<Func "@ + name + ">"@
}

impl LoxFunction {
    /// The function that `declaration` declares in scope `closure`.
    pub fn new(declaration: &FunctionStmt, closure: usize) -> (function: Self)
        ensures
            function == (LoxFunction {
                name: declaration.name,
                params: declaration.params,
                body: declaration.body,
                closure,
            }),
    {
        Self {
            params: share(&declaration.params),
            name: declaration.name.clone(),
            body: share(&declaration.body),
            closure,
        }
    }

    /// How the function shows when printed.
    pub fn to_string(&self) -> (text: String)
        ensures
            text@ == function_text(self.name.lexeme@),
    {
        String::from_str("<Func ").concat(self.name.lexeme.as_str()).concat(">")
    }

    /// Calls the function with as many arguments as it has parameters:
    /// binds the parameters to them in a new scope inside the closure, and
    /// takes up the body as a block in that scope, above the boundary at
    /// which `return` ends and from which the caller's scope is entered
    /// again. The steps that follow run the body; its value comes on top of
    /// the caller's values.
    pub fn call(&self, interpreter: &mut Interpreter, arguments: Vec<Object>) -> (action: Action)
        requires
            old(interpreter).wf(),
            self.closure < old(interpreter)@.scopes.len(),
            self.params@.len() == arguments@.len(),
        ensures
            final(interpreter).wf(),
            turned(
                final(interpreter)@,
                action@,
                call_function(
                    old(interpreter)@,
                    self.params@,
                    self.body@,
                    self.closure,
                    arguments@,
                ),
            ),
    {
        interpreter.call(share(&self.params), share(&self.body), self.closure, arguments)
    }

    /// The number of parameters.
    pub fn arity(&self) -> (count: usize)
        ensures
            count == self.params@.len(),
    {
        self.params.len()
    }
}

} // verus!
