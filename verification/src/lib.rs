//! A tree-walking interpreter for a small dynamically typed scripting
//! language with lexical scoping and first-class functions: a scanner, a
//! recursive-descent parser, a chain of scopes, and an evaluator.
//!
//! A program goes through three stages.
//!
//! * [`scanner::Scanner`] turns the source text into tokens.
//! * [`parser::Parser`] turns the tokens into statements.
//! * [`interpreter::Interpreter`] runs the statements, step by step.
//!
//! Numbers are IEEE-754 doubles, held as their 64-bit patterns. The
//! library compares and negates them itself. It never adds or multiplies
//! two of them, never reads one from its digits and never writes one out;
//! it never prints and never reads a clock. The scanner leaves the value
//! of a number token to its caller, and the interpreter hands such work
//! to its driver: a step returns an [`interpreter::machine::Action`], and
//! the driver answers with an [`interpreter::machine::Event`].
//!
//! Every function states what it does over a model of its data: the
//! scanner over the characters of the source ([`scanner::scan`]), the
//! parser over the grammar ([`parser::grammar`]), the scopes over maps
//! ([`environment`]), the interpreter over the step function of a machine
//! ([`interpreter::semantics`]). What holds of all programs is proved
//! from these: the shape of parsed expressions ([`parser::shape`]), the
//! ways of `break`, `return` and errors, lexical scoping
//! ([`interpreter::laws`]), that scopes and functions stay
//! ([`interpreter::standing`]), and the discipline of the machine's
//! stacks ([`interpreter::balance`]).
pub mod token_type;
pub mod value;
pub mod token;
pub mod text;
pub mod share;
pub mod error;
pub mod scanner;
pub mod expr;
pub mod stmt;
pub mod parser;
pub mod environment;
pub mod native;
pub mod interpreter;
