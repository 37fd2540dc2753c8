//! Runtime values and the callables among them.
pub mod callable;
pub mod lox_function;
pub mod object;

pub use callable::Callable;
pub use callable::LoxCallable;
pub use lox_function::LoxFunction;
pub use object::Object;
pub use object::ObjectView;
