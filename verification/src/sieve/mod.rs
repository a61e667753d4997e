pub mod error;
pub mod grammar;
pub mod instruction;
pub mod lexer;
pub mod matching;
pub mod message;
pub mod runtime;
pub mod script;
pub mod string;
pub mod syntax;

pub use runtime::{execute, execute_with_fields};
pub use error::CompileError;
pub use script::{Compiler, CompilerLimits, Envelope, Limits, Outcome, Script, CAPABILITIES};
