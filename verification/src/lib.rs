pub mod ast;
pub mod builtin;
pub mod definition;
pub mod error;
pub mod exec;
pub mod laws;
pub mod literal;
pub mod logic;
pub mod primitive;
pub mod result;
pub mod scope;
pub mod semantics;
pub mod token;
pub mod userfunc;
