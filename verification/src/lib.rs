pub mod compiler;
pub mod error;
pub mod interpreter;
pub mod parser;
pub mod properties;
pub mod text;
pub mod transpiler;
