//! Compiler from a line-oriented robot-motion script to the statements of a
//! robot-control program, and the splicing of those statements into a template.

pub mod codegen;
pub mod compiler;
pub mod error;
pub mod lines;
pub mod number;
pub mod output;
pub mod parser;
pub mod template;
pub mod text;

pub use crate::codegen::generate_java_from_tokens;
pub use crate::compiler::{compile, compile_file};
pub use crate::error::Error;
pub use crate::output::default_output;
pub use crate::parser::{compile_line, Token};
pub use crate::template::assemble;
