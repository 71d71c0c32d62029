pub mod compiler;
pub mod evaluation;
