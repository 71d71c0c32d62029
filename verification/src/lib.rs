pub mod data;
pub mod text;
pub mod parsing;
pub mod compiling;
pub mod vm;
