pub mod compiler;
pub mod error;
pub mod text;
pub mod vm;
