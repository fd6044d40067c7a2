pub mod code;
pub mod compiler;
pub mod parser;
pub mod strutil;
pub mod typ;
