//! A toy assembly language, its virtual machine and a small script compiler.

pub mod cli;
pub mod file_format;
pub mod format;
pub mod order;
pub mod parser;
pub mod roundtrip;
pub mod runtime;
pub mod scan;
pub mod script;
pub mod text;
pub mod types;
