//! A small script language and its compiler.

pub mod ast;
pub mod convert;
pub mod parser;
pub mod table;
