//! The versioned container of a program.

use crate::types::Program;
use vstd::prelude::*;

verus! {

/// The only version of the container that is defined.
pub const VERSION: usize = 0;

/// A program with the version of the container that holds it.
#[derive(Debug, PartialEq)]
pub struct FileStructure {
    pub version: usize,
    pub program: Program,
}

impl FileStructure {
    /// The container of a program, in the version that this library defines.
    pub fn new(program: Program) -> (file: Self)
        ensures
            file.version == VERSION,
            file.program == program,
    {
        FileStructure { version: 0, program }
    }
}

} // verus!
