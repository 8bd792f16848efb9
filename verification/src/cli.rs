//! What the command line front-end computes: the value that a source text yields, and
//! the exit status that stands for a value.

use crate::parser::assemble;
use crate::parser::line_fault_message;
use crate::parser::parse;
use crate::parser::split_lines;
use crate::parser::text_lines;
use crate::runtime::finished;
use crate::runtime::initial_machine;
use crate::runtime::is_label_table;
use crate::runtime::Machine;
use crate::runtime::Runtime;
use crate::runtime::TICK_LIMIT;
use crate::types::has_end;
use crate::types::program_view;
use crate::types::Error;
use crate::types::Instruction;
use crate::types::Integer;
use crate::types::Program;
use vstd::prelude::*;

verus! {

/// Whether `result` is what a run of the program from its initial state gives: the
/// value of register 0 where the run halts, its fault where it fails.
pub open spec fn is_run_of(program: Map<u64, Instruction>, result: Result<Integer, Error>) -> bool {
    exists|labels: Map<u64, u64>, last: Machine, ended: Result<(), Error>|
        {
            &&& is_label_table(program, labels)
            &&& #[trigger] finished(initial_machine(labels), program, TICK_LIMIT, last, ended)
            &&& match ended {
                Ok(_) => result == Ok::<Integer, Error>(last.registers[0]),
                Err(text) => result is Err && result->Err_0@ == text@,
            }
        }
}

/// Runs a program on a fresh machine and returns the value of register 0.
pub fn run_program(program: Program) -> (result: Result<Integer, Error>)
    requires
        has_end(program_view(program)),
    ensures
        is_run_of(program_view(program), result),
{
    let mut rt = Runtime::new(program);
    let ghost start = rt@;
    let ended = rt.run();
    let result = match ended {
        Ok(()) => Ok(rt.output()),
        Err(text) => Err(text),
    };
    assert(finished(
        initial_machine(start.labels),
        program_view(program),
        TICK_LIMIT,
        rt@,
        ended,
    ));
    result
}

/// Assembles a source text, runs it on a fresh machine and returns the value of
/// register 0.
pub fn run_source(input: &str) -> (result: Result<Integer, Error>)
    ensures
        match assemble(text_lines(input@)) {
            Ok(program) => is_run_of(program, result),
            Err((line, fault)) => result is Err && result->Err_0@ == line_fault_message(
                line,
                fault,
            ),
        },
{
    let lines = split_lines(input);
    match parse(&lines) {
        Ok(program) => run_program(program),
        Err(text) => Err(text),
    }
}

/// The exit status that stands for a value: the value itself where it fits in 8 bits.
pub fn exit_status(output: Integer) -> (status: Option<u8>)
    ensures
        status == if output <= u8::MAX {
            Some(output as u8)
        } else {
            None::<u8>
        },
{
    if output <= 255 {
        Some(output as u8)
    } else {
        None
    }
}

} // verus!
