use shitty_vm::cli::exit_status;
use shitty_vm::cli::run_program;
use shitty_vm::cli::run_source;
use shitty_vm::file_format::FileStructure;
use shitty_vm::file_format::VERSION;
use shitty_vm::types::Argument;
use shitty_vm::types::Command;
use shitty_vm::types::Program;

#[test]
fn run_from_text() {
    assert!(run_source("mov r0 #24").is_ok());

    assert!(run_source("invalid r0 #24").is_err());
}

#[test]
fn run_source_gives_register_zero() {
    assert_eq!(run_source("mov r0 #24"), Ok(24));
    assert_eq!(run_source(""), Ok(0));
    assert_eq!(run_source("mov r0 #123\nmov r1 #321\nadd r0 r1"), Ok(444));
    assert_eq!(run_source("b :nowhere"), Err(String::from("Label not found")));
    assert_eq!(run_source("invalid r0 #24"), Err(String::from("line 0: invalid command")));
}

#[test]
fn exit_status_is_the_value_in_eight_bits() {
    assert_eq!(exit_status(0), Some(0));
    assert_eq!(exit_status(255), Some(255));
    assert_eq!(exit_status(256), None);
    assert_eq!(exit_status(u64::MAX), None);
}

#[test]
fn a_container_has_the_version_that_is_defined() {
    let mut program = Program::new();
    program.insert(1, (Command::Move, [Argument::Register(0), Argument::Raw(7)]));
    let file = FileStructure::new(program.clone());
    assert_eq!(file.version, 0);
    assert_eq!(file.version, VERSION);
    assert_eq!(file.program, program);
    assert_eq!(run_program(file.program), Ok(7));
}
