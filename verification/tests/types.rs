use shitty_vm::format::format_program;
use shitty_vm::types::hash_label;
use shitty_vm::types::Argument;
use shitty_vm::types::Command;
use shitty_vm::types::Program;

#[test]
fn test_command_to_name() {
    assert_eq!(Command::Add.to_name(), "add");
    assert_eq!(Command::Subtract.to_name(), "sub");
    assert_eq!(Command::LabelledData(8421).to_name(), "8421: db")
}

#[test]
fn test_argument_format() {
    assert_eq!(Argument::Absent.format(), "");
    assert_eq!(Argument::Raw(1234).format(), "#1234");
    assert_eq!(Argument::Register(5).format(), "r5");
    assert_eq!(Argument::RawLabel(123456).format(), ":123456");
    assert_eq!(Argument::HeapDeref(123456, 0).format(), "[:123456]");
    assert_eq!(Argument::HeapDeref(123456, 12).format(), "[:123456 + 12]");
    assert_eq!(
        Argument::Literal(vec![116, 101, 115, 116, 105, 110, 103]).format(),
        r#"db "testing""#
    );
    assert_eq!(
        Argument::Literal(vec![116, 101, 115, 116, 105, 110, 103, 9410051]).format(),
        "db 116,101,115,116,105,110,103,9410051"
    );
    assert_eq!(
        Argument::Literal(vec![1, 0, 1, 0, 1, 0]).format(),
        r#"db "\u{1}\0\u{1}\0\u{1}\0""#
    );
    assert_eq!(Argument::Literal(vec![]).format(), "db \"\"");
}

#[test]
fn test_program_format() {
    let data_str = 12529907765057034586;
    let mut program = Program::new();
    program.insert(
        1,
        (
            Command::LabelledData(data_str),
            [Argument::Literal(vec![116, 101, 115, 116, 105, 110, 103]), Argument::Absent],
        ),
    );
    program.insert(2, (Command::Move, [Argument::Register(1), Argument::Raw(1)]));
    program.insert(3, (Command::Move, [Argument::Register(2), Argument::Raw(2)]));
    program.insert(4, (Command::Move, [Argument::Register(3), Argument::Raw(3)]));
    program.insert(5, (Command::Move, [Argument::HeapDeref(data_str, 0), Argument::Register(1)]));
    program.insert(6, (Command::Move, [Argument::HeapDeref(data_str, 1), Argument::Register(2)]));
    program.insert(7, (Command::Move, [Argument::HeapDeref(data_str, 2), Argument::Register(3)]));
    program.insert(8, (Command::Label, [Argument::RawLabel(2184574), Argument::Absent]));

    let expected = r#"12529907765057034586: db "testing"
    mov r1 #1
    mov r2 #2
    mov r3 #3
    mov [:12529907765057034586] r1
    mov [:12529907765057034586 + 1] r2
    mov [:12529907765057034586 + 2] r3
2184574:
"#;

    assert_eq!(expected, format_program(&program));
}

#[test]
fn label_hashes_are_fixed() {
    assert_eq!(hash_label("condition_a"), 8002582286646448037);
    assert_eq!(hash_label("stop"), 15597100844808768705);
    assert_eq!(hash_label("add_one"), 15338766068606827303);
    assert_eq!(hash_label("end"), 1666831356574994304);
    assert_eq!(hash_label("data_str"), 12529907765057034586);
}

#[test]
fn equal_labels_have_equal_hashes() {
    let first = String::from("loop");
    let second = String::from("loop");
    assert_eq!(hash_label(&first), hash_label(&second));
    assert_ne!(hash_label("loop"), hash_label("loop2"));
}

#[test]
fn command_names() {
    assert_eq!(Command::Noop.to_name(), "_");
    assert_eq!(Command::Label.to_name(), "lbl");
    assert_eq!(Command::Branch.to_name(), "b");
    assert_eq!(Command::BranchEqual.to_name(), "be");
    assert_eq!(Command::BranchNotEqual.to_name(), "bne");
    assert_eq!(Command::BranchGreaterEqual.to_name(), "bge");
    assert_eq!(Command::BranchGreater.to_name(), "bg");
    assert_eq!(Command::BranchLesser.to_name(), "bl");
    assert_eq!(Command::BranchLesserEqual.to_name(), "ble");
    assert_eq!(Command::Compare.to_name(), "cmp");
    assert_eq!(Command::Move.to_name(), "mov");
    assert_eq!(Command::Multiply.to_name(), "mul");
    assert_eq!(Command::Divide.to_name(), "div");
    assert_eq!(Command::Modulo.to_name(), "mod");
    assert_eq!(Command::Push.to_name(), "push");
    assert_eq!(Command::Pop.to_name(), "pop");
    assert_eq!(Command::Call.to_name(), "call");
    assert_eq!(Command::Function.to_name(), "func");
    assert_eq!(Command::Return.to_name(), "ret");
}

#[test]
fn format_of_the_remaining_arguments() {
    assert_eq!(Argument::HeapRef(77).format(), "77");
    assert_eq!(Argument::Raw(0).format(), "#0");
    assert_eq!(Argument::Raw(u64::MAX).format(), "#18446744073709551615");
    assert_eq!(Argument::Register(15).format(), "r15");
    assert_eq!(Argument::Literal(vec![0xD800]).format(), "db 55296");
    assert_eq!(Argument::Literal(vec![0x110000, 7]).format(), "db 1114112,7");
    assert_eq!(Argument::Literal(vec![34]).format(), "db \"\\\"\"");
}

#[test]
fn format_trims_the_end_of_a_line() {
    let mut program = Program::new();
    program.insert(4, (Command::Return, [Argument::Absent, Argument::Absent]));
    program.insert(2, (Command::Push, [Argument::Register(3), Argument::Absent]));
    assert_eq!("    push r3\n    ret\n", format_program(&program));
    assert_eq!("", format_program(&Program::new()));
}

#[test]
fn resolve_label_of_arguments() {
    assert_eq!(Argument::RawLabel(9).resolve_label(), Some(9));
    assert_eq!(Argument::Raw(9).resolve_label(), None);
    assert_eq!(Argument::RawLabel(9).resolve_label_or_error(), Ok(9));
    assert_eq!(
        Argument::Absent.resolve_label_or_error(),
        Err(String::from("no valid argument"))
    );
}
