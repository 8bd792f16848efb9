use shitty_vm::format::format_program;
use shitty_vm::parser::parse;
use shitty_vm::parser::parse_from_str;
use shitty_vm::parser::split_lines;
use shitty_vm::types::Argument;
use shitty_vm::types::Command;
use shitty_vm::types::Integer;
use shitty_vm::types::Program;

fn program_of(lines: Vec<(Integer, Command, [Argument; 2])>) -> Program {
    let mut program = Program::new();
    for (index, command, args) in lines {
        program.insert(index, (command, args));
    }
    program
}

#[test]
fn lib_parse_simple_program() {
    let input = r#"
    mov r0 #7
    mov r1 #2
    add r0 r1
    "#;

    let program = parse_from_str(input).unwrap();

    assert_eq!(
        program,
        program_of(vec![
            (1, Command::Move, [Argument::Register(0), Argument::Raw(7)]),
            (2, Command::Move, [Argument::Register(1), Argument::Raw(2)]),
            (3, Command::Add, [Argument::Register(0), Argument::Register(1)]),
        ])
    );
}

#[test]
fn lib_parse_program_with_labels() {
    let input = r#"cmp r0 #10
    bgr :condition_a
    mul r0 #5
    b :stop
condition_a:
    sub r0 #10
stop:
    "#;

    let program = parse_from_str(input).unwrap();
    let condition_a = 8002582286646448037;
    let stop = 15597100844808768705;

    assert_eq!(
        program,
        program_of(vec![
            (0, Command::Compare, [Argument::Register(0), Argument::Raw(10)]),
            (1, Command::BranchGreater, [Argument::RawLabel(condition_a), Argument::Absent]),
            (2, Command::Multiply, [Argument::Register(0), Argument::Raw(5)]),
            (3, Command::Branch, [Argument::RawLabel(stop), Argument::Absent]),
            (4, Command::Label, [Argument::RawLabel(condition_a), Argument::Absent]),
            (5, Command::Subtract, [Argument::Register(0), Argument::Raw(10)]),
            (6, Command::Label, [Argument::RawLabel(stop), Argument::Absent]),
        ])
    );
}

#[test]
fn lib_parse_program_with_calls() {
    let input = r#"mov r0 #15
    call :add_one
    mul r0 #7
    b :end
add_one:
    add r0 #100
    ret
end:
    "#;

    let program = parse_from_str(input).unwrap();
    let add_one = 15338766068606827303;
    let end = 1666831356574994304;

    assert_eq!(
        program,
        program_of(vec![
            (0, Command::Move, [Argument::Register(0), Argument::Raw(15)]),
            (1, Command::Call, [Argument::RawLabel(add_one), Argument::Absent]),
            (2, Command::Multiply, [Argument::Register(0), Argument::Raw(7)]),
            (3, Command::Branch, [Argument::RawLabel(end), Argument::Absent]),
            (4, Command::Label, [Argument::RawLabel(add_one), Argument::Absent]),
            (5, Command::Add, [Argument::Register(0), Argument::Raw(100)]),
            (6, Command::Return, [Argument::Absent, Argument::Absent]),
            (7, Command::Label, [Argument::RawLabel(end), Argument::Absent]),
        ])
    );
}

#[test]
fn lib_parse_program_with_string() {
    let input = r#"
data_str: db "Hallo",0,98
    mov r0 :data_str
    mov r1 [:data_str]
    mov r2 [:data_str+1]
    mov r3 [ :data_str + 2 ]
    "#;

    let program = parse_from_str(input).unwrap();
    let data_str = 12529907765057034586;

    assert_eq!(
        program,
        program_of(vec![
            (
                1,
                Command::LabelledData(data_str),
                [
                    Argument::Literal("Hallo\0b".chars().map(|x| x as Integer).collect()),
                    Argument::Absent
                ]
            ),
            (2, Command::Move, [Argument::Register(0), Argument::RawLabel(data_str)]),
            (3, Command::Move, [Argument::Register(1), Argument::HeapDeref(data_str, 0)]),
            (4, Command::Move, [Argument::Register(2), Argument::HeapDeref(data_str, 1)]),
            (5, Command::Move, [Argument::Register(3), Argument::HeapDeref(data_str, 2)]),
        ])
    );
}

#[test]
fn every_mnemonic_is_known() {
    let input = "mov r1 r2\nadd r1 #1\nsub r1 #1\nmul r1 #2\ndiv r1 #2\nbgr :a\nbge :a\nbl :a\nble :a\nbeq :a\nbne :a\nb :a\ncmp r1 r2\ncall :a\npush r15\npop r10\nret";
    let program = parse_from_str(input).unwrap();
    let commands: Vec<Command> = program.values().map(|entry| entry.0).collect();
    assert_eq!(
        commands,
        vec![
            Command::Move,
            Command::Add,
            Command::Subtract,
            Command::Multiply,
            Command::Divide,
            Command::BranchGreater,
            Command::BranchGreaterEqual,
            Command::BranchLesser,
            Command::BranchLesserEqual,
            Command::BranchEqual,
            Command::BranchNotEqual,
            Command::Branch,
            Command::Compare,
            Command::Call,
            Command::Push,
            Command::Pop,
            Command::Return,
        ]
    );
    assert_eq!(program[&14].1, [Argument::Register(15), Argument::Absent]);
    assert_eq!(program[&15].1, [Argument::Register(10), Argument::Absent]);
}

#[test]
fn malformed_lines_are_reported_with_their_index() {
    assert_eq!(
        parse_from_str("mov r0 #1\n\nfoo r0"),
        Err(String::from("line 2: invalid command"))
    );
    assert_eq!(parse_from_str("mov"), Err(String::from("line 0: missing arguments")));
    assert_eq!(parse_from_str("mov r16 #1"), Err(String::from("line 0: invalid argument")));
    assert_eq!(parse_from_str("mov r0 #"), Err(String::from("line 0: invalid argument")));
    assert_eq!(
        parse_from_str("mov r0 #18446744073709551616"),
        Err(String::from("line 0: invalid argument"))
    );
    assert_eq!(parse_from_str("mov r0 R1"), Err(String::from("line 0: invalid argument")));
    assert_eq!(parse_from_str("x: db nothing"), Err(String::from("line 0: invalid db literal")));
    assert_eq!(parse_from_str("x: db [1]"), Err(String::from("line 0: invalid db literal")));
    assert_eq!(parse_from_str("x: db true"), Err(String::from("line 0: invalid db literal")));
    assert_eq!(parse_from_str("x: db \"a,b\""), Err(String::from("line 0: invalid db literal")));
    assert_eq!(parse_from_str("x: db"), Err(String::from("line 0: invalid db literal")));
    assert_eq!(parse_from_str("123"), Err(String::from("line 0: invalid command")));
}

#[test]
fn operands_in_all_their_forms() {
    let program = parse_from_str("mov r0 #18446744073709551615\nmov r1 [:a+7]\nmov r2 [ :a + 7 ]\nmov r3 [:a+b]\npush #007\nx: db 1.9, -4, \"\", 3e2").unwrap();
    assert_eq!(program[&0].1[1], Argument::Raw(u64::MAX));
    let a = shitty_vm::types::hash_label("a");
    assert_eq!(program[&1].1[1], Argument::HeapDeref(a, 7));
    assert_eq!(program[&2].1[1], Argument::HeapDeref(a, 7));
    assert_eq!(
        program[&3].1[1],
        Argument::HeapDeref(shitty_vm::types::hash_label("a+b"), 0)
    );
    assert_eq!(program[&4].1[0], Argument::Raw(0));
    assert_eq!(
        program[&5],
        (
            Command::LabelledData(shitty_vm::types::hash_label("x")),
            [Argument::Literal(vec![1, 0, 300]), Argument::Absent]
        )
    );
}

#[test]
fn lines_are_split_at_line_feeds() {
    assert_eq!(split_lines(""), Vec::<String>::new());
    assert_eq!(split_lines("a"), vec![String::from("a")]);
    assert_eq!(split_lines("a\n"), vec![String::from("a")]);
    assert_eq!(
        split_lines("a\r\n\nb\r"),
        vec![String::from("a"), String::new(), String::from("b\r")]
    );
    assert_eq!(split_lines("\r\r\n"), vec![String::from("\r")]);
}

#[test]
fn parse_takes_lines_that_were_read() {
    let lines = vec![String::from("  "), String::from("ret"), String::from("end:")];
    let program = parse(&lines).unwrap();
    assert_eq!(
        program,
        program_of(vec![
            (1, Command::Return, [Argument::Absent, Argument::Absent]),
            (
                2,
                Command::Label,
                [Argument::RawLabel(shitty_vm::types::hash_label("end")), Argument::Absent]
            ),
        ])
    );
    assert_eq!(parse(&Vec::new()), Ok(Program::new()));
}

#[test]
fn a_plain_listing_assembles_to_the_program_it_lists() {
    let program = program_of(vec![
        (0, Command::Move, [Argument::Register(0), Argument::Raw(7)]),
        (1, Command::Compare, [Argument::Register(15), Argument::Raw(u64::MAX)]),
        (2, Command::Push, [Argument::Raw(0), Argument::Absent]),
        (3, Command::Pop, [Argument::Register(10), Argument::Absent]),
        (4, Command::Divide, [Argument::Register(1), Argument::Register(2)]),
        (5, Command::Return, [Argument::Absent, Argument::Absent]),
    ]);
    let listing = format_program(&program);
    assert_eq!(
        listing,
        "    mov r0 #7\n    cmp r15 #18446744073709551615\n    push #0\n    pop r10\n    div r1 r2\n    ret\n"
    );
    assert_eq!(parse_from_str(&listing), Ok(program));
}

#[test]
fn a_listing_with_labels_assembles_to_other_labels() {
    let program = program_of(vec![(0, Command::Label, [Argument::RawLabel(5), Argument::Absent])]);
    let listing = format_program(&program);
    assert_eq!(listing, "5:\n");
    assert_eq!(
        parse_from_str(&listing),
        Ok(program_of(vec![(
            0,
            Command::Label,
            [Argument::RawLabel(shitty_vm::types::hash_label("5")), Argument::Absent]
        )]))
    );
}
