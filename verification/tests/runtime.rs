use shitty_vm::runtime::can_run;
use shitty_vm::runtime::Runtime;
use shitty_vm::types::Argument;
use shitty_vm::types::Command;
use shitty_vm::types::Integer;
use shitty_vm::types::Program;

fn program_of(lines: Vec<(Integer, Command, [Argument; 2])>) -> Program {
    let mut program = Program::new();
    for (index, command, args) in lines {
        program.insert(index, (command, args));
    }
    program
}

#[test]
fn simple_add_test() {
    let mut rt = Runtime::new(program_of(vec![
        (0, Command::Move, [Argument::Register(0), Argument::Raw(123)]),
        (1, Command::Move, [Argument::Register(1), Argument::Raw(321)]),
        (2, Command::Add, [Argument::Register(0), Argument::Register(1)]),
    ]));

    rt.run().unwrap();

    assert_eq!(444, rt.output())
}

#[test]
fn empty_lines_test() {
    let mut rt = Runtime::new(program_of(vec![
        (1, Command::Move, [Argument::Register(0), Argument::Raw(123)]),
        (3, Command::Move, [Argument::Register(1), Argument::Raw(321)]),
        (7, Command::Add, [Argument::Register(0), Argument::Register(1)]),
    ]));

    rt.run().unwrap();

    assert_eq!(444, rt.output())
}

#[test]
fn for_loop_test() {
    let start = 1254;
    let stop = 666;
    let mut rt = Runtime::new(program_of(vec![
        (0, Command::Label, [Argument::RawLabel(start), Argument::Absent]),
        (1, Command::Add, [Argument::Register(0), Argument::Raw(1)]),
        (2, Command::Compare, [Argument::Register(0), Argument::Raw(10)]),
        (3, Command::BranchGreaterEqual, [Argument::RawLabel(stop), Argument::Absent]),
        (4, Command::Branch, [Argument::RawLabel(start), Argument::Absent]),
        (5, Command::Label, [Argument::RawLabel(stop), Argument::Absent]),
    ]));

    rt.run().unwrap();

    assert_eq!(10, rt.output())
}

#[test]
fn if_statement_test() {
    let condition_a = 8411;
    let stop = 8419;

    let prepared_rt = Runtime::new(program_of(vec![
        (0, Command::Compare, [Argument::Register(0), Argument::Raw(10)]),
        (1, Command::BranchGreater, [Argument::RawLabel(condition_a), Argument::Absent]),
        (2, Command::Multiply, [Argument::Register(0), Argument::Raw(5)]),
        (3, Command::Branch, [Argument::RawLabel(stop), Argument::Absent]),
        (4, Command::Label, [Argument::RawLabel(condition_a), Argument::Absent]),
        (5, Command::Subtract, [Argument::Register(0), Argument::Raw(10)]),
        (6, Command::Label, [Argument::RawLabel(stop), Argument::Absent]),
    ]));

    let mut rt = prepared_rt.clone();
    assert!(rt.set_register(0, 12));
    rt.run().unwrap();
    assert_eq!(2, rt.output());

    let mut rt = prepared_rt.clone();
    assert!(rt.set_register(0, 8));
    rt.run().unwrap();
    assert_eq!(40, rt.output())
}

#[test]
fn push_pop_test() {
    let mut rt = Runtime::new(program_of(vec![
        (0, Command::Move, [Argument::Register(0), Argument::Raw(15)]),
        (1, Command::Push, [Argument::Register(0), Argument::Absent]),
        (2, Command::Move, [Argument::Register(0), Argument::Raw(11)]),
        (3, Command::Push, [Argument::Register(0), Argument::Absent]),
        (4, Command::Move, [Argument::Register(0), Argument::Raw(9)]),
        (5, Command::Push, [Argument::Register(0), Argument::Absent]),
        (6, Command::Pop, [Argument::Register(2), Argument::Absent]),
        (7, Command::Pop, [Argument::Register(1), Argument::Absent]),
    ]));

    rt.run().unwrap();

    assert_eq!(rt.register(2), Some(9));
    assert_eq!(rt.register(1), Some(11));
    assert_eq!(rt.stack(), &vec![15])
}

#[test]
fn call_return_test() {
    let add_one = 8411;
    let end = 18427;

    let mut rt = Runtime::new(program_of(vec![
        (0, Command::Move, [Argument::Register(0), Argument::Raw(15)]),
        (1, Command::Call, [Argument::RawLabel(add_one), Argument::Absent]),
        (2, Command::Multiply, [Argument::Register(0), Argument::Raw(7)]),
        (3, Command::Branch, [Argument::RawLabel(end), Argument::Absent]),
        (4, Command::Label, [Argument::RawLabel(add_one), Argument::Absent]),
        (5, Command::Add, [Argument::Register(0), Argument::Raw(100)]),
        (6, Command::Return, [Argument::Absent, Argument::Absent]),
        (7, Command::Label, [Argument::RawLabel(end), Argument::Absent]),
    ]));

    rt.run().unwrap();

    assert_eq!(805, rt.output());
}

#[test]
fn string_literal() {
    let data_str = 12529907765057034586;
    let data_str2 = 12529904465057034586;

    let mut rt = Runtime::new(program_of(vec![
        (1, Command::LabelledData(data_str), [Argument::Literal("Hallo\0".chars().map(|x| x as Integer).collect()), Argument::Absent]),
        (2, Command::LabelledData(data_str2), [Argument::Literal("Test\0".chars().map(|x| x as Integer).collect()), Argument::Absent]),
        (3, Command::Move, [Argument::Register(1), Argument::RawLabel(data_str)]),
        (4, Command::Move, [Argument::Register(0), Argument::RawLabel(data_str2)]),
        (5, Command::Move, [Argument::Register(2), Argument::HeapDeref(data_str, 0)]),
        (6, Command::Move, [Argument::Register(3), Argument::HeapDeref(data_str, 1)]),
    ]));

    rt.run().unwrap();

    assert_eq!(Some(1), rt.register(0));
    assert_eq!(Some(0), rt.register(1));
    assert_eq!(Some(b'H' as Integer), rt.register(2));
    assert_eq!(Some(b'a' as Integer), rt.register(3));
}

fn machine(lines: Vec<(Command, [Argument; 2])>) -> Runtime {
    let mut program = Program::new();
    for (index, (command, args)) in lines.into_iter().enumerate() {
        program.insert(index as Integer, (command, args));
    }
    Runtime::new(program)
}

#[test]
fn an_empty_program_halts_at_once() {
    let mut rt = Runtime::new(Program::new());
    assert_eq!(rt.run(), Ok(()));
    assert_eq!(rt.output(), 0);
    assert_eq!(rt.program_counter(), 0);
}

#[test]
fn a_halted_machine_has_passed_the_last_line() {
    let mut rt = machine(vec![
        (Command::Branch, [Argument::RawLabel(1), Argument::Absent]),
        (Command::Noop, [Argument::Absent, Argument::Absent]),
        (Command::Label, [Argument::RawLabel(1), Argument::Absent]),
    ]);
    assert_eq!(rt.run(), Ok(()));
    assert_eq!(rt.program_counter(), 3);
    assert_eq!(rt.tick(3), Ok(true));
    assert_eq!(rt.program_counter(), 3);
}

#[test]
fn the_label_table_has_the_last_line_of_each_label() {
    let mut rt = machine(vec![
        (Command::Label, [Argument::RawLabel(5), Argument::Absent]),
        (Command::Noop, [Argument::Absent, Argument::Absent]),
        (Command::Label, [Argument::RawLabel(5), Argument::Absent]),
        (Command::Label, [Argument::RawLabel(6), Argument::Absent]),
    ]);
    assert_eq!(rt.resolve_argument_or_error(&Argument::RawLabel(5)), Ok(2));
    assert_eq!(rt.resolve_argument_or_error(&Argument::RawLabel(6)), Ok(3));
    assert_eq!(
        rt.resolve_argument_or_error(&Argument::RawLabel(7)),
        Err(String::from("no valid argument"))
    );
    assert_eq!(rt.run(), Ok(()));
}

#[test]
fn push_then_pop_gives_the_value_back() {
    let mut rt = machine(vec![]);
    let none = Argument::Absent;
    assert_eq!(rt.apply_command(&Command::Push, &[Argument::Raw(77), none.clone()]), Ok(()));
    assert_eq!(rt.stack(), &vec![77]);
    assert_eq!(rt.apply_command(&Command::Pop, &[Argument::Register(4), none.clone()]), Ok(()));
    assert_eq!(rt.stack(), &Vec::<Integer>::new());
    assert_eq!(rt.register(4), Some(77));
    assert_eq!(rt.apply_command(&Command::Pop, &[Argument::Register(5), none.clone()]), Ok(()));
    assert_eq!(rt.register(5), Some(0));
    assert_eq!(rt.program_counter(), 3);
}

#[test]
fn arithmetic_wraps_and_sets_the_overflow_flag() {
    let mut rt = machine(vec![]);
    assert!(rt.set_register(0, u64::MAX));
    assert_eq!(rt.apply_command(&Command::Add, &[Argument::Register(0), Argument::Raw(2)]), Ok(()));
    assert_eq!(rt.output(), 1);
    assert!(rt.overflow());
    assert_eq!(rt.apply_command(&Command::Subtract, &[Argument::Register(0), Argument::Raw(3)]), Ok(()));
    assert_eq!(rt.output(), u64::MAX - 1);
    assert!(rt.overflow());
    assert_eq!(rt.apply_command(&Command::Multiply, &[Argument::Register(0), Argument::Raw(2)]), Ok(()));
    assert_eq!(rt.output(), u64::MAX - 3);
    assert!(rt.overflow());
    assert_eq!(rt.apply_command(&Command::Divide, &[Argument::Register(0), Argument::Raw(4)]), Ok(()));
    assert_eq!(rt.output(), (u64::MAX - 3) / 4);
    assert!(!rt.overflow());
}

#[test]
fn faults_of_instructions() {
    let none = Argument::Absent;
    let mut rt = machine(vec![]);
    let no_value = Err(String::from("no valid argument"));
    let invalid = Err(String::from("Invalid argument"));
    assert_eq!(rt.apply_command(&Command::Move, &[Argument::Register(0), none.clone()]), no_value);
    assert_eq!(rt.apply_command(&Command::Move, &[Argument::Register(0), Argument::Literal(vec![1])]), no_value);
    assert_eq!(rt.apply_command(&Command::Move, &[Argument::Register(0), Argument::Register(16)]), no_value);
    assert_eq!(rt.apply_command(&Command::Move, &[Argument::Register(0), Argument::HeapRef(1)]), no_value);
    assert_eq!(rt.apply_command(&Command::Move, &[Argument::Register(0), Argument::HeapDeref(1, 0)]), no_value);
    assert_eq!(rt.apply_command(&Command::Move, &[Argument::Register(16), Argument::Raw(1)]), invalid);
    assert_eq!(rt.apply_command(&Command::Move, &[Argument::HeapRef(1), Argument::Raw(1)]), invalid);
    assert_eq!(rt.apply_command(&Command::Move, &[Argument::Raw(1), Argument::Raw(1)]), invalid);
    assert_eq!(rt.apply_command(&Command::Add, &[Argument::Raw(1), Argument::Raw(1)]), invalid);
    assert_eq!(rt.apply_command(&Command::Compare, &[none.clone(), Argument::Raw(1)]), no_value);
    assert_eq!(rt.apply_command(&Command::Push, &[none.clone(), none.clone()]), no_value);
    assert_eq!(
        rt.apply_command(&Command::Branch, &[Argument::RawLabel(9), none.clone()]),
        Err(String::from("Label not found"))
    );
    assert_eq!(rt.apply_command(&Command::Branch, &[Argument::Raw(9), none.clone()]), no_value);
    assert_eq!(
        rt.apply_command(&Command::Divide, &[Argument::Register(0), Argument::Raw(0)]),
        Err(String::from("Division by zero"))
    );
    assert_eq!(
        rt.apply_command(&Command::Modulo, &[Argument::Register(0), Argument::Raw(1)]),
        Err(String::from("Invalid calculate command"))
    );
    assert_eq!(
        rt.apply_command(&Command::Function, &[none.clone(), none.clone()]),
        Err(String::from("Invalid calculate command"))
    );
    assert_eq!(
        rt.apply_command(&Command::LabelledData(3), &[Argument::Raw(1), none.clone()]),
        Err(String::from("argument can only be literal"))
    );
    assert_eq!(rt.program_counter(), 0);
    assert_eq!(rt.stack(), &Vec::<Integer>::new());

    assert_eq!(rt.apply_command(&Command::Push, &[Argument::Raw(5), none.clone()]), Ok(()));
    assert_eq!(rt.apply_command(&Command::Pop, &[Argument::Raw(5), none.clone()]), invalid);
    assert_eq!(rt.stack(), &vec![5]);
    assert_eq!(
        rt.apply_command(&Command::Call, &[Argument::RawLabel(9), none.clone()]),
        Err(String::from("Label not found"))
    );
    assert_eq!(rt.stack(), &vec![5, 1]);
}

#[test]
fn compare_sets_exactly_one_flag() {
    let mut rt = machine(vec![]);
    rt.apply_command(&Command::Compare, &[Argument::Raw(1), Argument::Raw(2)]).unwrap();
    assert_eq!((rt.equal(), rt.greater(), rt.less()), (false, false, true));
    rt.apply_command(&Command::Compare, &[Argument::Raw(2), Argument::Raw(2)]).unwrap();
    assert_eq!((rt.equal(), rt.greater(), rt.less()), (true, false, false));
    rt.apply_command(&Command::Compare, &[Argument::Raw(3), Argument::Raw(2)]).unwrap();
    assert_eq!((rt.equal(), rt.greater(), rt.less()), (false, true, false));
}

#[test]
fn writes_to_heap_cells_and_label_entries() {
    let mut rt = machine(vec![]);
    let none = Argument::Absent;
    rt.apply_command(&Command::LabelledData(3), &[Argument::Literal(vec![10, 20]), none.clone()]).unwrap();
    rt.apply_command(&Command::Add, &[Argument::HeapDeref(3, 1), Argument::Raw(5)]).unwrap();
    assert_eq!(rt.resolve_argument_or_error(&Argument::HeapDeref(3, 1)), Ok(25));
    assert_eq!(rt.resolve_argument_or_error(&Argument::HeapDeref(3, 2)), Err(String::from("no valid argument")));
    assert_eq!(rt.resolve_argument_or_error(&Argument::HeapRef(3)), Ok(0));
    rt.apply_command(&Command::Push, &[Argument::Raw(9), none.clone()]).unwrap();
    rt.apply_command(&Command::Pop, &[Argument::RawLabel(3), none.clone()]).unwrap();
    assert_eq!(rt.resolve_argument_or_error(&Argument::RawLabel(3)), Ok(9));
}

#[test]
fn the_program_counter_wraps() {
    let mut rt = machine(vec![]);
    let none = Argument::Absent;
    rt.apply_command(&Command::Push, &[Argument::Raw(u64::MAX), none.clone()]).unwrap();
    rt.apply_command(&Command::Return, &[none.clone(), none.clone()]).unwrap();
    assert_eq!(rt.program_counter(), 0);
}

#[test]
fn with_debug_keeps_the_machine() {
    let rt = machine(vec![(Command::Noop, [Argument::Absent, Argument::Absent])]).with_debug(true);
    assert!(rt.is_debug());
    assert_eq!(rt.program_counter(), 0);
}

#[test]
fn tick_steps_over_gaps() {
    let mut program = Program::new();
    program.insert(2, (Command::Move, [Argument::Register(0), Argument::Raw(1)]));
    let mut rt = Runtime::new(program);
    assert_eq!(rt.tick(3), Ok(false));
    assert_eq!(rt.program_counter(), 1);
    assert_eq!(rt.tick(3), Ok(false));
    assert_eq!(rt.tick(3), Ok(false));
    assert_eq!(rt.output(), 1);
    assert_eq!(rt.tick(3), Ok(true));
}

#[test]
fn the_trace_shows_the_registers_that_are_not_zero() {
    let mut rt = machine(vec![]);
    assert_eq!(rt.registers_line(), "0 => ");
    assert!(rt.set_register(1, 7));
    assert!(rt.set_register(12, 300));
    rt.apply_command(&Command::Noop, &[Argument::Absent, Argument::Absent]).unwrap();
    assert_eq!(rt.registers_line(), "1 => r1: 7|r12: 300|");
}

#[test]
fn a_copy_of_a_machine_runs_on_its_own() {
    let mut rt = machine(vec![(Command::Move, [Argument::Register(0), Argument::Raw(3)])]);
    let mut copy = rt.clone();
    rt.run().unwrap();
    assert_eq!(rt.output(), 3);
    assert_eq!(copy.output(), 0);
    copy.run().unwrap();
    assert_eq!(copy.output(), 3);
}

#[test]
fn a_run_stops_when_its_ticks_are_used_up() {
    let forever = vec![
        (Command::Label, [Argument::RawLabel(1), Argument::Absent]),
        (Command::Add, [Argument::Register(0), Argument::Raw(1)]),
        (Command::Branch, [Argument::RawLabel(1), Argument::Absent]),
    ];
    let mut rt = machine(forever.clone()).with_tick_limit(7);
    assert_eq!(rt.ticks_allowed(), 7);
    assert_eq!(rt.run(), Err(String::from("tick limit reached")));
    assert_eq!(rt.output(), 3);
    assert_eq!(rt.program_counter(), 1);

    let mut rt = machine(forever).with_tick_limit(0);
    assert_eq!(rt.run(), Err(String::from("tick limit reached")));
    assert_eq!(rt.output(), 0);

    let rt = machine(vec![]);
    assert_eq!(rt.ticks_allowed(), u64::MAX);
}

#[test]
fn a_run_needs_one_tick_more_than_it_has_lines_to_pass() {
    let lines = vec![
        (Command::Move, [Argument::Register(0), Argument::Raw(1)]),
        (Command::Move, [Argument::Register(0), Argument::Raw(2)]),
    ];
    let mut rt = machine(lines.clone()).with_tick_limit(3);
    assert_eq!(rt.run(), Ok(()));
    assert_eq!(rt.output(), 2);
    let mut rt = machine(lines).with_tick_limit(2);
    assert_eq!(rt.run(), Err(String::from("tick limit reached")));
    assert_eq!(rt.output(), 2);
}

#[test]
fn a_program_can_run_if_its_last_line_has_a_line_after_it() {
    let mut program = Program::new();
    assert!(can_run(&program));
    program.insert(u64::MAX - 1, (Command::Noop, [Argument::Absent, Argument::Absent]));
    assert!(can_run(&program));
    program.insert(u64::MAX, (Command::Noop, [Argument::Absent, Argument::Absent]));
    assert!(!can_run(&program));
}
