use shitty_vm::parser::parse_from_str;
use shitty_vm::runtime::Runtime;
use shitty_vm::script::convert::script_to_program;
use shitty_vm::script::parser::parse;
use shitty_vm::types::Argument;
use shitty_vm::types::Command;
use shitty_vm::types::Program;

#[test]
fn two_register_add() {
    let program = parse_from_str("mov r0 #123\nmov r1 #321\nadd r0 r1").unwrap();
    let mut rt = Runtime::new(program);
    rt.run().unwrap();
    assert_eq!(rt.output(), 444);
}

#[test]
fn conditional_branch_on_greater() {
    let source = "cmp r0 #10\nbgr :condition_a\nmul r0 #5\nb :stop\ncondition_a:\nsub r0 #10\nstop:";
    let program = parse_from_str(source).unwrap();

    let mut rt = Runtime::new(program.clone());
    assert!(rt.set_register(0, 12));
    rt.run().unwrap();
    assert_eq!(rt.output(), 2);

    let mut rt = Runtime::new(program);
    assert!(rt.set_register(0, 8));
    rt.run().unwrap();
    assert_eq!(rt.output(), 40);
}

#[test]
fn call_and_return() {
    let source = "mov r0 #15\ncall :add_one\nmul r0 #7\nb :end\nadd_one:\nadd r0 #100\nret\nend:";
    let mut rt = Runtime::new(parse_from_str(source).unwrap());
    rt.run().unwrap();
    assert_eq!(rt.output(), 805);
}

#[test]
fn sparse_program() {
    let mut program = Program::new();
    program.insert(1, (Command::Move, [Argument::Register(0), Argument::Raw(123)]));
    program.insert(3, (Command::Move, [Argument::Register(1), Argument::Raw(321)]));
    program.insert(7, (Command::Add, [Argument::Register(0), Argument::Register(1)]));
    let mut rt = Runtime::new(program);
    rt.run().unwrap();
    assert_eq!(rt.output(), 444);
    assert_eq!(rt.program_counter(), 8);
}

#[test]
fn labelled_data_and_heap_deref() {
    let source = "data_str: db \"Hallo\",0,98\nmov r0 :data_str\nmov r1 [:data_str]\nmov r2 [:data_str+1]\nmov r3 [ :data_str + 2 ]";
    let mut rt = Runtime::new(parse_from_str(source).unwrap());
    rt.run().unwrap();
    assert_eq!(rt.register(0), Some(0));
    assert_eq!(rt.register(1), Some(72));
    assert_eq!(rt.register(2), Some(97));
    assert_eq!(rt.register(3), Some(108));
}

#[test]
fn script_lowering_round_trip() {
    let mut script = parse("fn echo(i){ return i; } echo(1234)").unwrap();
    let program = script_to_program(&mut script).unwrap();
    let mut rt = Runtime::new(program);
    rt.run().unwrap();
    assert_eq!(rt.output(), 1234);
}

#[test]
fn hoisted_data_is_behind_the_branch_to_the_main_part() {
    let mut script = parse("fn text() { return \"hi\"; } text()").unwrap();
    let program = script_to_program(&mut script).unwrap();
    assert_eq!(
        program[&1],
        (
            Command::LabelledData(shitty_vm::types::hash_label("text_0")),
            [Argument::Literal(vec![104, 105]), Argument::Absent]
        )
    );
    let mut rt = Runtime::new(program);
    assert_eq!(rt.run(), Err(String::from("no valid argument")));
}
