//! The virtual machine: registers, flags, a stack, a heap of labelled data blocks and
//! a label table, driven by a program counter over a sparse instruction stream.

use crate::text::decimal;
use crate::text::push_decimal;
use crate::text::push_text;
use crate::text::to_text;
use crate::types::Argument;
use crate::types::Command;
use crate::types::Error;
use crate::types::Heap;
use crate::types::Instruction;
use crate::types::Integer;
use crate::types::Operand;
use crate::types::Program;
use crate::types::has_end;
use crate::types::program_view;
use std::collections::BTreeMap;
use vstd::prelude::*;
use vstd::std_specs::iter::IteratorSpec;
use vstd::string::StringExecFns;

verus! {

/// The number of registers of the machine.
pub const REGISTER_COUNT: usize = 16;

/// The most ticks that one call of [`Runtime::run`] performs, unless the machine is
/// set up with another bound.
pub const TICK_LIMIT: u64 = 0xffff_ffff_ffff_ffff;

/// Why an instruction could not be executed.
#[derive(Debug, Clone, Copy, PartialEq, Eq)]
pub enum Fault {
    /// An operand that is read has no value: it is absent, a literal, a register out of
    /// range, an unknown label, or a heap cell that does not exist.
    NoValidArgument,
    /// An operand that is written names no cell that can be written.
    InvalidArgument,
    /// The target of a branch or call is not in the label table.
    LabelNotFound,
    /// The command is not one the arithmetic unit knows.
    InvalidCalculate,
    /// The divisor is zero.
    DivisionByZero,
    /// The payload of labelled data is not a literal.
    LiteralExpected,
    /// The machine is still running after the most ticks that one run performs.
    TickLimit,
}

/// The text that reports a fault to the caller.
pub open spec fn fault_message(fault: Fault) -> Seq<char> {
    match fault {
        Fault::NoValidArgument => "no valid argument"@,
        Fault::InvalidArgument => "Invalid argument"@,
        Fault::LabelNotFound => "Label not found"@,
        Fault::InvalidCalculate => "Invalid calculate command"@,
        Fault::DivisionByZero => "Division by zero"@,
        Fault::LiteralExpected => "argument can only be literal"@,
        Fault::TickLimit => "tick limit reached"@,
    }
}

/// The text that reports a fault to the caller, as a string.
pub fn fault_text(fault: Fault) -> (text: String)
    ensures
        text@ == fault_message(fault),
{
    match fault {
        Fault::NoValidArgument => String::from_str("no valid argument"),
        Fault::InvalidArgument => String::from_str("Invalid argument"),
        Fault::LabelNotFound => String::from_str("Label not found"),
        Fault::InvalidCalculate => String::from_str("Invalid calculate command"),
        Fault::DivisionByZero => String::from_str("Division by zero"),
        Fault::LiteralExpected => String::from_str("argument can only be literal"),
        Fault::TickLimit => String::from_str("tick limit reached"),
    }
}

/// The mathematical state of the machine.
pub ghost struct Machine {
    pub equal: bool,
    pub less: bool,
    pub greater: bool,
    pub overflow: bool,
    pub registers: Seq<u64>,
    pub pc: u64,
    pub heap: Seq<Seq<u64>>,
    pub stack: Seq<u64>,
    pub labels: Map<u64, u64>,
}

/// A machine state together with the fault that stopped the instruction, if any.
pub ghost struct Outcome {
    pub machine: Machine,
    pub fault: Option<Fault>,
}

/// The outcome of an instruction that succeeded.
pub open spec fn done(machine: Machine) -> Outcome {
    Outcome { machine, fault: None }
}

/// The outcome of an instruction that a fault stopped.
pub open spec fn failed(machine: Machine, fault: Fault) -> Outcome {
    Outcome { machine, fault: Some(fault) }
}

/// The state of a machine that has not run yet, with the given label table.
pub open spec fn initial_machine(labels: Map<u64, u64>) -> Machine {
    Machine {
        equal: false,
        less: false,
        greater: false,
        overflow: false,
        registers: Seq::new(REGISTER_COUNT as nat, |i: int| 0u64),
        pc: 0,
        heap: Seq::empty(),
        stack: Seq::empty(),
        labels,
    }
}

/// Whether the heap has a block at the address of label `id` with a cell at `offset`.
pub open spec fn has_cell(machine: Machine, id: u64, offset: usize) -> bool {
    &&& machine.labels.contains_key(id)
    &&& machine.labels[id] < machine.heap.len()
    &&& offset < machine.heap[machine.labels[id] as int].len()
}

/// The value that an operand yields when it is read.
pub open spec fn read(machine: Machine, operand: Operand) -> Option<u64> {
    match operand {
        Operand::Absent => None,
        Operand::Raw(value) => Some(value),
        Operand::Register(k) => if k < REGISTER_COUNT {
            Some(machine.registers[k as int])
        } else {
            None
        },
        Operand::HeapRef(id) => if machine.labels.contains_key(id) {
            Some(machine.labels[id])
        } else {
            None
        },
        Operand::RawLabel(id) => if machine.labels.contains_key(id) {
            Some(machine.labels[id])
        } else {
            None
        },
        Operand::HeapDeref(id, offset) => if has_cell(machine, id, offset) {
            Some(machine.heap[machine.labels[id] as int][offset as int])
        } else {
            None
        },
        Operand::Literal(_) => None,
    }
}

/// Whether an operand names a cell that can be written: a register, an entry of the
/// label table, or a cell of a heap block.
pub open spec fn writable(machine: Machine, operand: Operand) -> bool {
    match operand {
        Operand::Register(k) => k < REGISTER_COUNT,
        Operand::HeapRef(id) => machine.labels.contains_key(id),
        Operand::RawLabel(id) => machine.labels.contains_key(id),
        Operand::HeapDeref(id, offset) => has_cell(machine, id, offset),
        _ => false,
    }
}

/// The machine after `value` has been stored in the cell that a writable operand names.
pub open spec fn write(machine: Machine, operand: Operand, value: u64) -> Machine {
    match operand {
        Operand::Register(k) => Machine {
            registers: machine.registers.update(k as int, value),
            ..machine
        },
        Operand::HeapRef(id) => Machine { labels: machine.labels.insert(id, value), ..machine },
        Operand::RawLabel(id) => Machine { labels: machine.labels.insert(id, value), ..machine },
        Operand::HeapDeref(id, offset) => {
            let address = machine.labels[id] as int;
            Machine {
                heap: machine.heap.update(
                    address,
                    machine.heap[address].update(offset as int, value),
                ),
                ..machine
            }
        },
        _ => machine,
    }
}

/// A jump to the label that `target` names.
pub open spec fn branch(machine: Machine, target: Operand) -> Outcome {
    match target {
        Operand::RawLabel(id) => if machine.labels.contains_key(id) {
            done(Machine { pc: machine.labels[id], ..machine })
        } else {
            failed(machine, Fault::LabelNotFound)
        },
        _ => failed(machine, Fault::NoValidArgument),
    }
}

/// A jump that is taken only when `condition` holds.
pub open spec fn branch_if(condition: bool, machine: Machine, target: Operand) -> Outcome {
    if condition {
        branch(machine, target)
    } else {
        done(machine)
    }
}

/// The flags after two values have been compared: exactly one of the three is set.
pub open spec fn compare(machine: Machine, left: u64, right: u64) -> Machine {
    Machine { equal: left == right, greater: left > right, less: left < right, ..machine }
}

/// Whether a command adds, subtracts, multiplies or divides.
pub open spec fn is_arithmetic(command: Command) -> bool {
    command is Add || command is Subtract || command is Multiply || command is Divide
}

/// The exact result of an arithmetic command, before it is reduced modulo 2^64.
pub open spec fn exact_result(command: Command, left: u64, right: u64) -> int
    recommends
        is_arithmetic(command),
        command is Divide ==> right != 0,
{
    match command {
        Command::Add => left + right,
        Command::Subtract => left - right,
        Command::Multiply => left * right,
        _ => left as int / right as int,
    }
}

/// The result of an arithmetic command: the exact result modulo 2^64.
pub open spec fn wrapped_result(command: Command, left: u64, right: u64) -> u64 {
    (exact_result(command, left, right) % 0x1_0000_0000_0000_0000) as u64
}

/// Whether the exact result of an arithmetic command lies outside the 64-bit range.
pub open spec fn overflows(command: Command, left: u64, right: u64) -> bool {
    exact_result(command, left, right) < 0 || exact_result(command, left, right) > u64::MAX
}

/// An arithmetic command: both operands are read, the result is stored in the first
/// operand, and the overflow flag says whether the result wrapped.
pub open spec fn calculate(
    machine: Machine,
    command: Command,
    first: Operand,
    second: Operand,
) -> Outcome {
    if !is_arithmetic(command) {
        failed(machine, Fault::InvalidCalculate)
    } else if read(machine, first) is None || read(machine, second) is None {
        failed(machine, Fault::NoValidArgument)
    } else {
        let left = read(machine, first)->0;
        let right = read(machine, second)->0;
        if command is Divide && right == 0 {
            failed(machine, Fault::DivisionByZero)
        } else if !writable(machine, first) {
            failed(machine, Fault::InvalidArgument)
        } else {
            let stored = write(machine, first, wrapped_result(command, left, right));
            done(Machine { overflow: overflows(command, left, right), ..stored })
        }
    }
}

/// What an instruction does to the machine, before the program counter advances.
pub open spec fn effect(
    machine: Machine,
    command: Command,
    first: Operand,
    second: Operand,
) -> Outcome {
    match command {
        Command::Noop => done(machine),
        Command::Label => done(machine),
        Command::Move => match read(machine, second) {
            None => failed(machine, Fault::NoValidArgument),
            Some(value) => match first {
                Operand::Register(k) => if k < REGISTER_COUNT {
                    done(write(machine, first, value))
                } else {
                    failed(machine, Fault::InvalidArgument)
                },
                _ => failed(machine, Fault::InvalidArgument),
            },
        },
        Command::Branch => branch(machine, first),
        Command::BranchEqual => branch_if(machine.equal, machine, first),
        Command::BranchNotEqual => branch_if(!machine.equal, machine, first),
        Command::BranchGreater => branch_if(machine.greater, machine, first),
        Command::BranchGreaterEqual => branch_if(machine.equal || machine.greater, machine, first),
        Command::BranchLesser => branch_if(machine.less, machine, first),
        Command::BranchLesserEqual => branch_if(machine.equal || machine.less, machine, first),
        Command::Compare => if read(machine, first) is None || read(machine, second) is None {
            failed(machine, Fault::NoValidArgument)
        } else {
            done(compare(machine, read(machine, first)->0, read(machine, second)->0))
        },
        Command::Add => calculate(machine, command, first, second),
        Command::Subtract => calculate(machine, command, first, second),
        Command::Multiply => calculate(machine, command, first, second),
        Command::Divide => calculate(machine, command, first, second),
        Command::Modulo => calculate(machine, command, first, second),
        Command::Function => calculate(machine, command, first, second),
        Command::Push => match read(machine, first) {
            None => failed(machine, Fault::NoValidArgument),
            Some(value) => done(Machine { stack: machine.stack.push(value), ..machine }),
        },
        Command::Pop => if machine.stack.len() == 0 {
            done(machine)
        } else if !writable(machine, first) {
            failed(machine, Fault::InvalidArgument)
        } else {
            done(
                write(
                    Machine { stack: machine.stack.drop_last(), ..machine },
                    first,
                    machine.stack.last(),
                ),
            )
        },
        Command::Call => branch(
            Machine { stack: machine.stack.push(machine.pc), ..machine },
            first,
        ),
        Command::Return => if machine.stack.len() == 0 {
            done(machine)
        } else {
            done(Machine { pc: machine.stack.last(), stack: machine.stack.drop_last(), ..machine })
        },
        Command::LabelledData(id) => match first {
            Operand::Literal(data) => done(
                Machine {
                    labels: machine.labels.insert(id, machine.heap.len() as u64),
                    heap: machine.heap.push(data),
                    ..machine
                },
            ),
            _ => failed(machine, Fault::LiteralExpected),
        },
    }
}

/// The program counter after it has moved on by one, modulo 2^64.
pub open spec fn next_pc(pc: u64) -> u64 {
    if pc == u64::MAX {
        0
    } else {
        (pc + 1) as u64
    }
}

/// One instruction: its effect, and then, unless it failed, the program counter moves on
/// by one from wherever the instruction left it.
pub open spec fn execute(
    machine: Machine,
    command: Command,
    first: Operand,
    second: Operand,
) -> Outcome {
    let outcome = effect(machine, command, first, second);
    match outcome.fault {
        Some(_) => outcome,
        None => done(Machine { pc: next_pc(outcome.machine.pc), ..outcome.machine }),
    }
}

/// What one tick reports.
pub ghost enum Status {
    Running,
    Halted,
    Failed(Fault),
}

/// One tick: halt at or beyond `end`, step over a gap, or execute the instruction at the
/// program counter.
pub open spec fn tick(machine: Machine, program: Map<u64, Instruction>, end: u64) -> (
    Machine,
    Status,
) {
    if machine.pc >= end {
        (machine, Status::Halted)
    } else if program.contains_key(machine.pc) {
        let instruction = program[machine.pc];
        let outcome = execute(
            machine,
            instruction.command,
            instruction.first,
            instruction.second,
        );
        match outcome.fault {
            Some(fault) => (outcome.machine, Status::Failed(fault)),
            None => (outcome.machine, Status::Running),
        }
    } else {
        (Machine { pc: next_pc(machine.pc), ..machine }, Status::Running)
    }
}

/// Up to `count` ticks, stopping at the first that halts or fails.
pub open spec fn ticks(machine: Machine, program: Map<u64, Instruction>, end: u64, count: nat) -> (
    Machine,
    Status,
)
    decreases count,
{
    if count == 0 {
        (machine, Status::Running)
    } else {
        let (next, status) = tick(machine, program, end);
        if status is Running {
            ticks(next, program, end, (count - 1) as nat)
        } else {
            (next, status)
        }
    }
}

/// Whether line `line` of the program is a label instruction that declares `id`.
pub open spec fn declares(program: Map<u64, Instruction>, line: u64, id: u64) -> bool {
    &&& program.contains_key(line)
    &&& program[line].command is Label
    &&& program[line].first == Operand::RawLabel(id)
}

/// Whether `labels` is the label table of `program` before it runs: it has an entry for
/// exactly the declared labels, and each maps to the last line that declares it.
pub open spec fn is_label_table(program: Map<u64, Instruction>, labels: Map<u64, u64>) -> bool {
    &&& forall|line: u64, id: u64| #[trigger]
        declares(program, line, id) ==> labels.contains_key(id) && line <= labels[id]
    &&& forall|id: u64| #[trigger]
        labels.contains_key(id) ==> declares(program, labels[id], id)
}

/// Whether `end` is the index of the line after the last line of a program that is not empty.
pub open spec fn is_end(program: Map<u64, Instruction>, end: u64) -> bool {
    &&& end > 0
    &&& program.contains_key((end - 1) as u64)
    &&& forall|line: u64| program.contains_key(line) ==> line < end
}

/// The trace of the first `count` registers: each that is not zero with its value.
pub open spec fn traced(registers: Seq<u64>, count: nat) -> Seq<char>
    decreases count,
{
    if count == 0 {
        Seq::empty()
    } else {
        let index = (count - 1) as nat;
        traced(registers, index) + if registers[index as int] != 0 {
            "r"@ + decimal(index) + ": "@ + decimal(registers[index as int] as nat) + "|"@
        } else {
            Seq::empty()
        }
    }
}

/// The line that traces a machine: its program counter and its registers.
pub open spec fn trace(machine: Machine) -> Seq<char> {
    decimal(machine.pc as nat) + " => "@ + traced(machine.registers, REGISTER_COUNT as nat)
}

/// Whether a result reports the given fault, or success where there is none.
pub open spec fn reports(result: Result<(), Error>, fault: Option<Fault>) -> bool {
    match fault {
        None => result is Ok,
        Some(fault) => result matches Err(text) && text@ == fault_message(fault),
    }
}

/// Whether a result of [`Runtime::tick`] reports the given status.
pub open spec fn reports_status(result: Result<bool, Error>, status: Status) -> bool {
    match status {
        Status::Running => result == Ok::<bool, Error>(false),
        Status::Halted => result == Ok::<bool, Error>(true),
        Status::Failed(fault) => result matches Err(text) && text@ == fault_message(fault),
    }
}

/// Whether a machine that started in `start` is in `last` after `count` ticks, and
/// `result` says how the run ended: it halted, it failed, or it used up the ticks that
/// `limit` allows.
pub open spec fn ran(
    start: Machine,
    program: Map<u64, Instruction>,
    end: u64,
    limit: u64,
    count: nat,
    last: Machine,
    result: Result<(), Error>,
) -> bool {
    let (machine, status) = ticks(start, program, end, count);
    &&& count <= limit
    &&& last == machine
    &&& match status {
        Status::Halted => result is Ok,
        Status::Failed(fault) => reports(result, Some(fault)),
        Status::Running => count == limit && reports(result, Some(Fault::TickLimit)),
    }
}

/// Whether `last` and `ended` are what a run from `start` gives: nothing happens where
/// the program is empty; else the machine ticks until it halts at the end of the
/// program, fails, or has used up the ticks that `limit` allows.
pub open spec fn finished(
    start: Machine,
    program: Map<u64, Instruction>,
    limit: u64,
    last: Machine,
    ended: Result<(), Error>,
) -> bool {
    &&& program.dom().is_empty() ==> ended is Ok && last == start
    &&& forall|end: u64| #[trigger]
        is_end(program, end) ==> exists|count: nat| #[trigger]
            ran(start, program, end, limit, count, last, ended)
}

/// One more tick after `count` ticks that all left the machine running.
pub proof fn lemma_ticks_extend(
    start: Machine,
    program: Map<u64, Instruction>,
    end: u64,
    count: nat,
)
    requires
        ticks(start, program, end, count).1 is Running,
    ensures
        ticks(start, program, end, count + 1) == tick(
            ticks(start, program, end, count).0,
            program,
            end,
        ),
    decreases count,
{
    let (next, status) = tick(start, program, end);
    if count == 0 {
        assert(ticks(start, program, end, 0) == (start, Status::Running));
        assert(ticks(next, program, end, 0) == (next, Status::Running));
        assert(ticks(start, program, end, 1) == (next, status));
    } else {
        assert(status is Running);
        assert(ticks(start, program, end, count) == ticks(
            next,
            program,
            end,
            (count - 1) as nat,
        ));
        assert(ticks(start, program, end, count + 1) == ticks(next, program, end, count));
        lemma_ticks_extend(next, program, end, (count - 1) as nat);
    }
}

/// The wrapping and checked operations of the machine's integers compute the result
/// modulo 2^64 and detect exactly the results that do not fit.
pub proof fn lemma_arithmetic(command: Command, left: u64, right: u64)
    requires
        is_arithmetic(command),
        command is Divide ==> right != 0,
    ensures
        command is Add ==> wrapped_result(command, left, right)
            == vstd::wrapping::u64_specs::wrapping_add(left, right) && overflows(
            command,
            left,
            right,
        ) == (left + right > u64::MAX),
        command is Subtract ==> wrapped_result(command, left, right)
            == vstd::wrapping::u64_specs::wrapping_sub(left, right) && overflows(
            command,
            left,
            right,
        ) == (left - right < 0),
        command is Multiply ==> wrapped_result(command, left, right)
            == vstd::wrapping::u64_specs::wrapping_mul(left, right) && overflows(
            command,
            left,
            right,
        ) == (left * right > u64::MAX),
        command is Divide ==> wrapped_result(command, left, right) == left / right && !overflows(
            command,
            left,
            right,
        ),
{
    if command is Multiply {
        assert(0 <= left * right) by (nonlinear_arith);
    }
    if command is Divide {
        assert(0 <= left as int / right as int <= left) by (nonlinear_arith)
            requires
                right > 0,
                left >= 0,
        ;
    }
}

/// A push of a readable operand puts its value on top of the stack, which grows by one.
pub proof fn lemma_push_grows(machine: Machine, source: Operand, second: Operand)
    requires
        read(machine, source) is Some,
    ensures
        execute(machine, Command::Push, source, second).fault is None,
        execute(machine, Command::Push, source, second).machine.stack == machine.stack.push(
            read(machine, source)->0,
        ),
        execute(machine, Command::Push, source, second).machine.stack.len() == machine.stack.len()
            + 1,
{
}

/// A pop into a writable operand, from a stack that is not empty, stores the top of the
/// stack there and shrinks the stack by one. A pop from an empty stack changes nothing
/// but the program counter.
pub proof fn lemma_pop_shrinks(machine: Machine, target: Operand, second: Operand)
    requires
        machine.registers.len() == REGISTER_COUNT,
    ensures
        machine.stack.len() > 0 && writable(machine, target) ==> {
            let popped = execute(machine, Command::Pop, target, second);
            &&& popped.fault is None
            &&& popped.machine.stack == machine.stack.drop_last()
            &&& popped.machine.stack.len() == machine.stack.len() - 1
            &&& target is Register ==> popped.machine.registers[target->Register_0 as int]
                == machine.stack.last()
        },
        machine.stack.len() == 0 ==> execute(machine, Command::Pop, target, second) == done(
            Machine { pc: next_pc(machine.pc), ..machine },
        ),
{
}

/// A push followed at once by a pop into a register leaves the stack as it was and the
/// pushed value in that register.
pub proof fn lemma_push_then_pop(machine: Machine, source: Operand, register: u8)
    requires
        read(machine, source) is Some,
        register < REGISTER_COUNT,
        machine.registers.len() == REGISTER_COUNT,
    ensures
        ({
            let pushed = execute(machine, Command::Push, source, Operand::Absent).machine;
            let popped = execute(
                pushed,
                Command::Pop,
                Operand::Register(register),
                Operand::Absent,
            );
            &&& popped.fault is None
            &&& popped.machine.stack == machine.stack
            &&& popped.machine.registers[register as int] == read(machine, source)->0
        }),
{
    let value = read(machine, source)->0;
    assert(machine.stack.push(value).drop_last() =~= machine.stack);
}

/// A machine that has halted stays halted: further ticks change nothing.
pub proof fn lemma_halted_stays(
    machine: Machine,
    program: Map<u64, Instruction>,
    end: u64,
    count: nat,
)
    requires
        machine.pc >= end,
        count > 0,
    ensures
        ticks(machine, program, end, count) == (machine, Status::Halted),
{
}

/// A run has one outcome: once `count` ticks have halted or failed the machine, any
/// larger number of ticks gives the same state and status.
pub proof fn lemma_ticks_stable(
    start: Machine,
    program: Map<u64, Instruction>,
    end: u64,
    count: nat,
    more: nat,
)
    requires
        !(ticks(start, program, end, count).1 is Running),
        count <= more,
    ensures
        ticks(start, program, end, more) == ticks(start, program, end, count),
    decreases count,
{
    let (next, status) = tick(start, program, end);
    if count > 0 && status is Running {
        lemma_ticks_stable(next, program, end, (count - 1) as nat, (more - 1) as nat);
    }
}

/// A run has one outcome: two runs of one program from one state end in the same state,
/// both well or both with the same message.
pub proof fn lemma_one_outcome(
    start: Machine,
    program: Map<u64, Instruction>,
    end: u64,
    limit: u64,
    first: (Machine, Result<(), Error>),
    second: (Machine, Result<(), Error>),
)
    requires
        is_end(program, end),
        finished(start, program, limit, first.0, first.1),
        finished(start, program, limit, second.0, second.1),
    ensures
        first.0 == second.0,
        first.1 is Ok <==> second.1 is Ok,
        first.1 matches Err(text) ==> second.1 matches Err(other) && text@ == other@,
{
    let one = choose|count: nat| #[trigger]
        ran(start, program, end, limit, count, first.0, first.1);
    let two = choose|count: nat| #[trigger]
        ran(start, program, end, limit, count, second.0, second.1);
    if one <= two {
        if !(ticks(start, program, end, one).1 is Running) {
            lemma_ticks_stable(start, program, end, one, two);
        }
    } else {
        if !(ticks(start, program, end, two).1 is Running) {
            lemma_ticks_stable(start, program, end, two, one);
        }
    }
}

/// `BTreeMap::last_key_value`, reduced to the key: the largest line index of the
/// program, or nothing where the program is empty.
#[verifier::external_body]
fn last_line(program: &Program) -> (last: Option<Integer>)
    ensures
        match last {
            Some(line) => program@.contains_key(line) && forall|other: u64|
                program@.contains_key(other) ==> other <= line,
            None => forall|other: u64| !program@.contains_key(other),
        },
{
    match program.last_key_value() {
        Some((line, _)) => Some(*line),
        None => None,
    }
}

/// The sixteen registers of the machine.
#[derive(Debug, Clone, Copy)]
pub struct Registers {
    data: [Integer; 16],
}

impl View for Registers {
    type V = Seq<u64>;

    closed spec fn view(&self) -> Seq<u64> {
        self.data@
    }
}

impl Registers {
    /// Registers that all hold zero.
    pub fn new() -> (registers: Self)
        ensures
            registers@ == Seq::new(REGISTER_COUNT as nat, |i: int| 0u64),
    {
        let registers = Registers { data: [0; 16] };
        assert(registers@ =~= Seq::new(REGISTER_COUNT as nat, |i: int| 0u64));
        registers
    }
}

/// The flags of the machine: three that a comparison sets, and the overflow flag of
/// the arithmetic instructions. By default none is set.
#[derive(Debug, Clone, Copy)]
pub struct Flags {
    equal: bool,
    less: bool,
    greater: bool,
    overflow: bool,
}

impl Flags {
    /// Whether the last comparison found its operands equal.
    pub closed spec fn equal(&self) -> bool {
        self.equal
    }

    /// Whether the last comparison found its first operand smaller.
    pub closed spec fn less(&self) -> bool {
        self.less
    }

    /// Whether the last comparison found its first operand greater.
    pub closed spec fn greater(&self) -> bool {
        self.greater
    }

    /// Whether the result of the last arithmetic instruction wrapped.
    pub closed spec fn overflow(&self) -> bool {
        self.overflow
    }
}

impl Default for Flags {
    fn default() -> (flags: Self)
        ensures
            !flags.equal(),
            !flags.less(),
            !flags.greater(),
            !flags.overflow(),
    {
        Flags { equal: false, less: false, greater: false, overflow: false }
    }
}

/// Whether the last line of a program has a line after it, so that a machine can run
/// the program to its end.
pub fn can_run(program: &Program) -> (can: bool)
    ensures
        can == has_end(program_view(*program)),
{
    match last_line(program) {
        Some(line) => {
            assert(program_view(*program).contains_key(line));
            line < u64::MAX
        },
        None => true,
    }
}

/// A virtual machine with the program that it runs.
#[derive(Debug)]
pub struct Runtime {
    flags: Flags,
    registers: Registers,
    program_counter: Integer,
    program: Program,
    heap: Heap,
    stack: Vec<Integer>,
    label_references: BTreeMap<Integer, Integer>,
    debug: bool,
    tick_limit: Integer,
}

/// What a machine is set up with, and what running it does not change.
pub ghost struct Setup {
    pub program: Map<u64, Instruction>,
    pub debug: bool,
    pub tick_limit: u64,
}

impl View for Runtime {
    type V = Machine;

    closed spec fn view(&self) -> Machine {
        Machine {
            equal: self.flags.equal,
            less: self.flags.less,
            greater: self.flags.greater,
            overflow: self.flags.overflow,
            registers: self.registers@,
            pc: self.program_counter,
            heap: Seq::new(self.heap@.len(), |i: int| self.heap@[i]@),
            stack: self.stack@,
            labels: self.label_references@,
        }
    }
}

impl Clone for Runtime {
    fn clone(&self) -> (copy: Self)
        ensures
            copy@ == self@,
            copy.setup() == self.setup(),
    {
        let mut heap: Heap = Vec::new();
        let mut i: usize = 0;
        while i < self.heap.len()
            invariant
                i <= self.heap.len(),
                heap.len() == i,
                forall|j: int| 0 <= j < i ==> heap@[j]@ == self.heap@[j]@,
            decreases self.heap.len() - i,
        {
            heap.push(self.heap[i].clone());
            i = i + 1;
        }
        let copy = Runtime {
            flags: self.flags,
            registers: self.registers,
            program_counter: self.program_counter,
            program: self.program.clone(),
            heap,
            stack: self.stack.clone(),
            label_references: self.label_references.clone(),
            debug: self.debug,
            tick_limit: self.tick_limit,
        };
        assert(copy@.heap =~= self@.heap);
        assert(copy@.stack =~= self@.stack);
        copy
    }
}

impl Runtime {
    /// What the machine is set up with: its program, whether it was asked to trace its
    /// registers, and the most ticks that one run performs.
    pub closed spec fn setup(&self) -> Setup {
        Setup {
            program: program_view(self.program),
            debug: self.debug,
            tick_limit: self.tick_limit,
        }
    }

    /// The program that the machine runs.
    pub open spec fn program(&self) -> Map<u64, Instruction> {
        self.setup().program
    }

    /// Whether the machine was asked to trace its registers.
    pub open spec fn debug(&self) -> bool {
        self.setup().debug
    }

    /// The most ticks that one run of the machine performs.
    pub open spec fn tick_limit(&self) -> u64 {
        self.setup().tick_limit
    }

    /// The machine always has sixteen registers.
    pub proof fn lemma_register_count(&self)
        ensures
            self@.registers.len() == REGISTER_COUNT,
    {
    }

    /// A machine that is ready to run the program: registers zero, flags cleared, heap
    /// and stack empty, the program counter at line 0, and in the label table the labels
    /// that the program declares.
    pub fn new(program: Program) -> (runtime: Self)
        ensures
            runtime.program() == program_view(program),
            runtime@ == initial_machine(runtime@.labels),
            is_label_table(runtime.program(), runtime@.labels),
            !runtime.debug(),
            runtime.tick_limit() == TICK_LIMIT,
    {
        let runtime = Runtime {
            flags: Flags::default(),
            registers: Registers::new(),
            heap: Heap::new(),
            stack: Vec::new(),
            program_counter: 0,
            label_references: Self::scan_labels(&program),
            program,
            debug: false,
            tick_limit: TICK_LIMIT,
        };
        assert(runtime@.heap =~= Seq::<Seq<u64>>::empty());
        runtime
    }

    /// The same machine, asked to trace its registers or not.
    pub fn with_debug(self, debug: bool) -> (runtime: Self)
        ensures
            runtime@ == self@,
            runtime.setup() == (Setup { debug, ..self.setup() }),
    {
        let mut runtime = self;
        runtime.debug = debug;
        runtime
    }

    /// The same machine, with another bound on the ticks of one run.
    pub fn with_tick_limit(self, limit: Integer) -> (runtime: Self)
        ensures
            runtime@ == self@,
            runtime.setup() == (Setup { tick_limit: limit, ..self.setup() }),
    {
        let mut runtime = self;
        runtime.tick_limit = limit;
        runtime
    }

    /// Finds the lines that declare labels.
    fn scan_labels(program: &Program) -> (label_references: BTreeMap<Integer, Integer>)
        ensures
            is_label_table(program_view(*program), label_references@),
    {
        let mut label_references: BTreeMap<Integer, Integer> = BTreeMap::new();
        let ghost lines = vstd::std_specs::btree::spec_btree_map_iter(program).remaining();
        for entry in it: program.iter()
            invariant
                it.seq() == lines,
                forall|j: int, id: u64|
                    0 <= j < it.index() && #[trigger] declares(
                        program_view(*program),
                        *it.seq()[j].0,
                        id,
                    ) ==> label_references@.contains_key(id) && *it.seq()[j].0
                        <= label_references@[id],
                forall|id: u64| #[trigger]
                    label_references@.contains_key(id) ==> declares(
                        program_view(*program),
                        label_references@[id],
                        id,
                    ),
        {
            let (index, instruction) = entry;
            if let Command::Label = instruction.0 {
                if let Some(label) = instruction.1[0].resolve_label() {
                    let later = match label_references.get(&label) {
                        Some(line) => *line < *index,
                        None => true,
                    };
                    if later {
                        label_references.insert(label, *index);
                    }
                }
            }
        }
        proof {
            assert forall|line: u64, id: u64| #[trigger]
                declares(program_view(*program), line, id) implies label_references@.contains_key(
                id,
            ) && line <= label_references@[id] by {
                let entry = (&line, &program@[line]);
                assert(lines.contains(entry));
                let j = choose|j: int| 0 <= j < lines.len() && lines[j] == entry;
                assert(declares(program_view(*program), *lines[j].0, id));
            }
        }
        label_references
    }

    /// Runs the program from where the machine stands: nothing where the program is
    /// empty, else tick after tick until the machine halts behind the last line, an
    /// instruction fails, or the ticks are used up that the machine is set up with. The
    /// last line has to have a line after it.
    pub fn run(&mut self) -> (result: Result<(), Error>)
        requires
            has_end(old(self).program()),
        ensures
            final(self).setup() == old(self).setup(),
            finished(
                old(self)@,
                old(self).program(),
                old(self).tick_limit(),
                final(self)@,
                result,
            ),
            result is Ok ==> forall|line: u64|
                old(self).program().contains_key(line) ==> line < final(self)@.pc,
    {
        let end = match last_line(&self.program) {
            Some(last_line) => {
                assert(self.program().contains_key(last_line));
                last_line + 1
            },
            None => {
                return Ok(());
            },
        };
        let limit = self.tick_limit;
        let mut count: u64 = 0;
        while count < limit
            invariant
                count <= limit,
                limit == old(self).tick_limit(),
                is_end(old(self).program(), end),
                self.setup() == old(self).setup(),
                ticks(old(self)@, old(self).program(), end, count as nat) == (
                    self@,
                    Status::Running,
                ),
            decreases limit - count,
        {
            proof {
                lemma_ticks_extend(old(self)@, old(self).program(), end, count as nat);
            }
            match self.tick(end) {
                Ok(true) => {
                    assert(ran(
                        old(self)@,
                        old(self).program(),
                        end,
                        limit,
                        (count + 1) as nat,
                        self@,
                        Ok::<(), Error>(()),
                    ));
                    return Ok(());
                },
                Ok(false) => (),
                Err(e) => {
                    assert(ran(
                        old(self)@,
                        old(self).program(),
                        end,
                        limit,
                        (count + 1) as nat,
                        self@,
                        Err::<(), Error>(e),
                    ));
                    return Err(e);
                },
            }
            count = count + 1;
        }
        let result = Err(fault_text(Fault::TickLimit));
        assert(ran(old(self)@, old(self).program(), end, limit, count as nat, self@, result));
        result
    }

    /// One tick. Returns whether the machine has halted: it halts, and stays as it is,
    /// when the program counter is at `end` or beyond. Else it executes the instruction
    /// at the program counter, or steps over the gap where the program has none there.
    pub fn tick(&mut self, end: Integer) -> (result: Result<bool, Error>)
        ensures
            final(self)@ == tick(old(self)@, old(self).program(), end).0,
            reports_status(result, tick(old(self)@, old(self).program(), end).1),
            final(self).setup() == old(self).setup(),
    {
        if self.program_counter >= end {
            return Ok(true);
        }
        let instruction = match self.program.get(&self.program_counter) {
            Some(entry) => Some((entry.0, [entry.1[0].clone(), entry.1[1].clone()])),
            None => None,
        };
        match instruction {
            Some((command, args)) => match self.apply_command(&command, &args) {
                Ok(()) => Ok(false),
                Err(text) => Err(text),
            },
            None => {
                self.program_counter = self.program_counter + 1;
                Ok(false)
            },
        }
    }

    /// The value of a register, or nothing where the machine has no such register.
    pub fn register(&self, index: u8) -> (value: Option<Integer>)
        ensures
            value == read(self@, Operand::Register(index)),
    {
        if (index as usize) < REGISTER_COUNT {
            Some(self.registers.data[index as usize])
        } else {
            None
        }
    }

    /// Stores a value in a register before the machine runs on. Returns whether the
    /// machine has such a register.
    pub fn set_register(&mut self, index: u8, value: Integer) -> (stored: bool)
        ensures
            stored == (index < REGISTER_COUNT),
            stored ==> final(self)@ == write(old(self)@, Operand::Register(index), value),
            !stored ==> final(self)@ == old(self)@,
            final(self).setup() == old(self).setup(),
    {
        if (index as usize) < REGISTER_COUNT {
            self.registers.data[index as usize] = value;
            true
        } else {
            false
        }
    }

    /// The stack, its top last.
    pub fn stack(&self) -> (stack: &Vec<Integer>)
        ensures
            stack@ == self@.stack,
    {
        &self.stack
    }

    /// The index of the line that the machine executes next.
    pub fn program_counter(&self) -> (pc: Integer)
        ensures
            pc == self@.pc,
    {
        self.program_counter
    }

    /// Whether the last comparison found its operands equal.
    pub fn equal(&self) -> (flag: bool)
        ensures
            flag == self@.equal,
    {
        self.flags.equal
    }

    /// Whether the last comparison found its first operand smaller.
    pub fn less(&self) -> (flag: bool)
        ensures
            flag == self@.less,
    {
        self.flags.less
    }

    /// Whether the last comparison found its first operand greater.
    pub fn greater(&self) -> (flag: bool)
        ensures
            flag == self@.greater,
    {
        self.flags.greater
    }

    /// Whether the result of the last arithmetic instruction wrapped.
    pub fn overflow(&self) -> (flag: bool)
        ensures
            flag == self@.overflow,
    {
        self.flags.overflow
    }

    /// Whether the machine was asked to trace its registers.
    pub fn is_debug(&self) -> (debug: bool)
        ensures
            debug == self.debug(),
    {
        self.debug
    }

    /// The most ticks that one run of the machine performs.
    pub fn ticks_allowed(&self) -> (limit: Integer)
        ensures
            limit == self.tick_limit(),
    {
        self.tick_limit
    }

    /// The line that traces the machine: the program counter, and each register that is
    /// not zero with its value.
    pub fn registers_line(&self) -> (line: String)
        ensures
            line@ == trace(self@),
    {
        let mut buffer: Vec<char> = Vec::new();
        push_decimal(&mut buffer, self.program_counter);
        push_text(&mut buffer, " => ");
        let ghost head = buffer@;
        let mut index: usize = 0;
        assert(head + traced(self@.registers, 0) =~= head);
        while index < REGISTER_COUNT
            invariant
                index <= REGISTER_COUNT,
                buffer@ == head + traced(self@.registers, index as nat),
            decreases REGISTER_COUNT - index,
        {
            let register = self.registers.data[index];
            let ghost before = buffer@;
            if register != 0 {
                push_text(&mut buffer, "r");
                push_decimal(&mut buffer, index as u64);
                push_text(&mut buffer, ": ");
                push_decimal(&mut buffer, register);
                push_text(&mut buffer, "|");
            }
            index = index + 1;
            assert(buffer@ =~= head + traced(self@.registers, index as nat));
        }
        assert(buffer@.subrange(0, buffer.len() as int) == buffer@);
        to_text(&buffer, 0, buffer.len())
    }

    /// The value that the machine shows to the outside: that of register 0.
    pub fn output(&self) -> (value: Integer)
        ensures
            value == self@.registers[0],
    {
        self.registers.data[0]
    }

    fn resolve_argument(&self, argument: &Argument) -> (value: Option<Integer>)
        ensures
            value == read(self@, argument@),
    {
        match argument {
            Argument::Absent => None,
            Argument::Raw(data) => Some(*data),
            Argument::Register(reg_id) => {
                if (*reg_id as usize) < REGISTER_COUNT {
                    Some(self.registers.data[*reg_id as usize])
                } else {
                    None
                }
            },
            Argument::HeapRef(ref_id) => match self.label_references.get(ref_id) {
                Some(address) => Some(*address),
                None => None,
            },
            Argument::RawLabel(label) => match self.label_references.get(label) {
                Some(address) => Some(*address),
                None => None,
            },
            Argument::HeapDeref(label, offset) => match self.label_references.get(label) {
                Some(address) => {
                    if *address < self.heap.len() as u64 {
                        let block = &self.heap[*address as usize];
                        if *offset < block.len() {
                            Some(block[*offset])
                        } else {
                            None
                        }
                    } else {
                        None
                    }
                },
                None => None,
            },
            Argument::Literal(_) => None,
        }
    }

    /// Stores `value` in the cell that `argument` names, if it names one.
    fn resolve_argument_mut(&mut self, argument: &Argument, value: Integer) -> (stored: bool)
        ensures
            stored == writable(old(self)@, argument@),
            stored ==> final(self)@ == write(old(self)@, argument@, value),
            !stored ==> final(self)@ == old(self)@,
            final(self).setup() == old(self).setup(),
    {
        match argument {
            Argument::Register(reg_id) => {
                if (*reg_id as usize) < REGISTER_COUNT {
                    self.registers.data[*reg_id as usize] = value;
                    true
                } else {
                    false
                }
            },
            Argument::HeapRef(ref_id) => {
                if self.label_references.contains_key(ref_id) {
                    self.label_references.insert(*ref_id, value);
                    true
                } else {
                    false
                }
            },
            Argument::RawLabel(label) => {
                if self.label_references.contains_key(label) {
                    self.label_references.insert(*label, value);
                    true
                } else {
                    false
                }
            },
            Argument::HeapDeref(label, offset) => match self.label_references.get(label) {
                Some(address) => {
                    let address = *address;
                    if address < self.heap.len() as u64 {
                        if *offset < self.heap[address as usize].len() {
                            self.heap[address as usize][*offset] = value;
                            assert(self@.heap =~= write(old(self)@, argument@, value).heap);
                            true
                        } else {
                            false
                        }
                    } else {
                        false
                    }
                },
                None => false,
            },
            _ => false,
        }
    }

    fn brancher(&mut self, args: &[Argument; 2]) -> (result: Result<(), Error>)
        ensures
            final(self)@ == branch(old(self)@, args[0]@).machine,
            reports(result, branch(old(self)@, args[0]@).fault),
            final(self).setup() == old(self).setup(),
    {
        match args[0].resolve_label() {
            Some(label_ref) => match self.label_references.get(&label_ref) {
                Some(target) => {
                    self.program_counter = *target;
                    Ok(())
                },
                None => Err(fault_text(Fault::LabelNotFound)),
            },
            None => Err(fault_text(Fault::NoValidArgument)),
        }
    }

    fn calculate(&mut self, command: &Command, args: &[Argument; 2]) -> (result: Result<(), Error>)
        ensures
            final(self)@ == calculate(old(self)@, *command, args[0]@, args[1]@).machine,
            reports(result, calculate(old(self)@, *command, args[0]@, args[1]@).fault),
            final(self).setup() == old(self).setup(),
    {
        match command {
            Command::Add => {},
            Command::Subtract => {},
            Command::Multiply => {},
            Command::Divide => {},
            _ => {
                return Err(fault_text(Fault::InvalidCalculate));
            },
        }
        let left = match self.resolve_argument(&args[0]) {
            Some(value) => value,
            None => {
                return Err(fault_text(Fault::NoValidArgument));
            },
        };
        let right = match self.resolve_argument(&args[1]) {
            Some(value) => value,
            None => {
                return Err(fault_text(Fault::NoValidArgument));
            },
        };
        let (out, overflow) = match command {
            Command::Add => (left.wrapping_add(right), left.checked_add(right).is_none()),
            Command::Subtract => (left.wrapping_sub(right), left.checked_sub(right).is_none()),
            Command::Multiply => (left.wrapping_mul(right), left.checked_mul(right).is_none()),
            _ => {
                if right == 0 {
                    return Err(fault_text(Fault::DivisionByZero));
                }
                (left / right, false)
            },
        };
        proof {
            lemma_arithmetic(*command, left, right);
        }
        if self.resolve_argument_mut(&args[0], out) {
            self.flags.overflow = overflow;
            Ok(())
        } else {
            Err(fault_text(Fault::InvalidArgument))
        }
    }

    fn branch_if(&mut self, condition: bool, args: &[Argument; 2]) -> (result: Result<(), Error>)
        ensures
            final(self)@ == branch_if(condition, old(self)@, args[0]@).machine,
            reports(result, branch_if(condition, old(self)@, args[0]@).fault),
            final(self).setup() == old(self).setup(),
    {
        if condition {
            self.brancher(args)
        } else {
            Ok(())
        }
    }

    fn move_value(&mut self, args: &[Argument; 2]) -> (result: Result<(), Error>)
        ensures
            final(self)@ == effect(old(self)@, Command::Move, args[0]@, args[1]@).machine,
            reports(result, effect(old(self)@, Command::Move, args[0]@, args[1]@).fault),
            final(self).setup() == old(self).setup(),
    {
        let new_value = match self.resolve_argument(&args[1]) {
            Some(value) => value,
            None => {
                return Err(fault_text(Fault::NoValidArgument));
            },
        };
        match &args[0] {
            Argument::Register(_) => {
                if self.resolve_argument_mut(&args[0], new_value) {
                    Ok(())
                } else {
                    Err(fault_text(Fault::InvalidArgument))
                }
            },
            _ => Err(fault_text(Fault::InvalidArgument)),
        }
    }

    fn compare_values(&mut self, args: &[Argument; 2]) -> (result: Result<(), Error>)
        ensures
            final(self)@ == effect(old(self)@, Command::Compare, args[0]@, args[1]@).machine,
            reports(result, effect(old(self)@, Command::Compare, args[0]@, args[1]@).fault),
            final(self).setup() == old(self).setup(),
    {
        let value_a = match self.resolve_argument(&args[0]) {
            Some(value) => value,
            None => {
                return Err(fault_text(Fault::NoValidArgument));
            },
        };
        let value_b = match self.resolve_argument(&args[1]) {
            Some(value) => value,
            None => {
                return Err(fault_text(Fault::NoValidArgument));
            },
        };
        self.flags.equal = value_a == value_b;
        self.flags.greater = value_a > value_b;
        self.flags.less = value_a < value_b;
        Ok(())
    }

    fn push_value(&mut self, args: &[Argument; 2]) -> (result: Result<(), Error>)
        ensures
            final(self)@ == effect(old(self)@, Command::Push, args[0]@, args[1]@).machine,
            reports(result, effect(old(self)@, Command::Push, args[0]@, args[1]@).fault),
            final(self).setup() == old(self).setup(),
    {
        match self.resolve_argument(&args[0]) {
            Some(value) => {
                self.stack.push(value);
                Ok(())
            },
            None => Err(fault_text(Fault::NoValidArgument)),
        }
    }

    fn pop_value(&mut self, args: &[Argument; 2]) -> (result: Result<(), Error>)
        ensures
            final(self)@ == effect(old(self)@, Command::Pop, args[0]@, args[1]@).machine,
            reports(result, effect(old(self)@, Command::Pop, args[0]@, args[1]@).fault),
            final(self).setup() == old(self).setup(),
    {
        match self.stack.pop() {
            Some(value) => {
                let ghost popped = self@;
                assert(popped == (Machine { stack: old(self)@.stack.drop_last(), ..old(self)@ }));
                if self.resolve_argument_mut(&args[0], value) {
                    Ok(())
                } else {
                    self.stack.push(value);
                    assert(self@.stack =~= old(self)@.stack);
                    Err(fault_text(Fault::InvalidArgument))
                }
            },
            None => Ok(()),
        }
    }

    fn call(&mut self, args: &[Argument; 2]) -> (result: Result<(), Error>)
        ensures
            final(self)@ == effect(old(self)@, Command::Call, args[0]@, args[1]@).machine,
            reports(result, effect(old(self)@, Command::Call, args[0]@, args[1]@).fault),
            final(self).setup() == old(self).setup(),
    {
        self.stack.push(self.program_counter);
        self.brancher(args)
    }

    fn return_to_caller(&mut self)
        ensures
            final(self)@ == effect(
                old(self)@,
                Command::Return,
                Operand::Absent,
                Operand::Absent,
            ).machine,
            final(self).setup() == old(self).setup(),
    {
        if let Some(value) = self.stack.pop() {
            self.program_counter = value;
        }
    }

    fn store_data(&mut self, label: Integer, args: &[Argument; 2]) -> (result: Result<(), Error>)
        ensures
            final(self)@ == effect(
                old(self)@,
                Command::LabelledData(label),
                args[0]@,
                args[1]@,
            ).machine,
            reports(
                result,
                effect(old(self)@, Command::LabelledData(label), args[0]@, args[1]@).fault,
            ),
            final(self).setup() == old(self).setup(),
    {
        match &args[0] {
            Argument::Literal(value) => {
                let address = self.heap.len();
                self.heap.push(value.clone());
                self.label_references.insert(label, address as Integer);
                assert(self@.heap =~= old(self)@.heap.push(value@));
                Ok(())
            },
            _ => Err(fault_text(Fault::LiteralExpected)),
        }
    }

    /// Performs an instruction without moving the program counter on.
    fn perform(&mut self, command: &Command, args: &[Argument; 2]) -> (result: Result<(), Error>)
        ensures
            final(self)@ == effect(old(self)@, *command, args[0]@, args[1]@).machine,
            reports(result, effect(old(self)@, *command, args[0]@, args[1]@).fault),
            final(self).setup() == old(self).setup(),
    {
        match command {
            Command::Noop => Ok(()),
            Command::Move => self.move_value(args),
            Command::Label => Ok(()),
            Command::Branch => self.brancher(args),
            Command::BranchEqual => self.branch_if(self.flags.equal, args),
            Command::BranchNotEqual => self.branch_if(!self.flags.equal, args),
            Command::BranchGreater => self.branch_if(self.flags.greater, args),
            Command::BranchGreaterEqual => self.branch_if(
                self.flags.equal || self.flags.greater,
                args,
            ),
            Command::BranchLesser => self.branch_if(self.flags.less, args),
            Command::BranchLesserEqual => self.branch_if(
                self.flags.equal || self.flags.less,
                args,
            ),
            Command::Compare => self.compare_values(args),
            Command::Add | Command::Subtract | Command::Multiply | Command::Divide
            | Command::Modulo | Command::Function => self.calculate(command, args),
            Command::Push => self.push_value(args),
            Command::Pop => self.pop_value(args),
            Command::Call => self.call(args),
            Command::Return => {
                self.return_to_caller();
                Ok(())
            },
            Command::LabelledData(label) => self.store_data(*label, args),
        }
    }

    /// Executes one instruction. Unless it fails, the program counter then moves on by
    /// one from wherever the instruction left it.
    pub fn apply_command(&mut self, command: &Command, args: &[Argument; 2]) -> (result: Result<
        (),
        Error,
    >)
        ensures
            final(self)@ == execute(old(self)@, *command, args[0]@, args[1]@).machine,
            reports(result, execute(old(self)@, *command, args[0]@, args[1]@).fault),
            final(self).setup() == old(self).setup(),
    {
        match self.perform(command, args) {
            Ok(()) => {
                self.program_counter = self.program_counter.wrapping_add(1);
                Ok(())
            },
            Err(text) => Err(text),
        }
    }

    /// The value that an argument yields when it is read.
    pub fn resolve_argument_or_error(&self, argument: &Argument) -> (result: Result<
        Integer,
        Error,
    >)
        ensures
            match read(self@, argument@) {
                Some(value) => result == Ok::<Integer, Error>(value),
                None => result matches Err(text) && text@ == fault_message(
                    Fault::NoValidArgument,
                ),
            },
    {
        match self.resolve_argument(argument) {
            Some(value) => Ok(value),
            None => Err(fault_text(Fault::NoValidArgument)),
        }
    }
}

} // verus!
