//! The compiler: a script to a program of the virtual machine.

use crate::script::ast::block_literals;
use crate::script::ast::block_strings;
use crate::script::ast::block_view;
use crate::script::ast::call_view;
use crate::script::ast::expression_view;
use crate::script::ast::expressions_view;
use crate::script::ast::function_view;
use crate::script::ast::hoisted_block;
use crate::script::ast::keyed;
use crate::script::ast::lemma_block_literals;
use crate::script::ast::lemma_expressions_view;
use crate::script::ast::lists;
use crate::script::ast::make_key;
use crate::script::ast::texts;
use crate::script::ast::line_view;
use crate::script::ast::pairs_view;
use crate::script::ast::parameters_view;
use crate::script::ast::script_view;
use crate::script::ast::statement_view;
use crate::script::ast::term_strings;
use crate::script::ast::term_view;
use crate::script::ast::CallView;
use crate::script::ast::Expression;
use crate::script::ast::ExpressionView;
use crate::script::ast::FunctionCall;
use crate::script::ast::FunctionDef;
use crate::script::ast::FunctionView;
use crate::script::ast::Line;
use crate::script::ast::LineView;
use crate::script::ast::Script;
use crate::script::ast::Statement;
use crate::script::ast::StatementView;
use crate::script::ast::Term;
use crate::script::ast::TermView;
use crate::script::table::entries;
use crate::script::table::inserted;
use crate::script::table::lookup;
use crate::script::table::position;
use crate::parser::code_points;
use crate::text::to_chars;
use crate::types::has_end;
use crate::types::hash_label;
use crate::types::labels_named;
use crate::types::program_view;
use crate::types::Error;
use crate::types::Program;
use crate::types::instruction_view;
use crate::types::label_hash;
use crate::types::Argument;
use crate::types::Command;
use crate::types::Instruction;
use crate::types::Operand;
use indexmap::IndexMap;
use vstd::prelude::*;
use vstd::string::StringExecFns;

verus! {

/// Why a script cannot be compiled.
#[derive(Debug, Clone, Copy, PartialEq, Eq)]
pub enum CompileFault {
    /// An identifier is used that is no parameter of the function around it.
    VariableNotFound,
    /// An argument of a call is itself a call.
    NestedCall,
    /// A string literal stands where no data can be hoisted: outside of every function.
    StringLiteral,
    /// A function has more than 255 parameters.
    TooManyParameters,
}

/// The text that reports a fault to the caller.
pub open spec fn fault_message(fault: CompileFault) -> Seq<char> {
    match fault {
        CompileFault::VariableNotFound => "variable not found"@,
        CompileFault::NestedCall => "nested function calls are not supported"@,
        CompileFault::StringLiteral => "string literal outside of a function"@,
        CompileFault::TooManyParameters => "too many parameters"@,
    }
}

/// The text that reports a fault to the caller, as a string.
pub fn fault_text(fault: CompileFault) -> (text: String)
    ensures
        text@ == fault_message(fault),
{
    match fault {
        CompileFault::VariableNotFound => String::from_str("variable not found"),
        CompileFault::NestedCall => String::from_str("nested function calls are not supported"),
        CompileFault::StringLiteral => String::from_str("string literal outside of a function"),
        CompileFault::TooManyParameters => String::from_str("too many parameters"),
    }
}

/// The most parameters that a function can have: each lives in the register after its
/// position, and a register has an 8-bit number.
pub const PARAMETER_LIMIT: usize = 255;

/// An instruction with one operand.
pub open spec fn unary(command: Command, first: Operand) -> Instruction {
    Instruction { command, first, second: Operand::Absent }
}

/// The registers of the first `count` parameters: each parameter lives in the register
/// after its position, and of two parameters with one name the later counts.
pub open spec fn parameter_registers(parameters: Seq<Seq<char>>, count: nat) -> Seq<
    (Seq<char>, u64),
>
    decreases count,
{
    if count == 0 {
        Seq::empty()
    } else {
        inserted(
            parameter_registers(parameters, (count - 1) as nat),
            parameters[count - 1],
            count as u64,
        )
    }
}

/// The push of a term: a number as it is, a reference to hoisted data as the address of
/// its label, a parameter from its register.
pub open spec fn lowered_term(term: TermView, registers: Seq<(Seq<char>, u64)>) -> Result<
    Instruction,
    CompileFault,
> {
    match term {
        TermView::Number(value) => Ok(unary(Command::Push, Operand::Raw(value))),
        TermView::PointerRef(name) => Ok(
            unary(Command::Push, Operand::RawLabel(label_hash(name))),
        ),
        TermView::Ident(name) => match lookup(registers, name) {
            Some(register) => Ok(unary(Command::Push, Operand::Register(register as u8))),
            None => Err(CompileFault::VariableNotFound),
        },
        TermView::Text(_) => Err(CompileFault::StringLiteral),
    }
}

/// The pushes of the arguments of a call, from left to right.
pub open spec fn lowered_arguments(
    arguments: Seq<ExpressionView>,
    registers: Seq<(Seq<char>, u64)>,
) -> Result<Seq<Instruction>, CompileFault>
    decreases arguments.len(),
{
    if arguments.len() == 0 {
        Ok(Seq::empty())
    } else {
        match lowered_arguments(arguments.drop_last(), registers) {
            Err(fault) => Err(fault),
            Ok(pushes) => match arguments.last() {
                ExpressionView::Term(term) => match lowered_term(term, registers) {
                    Ok(push) => Ok(pushes.push(push)),
                    Err(fault) => Err(fault),
                },
                ExpressionView::Call(_) => Err(CompileFault::NestedCall),
            },
        }
    }
}

/// A call: the pushes of its arguments, then the call of the function's label.
pub open spec fn lowered_call(call: CallView, registers: Seq<(Seq<char>, u64)>) -> Result<
    Seq<Instruction>,
    CompileFault,
> {
    let pushes = match call.arguments {
        Some(arguments) => lowered_arguments(arguments, registers),
        None => Ok(Seq::empty()),
    };
    match pushes {
        Ok(pushes) => Ok(
            pushes.push(unary(Command::Call, Operand::RawLabel(label_hash(call.name)))),
        ),
        Err(fault) => Err(fault),
    }
}

/// An instruction without operands.
pub open spec fn plain(command: Command) -> Instruction {
    Instruction { command, first: Operand::Absent, second: Operand::Absent }
}

/// A statement: what it does, and then a return.
pub open spec fn lowered_statement(
    statement: StatementView,
    registers: Seq<(Seq<char>, u64)>,
) -> Result<Seq<Instruction>, CompileFault> {
    let work = match statement {
        StatementView::Expression(ExpressionView::Term(_)) => Ok(Seq::empty()),
        StatementView::Expression(ExpressionView::Call(call)) => lowered_call(call, registers),
        StatementView::Return(term) => match lowered_term(term, registers) {
            Ok(push) => Ok(seq![push]),
            Err(fault) => Err(fault),
        },
    };
    match work {
        Ok(work) => Ok(work.push(plain(Command::Return))),
        Err(fault) => Err(fault),
    }
}

/// The statements of a function body, one after the other.
pub open spec fn lowered_block(block: Seq<StatementView>, registers: Seq<(Seq<char>, u64)>) -> Result<
    Seq<Instruction>,
    CompileFault,
>
    decreases block.len(),
{
    if block.len() == 0 {
        Ok(Seq::empty())
    } else {
        match lowered_block(block.drop_last(), registers) {
            Err(fault) => Err(fault),
            Ok(done) => match lowered_statement(block.last(), registers) {
                Ok(statement) => Ok(done + statement),
                Err(fault) => Err(fault),
            },
        }
    }
}

/// The pops that bring the arguments of a call into the registers of the parameters.
pub open spec fn pops(count: nat) -> Seq<Instruction> {
    Seq::new(count, |i: int| unary(Command::Pop, Operand::Register((i + 1) as u8)))
}

/// The parameters of a function.
pub open spec fn parameters_of(function: FunctionView) -> Seq<Seq<char>> {
    match function.parameters {
        Some(parameters) => parameters,
        None => Seq::empty(),
    }
}

/// A function: its label, the pops of its parameters, and its body.
pub open spec fn lowered_function(function: FunctionView) -> Result<
    Seq<Instruction>,
    CompileFault,
> {
    let parameters = parameters_of(function);
    if parameters.len() > PARAMETER_LIMIT {
        Err(CompileFault::TooManyParameters)
    } else {
        match lowered_block(
            function.body,
            parameter_registers(parameters, parameters.len()),
        ) {
            Ok(body) => Ok(
                seq![unary(Command::Label, Operand::RawLabel(label_hash(function.name)))] + pops(
                    parameters.len(),
                ) + body,
            ),
            Err(fault) => Err(fault),
        }
    }
}

/// The values of a list of instructions.
pub open spec fn instructions_view(commands: Seq<(Command, [Argument; 2])>) -> Seq<Instruction> {
    Seq::new(commands.len(), |i: int| instruction_view(commands[i]))
}

/// Whether instructions were appended as expected, or the expected fault was found.
pub open spec fn appended(
    result: Result<(), CompileFault>,
    commands: Seq<(Command, [Argument; 2])>,
    before: Seq<(Command, [Argument; 2])>,
    expected: Result<Seq<Instruction>, CompileFault>,
) -> bool {
    match expected {
        Ok(instructions) => result is Ok && instructions_view(commands) == instructions_view(
            before,
        ) + instructions,
        Err(fault) => result == Err::<(), CompileFault>(fault),
    }
}

/// Appends an instruction with one operand.
fn emit(commands: &mut Vec<(Command, [Argument; 2])>, command: Command, first: Argument)
    ensures
        instructions_view(final(commands)@) == instructions_view(old(commands)@).push(
            unary(command, first@),
        ),
        instructions_view(final(commands)@) == instructions_view(old(commands)@) + seq![
            unary(command, first@),
        ],
{
    commands.push((command, [first, Argument::Absent]));
    assert(instructions_view(commands@) =~= instructions_view(old(commands)@).push(
        unary(command, first@),
    ));
    assert(instructions_view(commands@) =~= instructions_view(old(commands)@) + seq![
        unary(command, first@),
    ]);
}

/// Whether every number of the table is the number of a register.
pub open spec fn registers_fit(table: Seq<(Seq<char>, u64)>) -> bool {
    forall|i: int| 0 <= i < table.len() ==> (#[trigger] table[i]).1 <= PARAMETER_LIMIT
}

/// The registers of up to 255 parameters have the numbers 1 to 255.
pub proof fn lemma_registers_fit(parameters: Seq<Seq<char>>, count: nat)
    requires
        count <= PARAMETER_LIMIT,
    ensures
        registers_fit(parameter_registers(parameters, count)),
    decreases count,
{
    if count > 0 {
        lemma_registers_fit(parameters, (count - 1) as nat);
    }
}

/// Appends the push of a term.
fn encode_term(
    term: &Term,
    commands: &mut Vec<(Command, [Argument; 2])>,
    args_registers: &IndexMap<String, u64>,
) -> (result: Result<(), CompileFault>)
    requires
        registers_fit(entries(*args_registers)),
    ensures
        appended(
            result,
            final(commands)@,
            old(commands)@,
            match lowered_term(term_view(*term), entries(*args_registers)) {
                Ok(push) => Ok(seq![push]),
                Err(fault) => Err(fault),
            },
        ),
        result is Err ==> final(commands)@ == old(commands)@,
{
    match term {
        Term::Number(number) => {
            emit(commands, Command::Push, Argument::Raw(number.value));
        },
        Term::PointerRef(pointer) => {
            emit(
                commands,
                Command::Push,
                Argument::RawLabel(hash_label(pointer.ident.as_str())),
            );
        },
        Term::Ident(ident) => {
            match crate::script::table::get(args_registers, ident.ident.as_str()) {
                Some(register) => {
                    emit(commands, Command::Push, Argument::Register(register as u8));
                },
                None => {
                    return Err(CompileFault::VariableNotFound);
                },
            }
        },
        Term::String(_) => {
            return Err(CompileFault::StringLiteral);
        },
    }
    Ok(())
}

/// Appends the pushes of the arguments of a call and the call itself.
#[verifier::loop_isolation(false)]
fn encode_function_call(
    call: &FunctionCall,
    commands: &mut Vec<(Command, [Argument; 2])>,
    args_registers: &IndexMap<String, u64>,
) -> (result: Result<(), CompileFault>)
    requires
        registers_fit(entries(*args_registers)),
    ensures
        appended(
            result,
            final(commands)@,
            old(commands)@,
            lowered_call(call_view(*call), entries(*args_registers)),
        ),
{
    let ghost registers = entries(*args_registers);
    if let Some(args) = &call.params {
        let ghost given = expressions_view(args.arguments, args.arguments.len() as nat);
        let mut i: usize = 0;
        assert(instructions_view(commands@) + Seq::<Instruction>::empty() =~= instructions_view(
            commands@,
        ));
        proof {
            lemma_expressions_view(args.arguments, args.arguments.len() as nat);
        }
        assert(given.take(0) =~= Seq::<ExpressionView>::empty());
        while i < args.arguments.len()
            invariant
                i <= args.arguments.len(),
                registers == entries(*args_registers),
                registers_fit(registers),
                given == expressions_view(args.arguments, args.arguments.len() as nat),
                given.len() == args.arguments.len(),
                forall|j: int|
                    0 <= j < given.len() ==> #[trigger] given[j] == expression_view(
                        args.arguments[j],
                    ),
                lowered_arguments(given.take(i as int), registers) is Ok,
                instructions_view(commands@) == instructions_view(old(commands)@)
                    + lowered_arguments(given.take(i as int), registers)->Ok_0,
            decreases args.arguments.len() - i,
        {
            let ghost done = lowered_arguments(given.take(i as int), registers)->Ok_0;
            let ghost longer = given.take(i + 1);
            assert(longer.drop_last() == given.take(i as int));
            assert(longer.last() == expression_view(args.arguments[i as int]));
            match &args.arguments[i] {
                Expression::Term(term) => {
                    match encode_term(term, commands, args_registers) {
                        Ok(()) => {
                            let ghost push = lowered_term(term_view(*term), registers)->Ok_0;
                            assert(instructions_view(old(commands)@) + done + seq![push]
                                =~= instructions_view(old(commands)@) + done.push(push));
                        },
                        Err(fault) => {
                            proof {
                                lemma_arguments_fail(given, registers, i + 1);
                            }
                            return Err(fault);
                        },
                    }
                },
                Expression::FunctionCall(_) => {
                    proof {
                        lemma_arguments_fail(given, registers, i + 1);
                    }
                    return Err(CompileFault::NestedCall);
                },
            }
            i = i + 1;
        }
        assert(given.take(i as int) == given);
    } else {
        assert(instructions_view(commands@) + Seq::<Instruction>::empty() =~= instructions_view(
            commands@,
        ));
    }
    emit(commands, Command::Call, Argument::RawLabel(hash_label(call.ident.ident.as_str())));
    assert(instructions_view(commands@) =~= instructions_view(old(commands)@) + lowered_call(
        call_view(*call),
        registers,
    )->Ok_0);
    Ok(())
}

/// Once an argument has failed, the arguments after it change nothing.
pub proof fn lemma_arguments_fail(
    arguments: Seq<ExpressionView>,
    registers: Seq<(Seq<char>, u64)>,
    count: int,
)
    requires
        0 <= count <= arguments.len(),
        lowered_arguments(arguments.take(count), registers) is Err,
    ensures
        lowered_arguments(arguments, registers) == lowered_arguments(
            arguments.take(count),
            registers,
        ),
    decreases arguments.len(),
{
    if count < arguments.len() {
        assert(arguments.drop_last().take(count) == arguments.take(count));
        lemma_arguments_fail(arguments.drop_last(), registers, count);
    } else {
        assert(arguments.take(count) == arguments);
    }
}

/// Once a statement has failed, the statements after it change nothing.
pub proof fn lemma_block_fails(
    block: Seq<StatementView>,
    registers: Seq<(Seq<char>, u64)>,
    count: int,
)
    requires
        0 <= count <= block.len(),
        lowered_block(block.take(count), registers) is Err,
    ensures
        lowered_block(block, registers) == lowered_block(block.take(count), registers),
    decreases block.len(),
{
    if count < block.len() {
        assert(block.drop_last().take(count) == block.take(count));
        lemma_block_fails(block.drop_last(), registers, count);
    } else {
        assert(block.take(count) == block);
    }
}

/// Appends what an expression does when it stands as a statement.
fn encode_expression(
    expr: &Expression,
    commands: &mut Vec<(Command, [Argument; 2])>,
    args_registers: &IndexMap<String, u64>,
) -> (result: Result<(), CompileFault>)
    requires
        registers_fit(entries(*args_registers)),
    ensures
        appended(
            result,
            final(commands)@,
            old(commands)@,
            match expression_view(*expr) {
                ExpressionView::Term(_) => Ok(Seq::empty()),
                ExpressionView::Call(call) => lowered_call(call, entries(*args_registers)),
            },
        ),
{
    match expr {
        Expression::Term(_) => {
            assert(instructions_view(commands@) + Seq::<Instruction>::empty() =~= instructions_view(
                commands@,
            ));
            Ok(())
        },
        Expression::FunctionCall(function_call) => encode_function_call(
            function_call,
            commands,
            args_registers,
        ),
    }
}

/// Appends a statement and the return after it.
fn encode_statement(
    statement: &Statement,
    commands: &mut Vec<(Command, [Argument; 2])>,
    args_registers: &IndexMap<String, u64>,
) -> (result: Result<(), CompileFault>)
    requires
        registers_fit(entries(*args_registers)),
    ensures
        appended(
            result,
            final(commands)@,
            old(commands)@,
            lowered_statement(statement_view(*statement), entries(*args_registers)),
        ),
{
    let result = match statement {
        Statement::Expression(expr) => encode_expression(expr, commands, args_registers),
        Statement::Return(statement) => encode_term(&statement.item, commands, args_registers),
    };
    match result {
        Ok(()) => {
            let ghost work = instructions_view(commands@);
            commands.push((Command::Return, [Argument::Absent, Argument::Absent]));
            assert(instructions_view(commands@) =~= work.push(plain(Command::Return)));
            assert(instructions_view(commands@) =~= instructions_view(old(commands)@)
                + lowered_statement(statement_view(*statement), entries(*args_registers))->Ok_0);
            Ok(())
        },
        Err(fault) => Err(fault),
    }
}

/// Appends a function: its label, the pops of its parameters, and its body.
#[verifier::loop_isolation(false)]
fn encode_function(function: &FunctionDef, commands: &mut Vec<(Command, [Argument; 2])>) -> (result:
    Result<(), CompileFault>)
    ensures
        appended(
            result,
            final(commands)@,
            old(commands)@,
            lowered_function(function_view(*function)),
        ),
{
    let ghost view = function_view(*function);
    let ghost parameters = parameters_of(view);
    let mut args_registers = crate::script::table::new_table();
    let ghost start = instructions_view(commands@);
    emit(commands, Command::Label, Argument::RawLabel(hash_label(function.ident.ident.as_str())));
    let ghost label = seq![unary(Command::Label, Operand::RawLabel(label_hash(view.name)))];
    if let Some(args) = &function.params {
        if args.args.len() > PARAMETER_LIMIT {
            return Err(CompileFault::TooManyParameters);
        }
        let mut index: usize = 0;
        assert(start + label + pops(0) =~= start + label);
        while index < args.args.len()
            invariant
                index <= args.args.len() <= PARAMETER_LIMIT,
                parameters == parameters_view(*args),
                entries(args_registers) == parameter_registers(parameters, index as nat),
                instructions_view(commands@) == start + label + pops(index as nat),
            decreases args.args.len() - index,
        {
            let reg_index = (index + 1) as u8;
            crate::script::table::insert(
                &mut args_registers,
                args.args[index].ident.clone(),
                (index + 1) as u64,
            );
            emit(commands, Command::Pop, Argument::Register(reg_index));
            assert(start + label + pops(index as nat) + seq![
                unary(Command::Pop, Operand::Register(reg_index)),
            ] =~= start + label + pops((index + 1) as nat));
            index = index + 1;
        }
    } else {
        assert(start + label + pops(0) =~= start + label);
    }
    let ghost registers = entries(args_registers);
    let ghost head = start + label + pops(parameters.len());
    let ghost block = view.body;
    proof {
        lemma_registers_fit(parameters, parameters.len());
    }
    let mut i: usize = 0;
    assert(head + Seq::<Instruction>::empty() =~= head);
    assert(block.take(0) =~= Seq::<StatementView>::empty());
    while i < function.body.statements.len()
        invariant
            i <= function.body.statements.len(),
            block == block_view(function.body),
            registers == entries(args_registers),
            registers_fit(registers),
            lowered_block(block.take(i as int), registers) is Ok,
            instructions_view(commands@) == head + lowered_block(
                block.take(i as int),
                registers,
            )->Ok_0,
        decreases function.body.statements.len() - i,
    {
        let ghost done = lowered_block(block.take(i as int), registers)->Ok_0;
        let ghost longer = block.take(i + 1);
        assert(longer.drop_last() == block.take(i as int));
        assert(longer.last() == statement_view(function.body.statements[i as int]));
        match encode_statement(&function.body.statements[i], commands, &args_registers) {
            Ok(()) => {
                let ghost statement = lowered_statement(longer.last(), registers)->Ok_0;
                assert(head + done + statement =~= head + (done + statement));
            },
            Err(fault) => {
                proof {
                    lemma_block_fails(block, registers, i + 1);
                }
                return Err(fault);
            },
        }
        i = i + 1;
    }
    assert(block.take(i as int) == block);
    assert(head + lowered_block(block, registers)->Ok_0 =~= start + (label + pops(
        parameters.len(),
    ) + lowered_block(block, registers)->Ok_0));
    Ok(())
}

/// A line after hoisting: the body of a function has references where its string
/// literals stood, and any other line is as it was.
pub open spec fn hoisted_line(line: LineView) -> LineView {
    match line {
        LineView::Function(function) => LineView::Function(
            FunctionView { body: hoisted_block(function.body, function.name, 0), ..function },
        ),
        _ => line,
    }
}

/// A script after hoisting.
pub open spec fn hoisted_script(script: Seq<LineView>) -> Seq<LineView> {
    Seq::new(script.len(), |i: int| hoisted_line(script[i]))
}

/// The string literals of a line with their labels: those of the body of a function.
pub open spec fn line_literals(line: LineView) -> Seq<(Seq<char>, Seq<char>)> {
    match line {
        LineView::Function(function) => keyed(block_strings(function.body), function.name, 0),
        _ => Seq::empty(),
    }
}

/// The string literals of the functions among the first `count` lines, with their labels.
pub open spec fn literals(script: Seq<LineView>, count: nat) -> Seq<(Seq<char>, Seq<char>)>
    decreases count,
{
    if count == 0 {
        Seq::empty()
    } else {
        literals(script, (count - 1) as nat) + line_literals(script[count - 1])
    }
}

/// The functions among the first `count` lines: each name with the line of its last
/// definition, in the order in which the names first occur.
pub open spec fn function_table(script: Seq<LineView>, count: nat) -> Seq<(Seq<char>, u64)>
    decreases count,
{
    if count == 0 {
        Seq::empty()
    } else {
        let before = function_table(script, (count - 1) as nat);
        match script[count - 1] {
            LineView::Function(function) => inserted(before, function.name, (count - 1) as u64),
            _ => before,
        }
    }
}

/// The labels of the first `count` literals: each label with the position of the last
/// literal that has it, in the order in which the labels first occur.
pub open spec fn data_table(pairs: Seq<(Seq<char>, Seq<char>)>, count: nat) -> Seq<
    (Seq<char>, u64),
>
    decreases count,
{
    if count == 0 {
        Seq::empty()
    } else {
        inserted(data_table(pairs, (count - 1) as nat), pairs[count - 1].0, (count - 1) as u64)
    }
}

/// The data of a labelled literal: the code points of its text.
pub open spec fn data_instruction(label: Seq<char>, text: Seq<char>) -> Instruction {
    unary(Command::LabelledData(label_hash(label)), Operand::Literal(code_points(text)))
}

/// The data of the first `count` labels of the table.
pub open spec fn data_instructions(
    pairs: Seq<(Seq<char>, Seq<char>)>,
    table: Seq<(Seq<char>, u64)>,
    count: nat,
) -> Seq<Instruction> {
    Seq::new(count, |i: int| data_instruction(table[i].0, pairs[table[i].1 as int].1))
}

/// What a line contributes as a function.
pub open spec fn lowered_definition(line: LineView) -> Result<Seq<Instruction>, CompileFault> {
    match line {
        LineView::Function(function) => lowered_function(function),
        _ => Ok(Seq::empty()),
    }
}

/// The functions of the first `count` entries of the table.
pub open spec fn lowered_functions(
    script: Seq<LineView>,
    table: Seq<(Seq<char>, u64)>,
    count: nat,
) -> Result<Seq<Instruction>, CompileFault>
    decreases count,
{
    if count == 0 {
        Ok(Seq::empty())
    } else {
        match lowered_functions(script, table, (count - 1) as nat) {
            Err(fault) => Err(fault),
            Ok(done) => match lowered_definition(script[table[count - 1].1 as int]) {
                Ok(function) => Ok(done + function),
                Err(fault) => Err(fault),
            },
        }
    }
}

/// What a line contributes to the main part: a call is made, anything else is passed over.
pub open spec fn lowered_line(line: LineView) -> Result<Seq<Instruction>, CompileFault> {
    match line {
        LineView::Call(call) => lowered_call(call, Seq::empty()),
        _ => Ok(Seq::empty()),
    }
}

/// The main part of the first `count` lines.
pub open spec fn lowered_lines(script: Seq<LineView>, count: nat) -> Result<
    Seq<Instruction>,
    CompileFault,
>
    decreases count,
{
    if count == 0 {
        Ok(Seq::empty())
    } else {
        match lowered_lines(script, (count - 1) as nat) {
            Err(fault) => Err(fault),
            Ok(done) => match lowered_line(script[count - 1]) {
                Ok(line) => Ok(done + line),
                Err(fault) => Err(fault),
            },
        }
    }
}

/// The label at which the main part starts.
pub open spec fn main_label() -> u64 {
    label_hash(".main"@)
}

/// The instructions of a script: a branch to the main part, the data of the hoisted
/// string literals, the functions, the main part, and the pop of the result.
pub open spec fn lowered(script: Seq<LineView>) -> Result<Seq<Instruction>, CompileFault> {
    let pairs = literals(script, script.len());
    let data = data_table(pairs, pairs.len());
    let functions = function_table(script, script.len());
    match lowered_functions(hoisted_script(script), functions, functions.len()) {
        Err(fault) => Err(fault),
        Ok(bodies) => match lowered_lines(script, script.len()) {
            Err(fault) => Err(fault),
            Ok(calls) => Ok(
                seq![unary(Command::Branch, Operand::RawLabel(main_label()))] + data_instructions(
                    pairs,
                    data,
                    data.len(),
                ) + bodies + seq![unary(Command::Label, Operand::RawLabel(main_label()))] + calls
                    + seq![unary(Command::Pop, Operand::Register(0))],
            ),
        },
    }
}

/// The program of a list of instructions: each at the index of its position.
pub open spec fn numbered(instructions: Seq<Instruction>) -> Map<u64, Instruction> {
    Map::new(|line: u64| line < instructions.len(), |line: u64| instructions[line as int])
}

/// Whether every number of the table is below `bound`.
pub open spec fn below(table: Seq<(Seq<char>, u64)>, bound: nat) -> bool {
    forall|i: int| 0 <= i < table.len() ==> (#[trigger] table[i]).1 < bound
}

/// The lines of the function table are lines of the script.
pub proof fn lemma_function_lines(script: Seq<LineView>, count: nat)
    ensures
        below(function_table(script, count), count),
    decreases count,
{
    if count > 0 {
        lemma_function_lines(script, (count - 1) as nat);
    }
}

/// The positions of the data table are positions of literals.
pub proof fn lemma_data_positions(pairs: Seq<(Seq<char>, Seq<char>)>, count: nat)
    ensures
        below(data_table(pairs, count), count),
    decreases count,
{
    if count > 0 {
        lemma_data_positions(pairs, (count - 1) as nat);
    }
}

/// Hoists the string literals of a function: lists them, labels each with the name of the
/// function and its position in the list, and puts the references to the data in their
/// places. Returns the literals with their labels.
fn hoist_function(function: &mut FunctionDef) -> (found: Vec<(String, String)>)
    ensures
        function_view(*final(function)) == (FunctionView {
            body: hoisted_block(
                function_view(*old(function)).body,
                function_view(*old(function)).name,
                0,
            ),
            ..function_view(*old(function))
        }),
        pairs_view(found@) == keyed(
            block_strings(function_view(*old(function)).body),
            function_view(*old(function)).name,
            0,
        ),
{
    let name = function.ident.ident.clone();
    let mut found: Vec<(String, String)> = Vec::new();
    let ghost strings = block_strings(block_view(function.body));
    let mut heap_values: Vec<&Term> = Vec::new();
    function.body.add_heap_values(&mut heap_values);
    proof {
        lemma_block_literals(&function.body, function.body.statements.len() as nat);
        assert(block_view(function.body).take(function.body.statements.len() as int)
            == block_view(function.body));
        assert(heap_values@ =~= block_literals(
            &function.body,
            function.body.statements.len() as nat,
        ));
    }
    let mut index: usize = 0;
    assert(pairs_view(found@) =~= keyed(strings.take(0), name@, 0));
    while index < heap_values.len()
        invariant
            index <= heap_values.len(),
            lists(heap_values@, strings),
            pairs_view(found@) == keyed(strings.take(index as int), name@, 0),
        decreases heap_values.len() - index,
    {
        let ghost before = pairs_view(found@);
        assert(*heap_values@[index as int] is String);
        assert(strings[index as int] == texts(heap_values@)[index as int]);
        if let Term::String(literal) = heap_values[index] {
            let key = make_key(name.as_str(), index);
            let value = literal.value.clone();
            assert(value@ == term_strings(term_view(*heap_values@[index as int]))[0]);
            found.push((key, value));
            assert(pairs_view(found@) =~= before.push((key@, value@)));
        }
        index = index + 1;
        assert(strings.take(index as int) =~= strings.take(index - 1).push(strings[index - 1]));
        assert(pairs_view(found@) =~= keyed(strings.take(index as int), name@, 0));
    }
    assert(strings.take(index as int) == strings);
    function.body.hoist(name.as_str(), 0);
    found
}

/// Hoists the string literals of all functions of the script. Returns the literals with
/// their labels, and the table of the functions.
fn gather(script: &mut Script) -> (gathered: (Vec<(String, String)>, IndexMap<String, u64>))
    ensures
        script_view(*final(script)) == hoisted_script(script_view(*old(script))),
        pairs_view(gathered.0@) == literals(
            script_view(*old(script)),
            script_view(*old(script)).len(),
        ),
        entries(gathered.1) == function_table(
            script_view(*old(script)),
            script_view(*old(script)).len(),
        ),
{
    let ghost given = script_view(*old(script));
    let mut hoisted_static_values: Vec<(String, String)> = Vec::new();
    let mut defined_functions = crate::script::table::new_table();
    let mut index: usize = 0;
    assert(pairs_view(hoisted_static_values@) =~= literals(given, 0));
    while index < script.program.lines.len()
        invariant
            index <= script.program.lines.len(),
            given == script_view(*old(script)),
            script.program.lines.len() == given.len(),
            forall|j: int| index <= j < given.len() ==> line_view(script.program.lines[j]) == given[j],
            forall|j: int|
                0 <= j < index ==> line_view(script.program.lines[j]) == hoisted_line(given[j]),
            pairs_view(hoisted_static_values@) == literals(given, index as nat),
            entries(defined_functions) == function_table(given, index as nat),
        decreases script.program.lines.len() - index,
    {
        let ghost listed = hoisted_static_values@;
        match &mut script.program.lines[index] {
            Line::FunctionDef(x) => {
                let name = x.ident.ident.clone();
                let mut heap_values = hoist_function(x);
                let ghost found = heap_values@;
                assert(pairs_view(found) =~= line_literals(given[index as int]));
                hoisted_static_values.append(&mut heap_values);
                assert(pairs_view(hoisted_static_values@) =~= pairs_view(listed) + pairs_view(
                    found,
                ));
                crate::script::table::insert(&mut defined_functions, name, index as u64);
            },
            _ => {
                assert(pairs_view(listed) + Seq::<(Seq<char>, Seq<char>)>::empty() =~= pairs_view(
                    listed,
                ));
            },
        }
        index = index + 1;
    }
    assert(script_view(*script) =~= hoisted_script(given));
    (hoisted_static_values, defined_functions)
}
/// The code points of a text.
fn encode_text(text: &str) -> (values: Vec<u64>)
    ensures
        values@ == code_points(text@),
{
    let letters = to_chars(text);
    let mut values: Vec<u64> = Vec::new();
    let mut i: usize = 0;
    while i < letters.len()
        invariant
            i <= letters.len(),
            values@ == code_points(letters@.take(i as int)),
        decreases letters.len() - i,
    {
        values.push(letters[i] as u64);
        i = i + 1;
        assert(values@ =~= code_points(letters@.take(i as int)));
    }
    assert(letters@.take(i as int) == letters@);
    values
}

/// Appends the data of the hoisted string literals: one block for each label, in the
/// order in which the labels first occur.
#[verifier::loop_isolation(false)]
fn encode_data(pairs: &Vec<(String, String)>, commands: &mut Vec<(Command, [Argument; 2])>)
    ensures
        instructions_view(final(commands)@) == instructions_view(old(commands)@)
            + data_instructions(
            pairs_view(pairs@),
            data_table(pairs_view(pairs@), pairs@.len()),
            data_table(pairs_view(pairs@), pairs@.len()).len(),
        ),
{
    let ghost literals = pairs_view(pairs@);
    let mut labels = crate::script::table::new_table();
    let mut index: usize = 0;
    while index < pairs.len()
        invariant
            index <= pairs.len(),
            entries(labels) == data_table(literals, index as nat),
        decreases pairs.len() - index,
    {
        crate::script::table::insert(&mut labels, pairs[index].0.clone(), index as u64);
        index = index + 1;
    }
    let ghost table = entries(labels);
    proof {
        lemma_data_positions(literals, pairs@.len());
    }
    let count = crate::script::table::len(&labels);
    let mut position: usize = 0;
    assert(instructions_view(commands@) + data_instructions(literals, table, 0)
        =~= instructions_view(commands@));
    while position < count
        invariant
            position <= count,
            instructions_view(commands@) == instructions_view(old(commands)@)
                + data_instructions(literals, table, position as nat),
        decreases count - position,
    {
        if let Some((key, value_index)) = crate::script::table::get_index(&labels, position) {
            assert(table[position as int].1 < pairs@.len());
            let encoded_value = encode_text(pairs[value_index as usize].1.as_str());
            emit(
                commands,
                Command::LabelledData(hash_label(key.as_str())),
                Argument::Literal(encoded_value),
            );
            assert(instructions_view(old(commands)@) + data_instructions(
                literals,
                table,
                position as nat,
            ) + seq![data_instruction(table[position as int].0, literals[value_index as int].1)]
                =~= instructions_view(old(commands)@) + data_instructions(
                literals,
                table,
                (position + 1) as nat,
            ));
        }
        position = position + 1;
    }
}

/// Once a function has failed, the functions after it change nothing.
pub proof fn lemma_functions_fail(
    script: Seq<LineView>,
    table: Seq<(Seq<char>, u64)>,
    failed: nat,
    count: nat,
)
    requires
        failed <= count,
        lowered_functions(script, table, failed) is Err,
    ensures
        lowered_functions(script, table, count) == lowered_functions(script, table, failed),
    decreases count,
{
    if failed < count {
        lemma_functions_fail(script, table, failed, (count - 1) as nat);
    }
}

/// Once a line has failed, the lines after it change nothing.
pub proof fn lemma_lines_fail(script: Seq<LineView>, failed: nat, count: nat)
    requires
        failed <= count,
        lowered_lines(script, failed) is Err,
    ensures
        lowered_lines(script, count) == lowered_lines(script, failed),
    decreases count,
{
    if failed < count {
        lemma_lines_fail(script, failed, (count - 1) as nat);
    }
}

/// Appends the functions of the table, in the order of the table.
#[verifier::loop_isolation(false)]
fn encode_functions(
    script: &Script,
    defined_functions: &IndexMap<String, u64>,
    commands: &mut Vec<(Command, [Argument; 2])>,
) -> (result: Result<(), CompileFault>)
    requires
        below(entries(*defined_functions), script_view(*script).len()),
    ensures
        appended(
            result,
            final(commands)@,
            old(commands)@,
            lowered_functions(
                script_view(*script),
                entries(*defined_functions),
                entries(*defined_functions).len(),
            ),
        ),
{
    let ghost view = script_view(*script);
    let ghost table = entries(*defined_functions);
    let count = crate::script::table::len(defined_functions);
    let mut position: usize = 0;
    assert(instructions_view(commands@) + Seq::<Instruction>::empty() =~= instructions_view(
        commands@,
    ));
    while position < count
        invariant
            position <= count,
            lowered_functions(view, table, position as nat) is Ok,
            instructions_view(commands@) == instructions_view(old(commands)@)
                + lowered_functions(view, table, position as nat)->Ok_0,
        decreases count - position,
    {
        let ghost done = lowered_functions(view, table, position as nat)->Ok_0;
        if let Some((_, line)) = crate::script::table::get_index(defined_functions, position) {
            assert(table[position as int].1 < view.len());
            assert(view[line as int] == line_view(script.program.lines[line as int]));
            match &script.program.lines[line as usize] {
                Line::FunctionDef(function) => {
                    match encode_function(function, commands) {
                        Ok(()) => {
                            let ghost body = lowered_function(function_view(*function))->Ok_0;
                            assert(instructions_view(old(commands)@) + done + body
                                =~= instructions_view(old(commands)@) + (done + body));
                        },
                        Err(fault) => {
                            proof {
                                lemma_functions_fail(
                                    view,
                                    table,
                                    (position + 1) as nat,
                                    count as nat,
                                );
                            }
                            return Err(fault);
                        },
                    }
                },
                _ => {
                    assert(done + Seq::<Instruction>::empty() =~= done);
                },
            }
        }
        position = position + 1;
    }
    Ok(())
}

/// Appends the main part: the calls among the lines of the script.
#[verifier::loop_isolation(false)]
fn encode_lines(script: &Script, commands: &mut Vec<(Command, [Argument; 2])>) -> (result: Result<
    (),
    CompileFault,
>)
    ensures
        appended(
            result,
            final(commands)@,
            old(commands)@,
            lowered_lines(script_view(*script), script_view(*script).len()),
        ),
{
    let ghost view = script_view(*script);
    let no_registers = crate::script::table::new_table();
    let mut index: usize = 0;
    assert(instructions_view(commands@) + Seq::<Instruction>::empty() =~= instructions_view(
        commands@,
    ));
    while index < script.program.lines.len()
        invariant
            index <= script.program.lines.len(),
            lowered_lines(view, index as nat) is Ok,
            instructions_view(commands@) == instructions_view(old(commands)@) + lowered_lines(
                view,
                index as nat,
            )->Ok_0,
        decreases script.program.lines.len() - index,
    {
        let ghost done = lowered_lines(view, index as nat)->Ok_0;
        assert(view[index as int] == line_view(script.program.lines[index as int]));
        match &script.program.lines[index] {
            Line::FunctionCall(function_call) => {
                match encode_function_call(function_call, commands, &no_registers) {
                    Ok(()) => {
                        let ghost call = lowered_line(view[index as int])->Ok_0;
                        assert(instructions_view(old(commands)@) + done + call
                            =~= instructions_view(old(commands)@) + (done + call));
                    },
                    Err(fault) => {
                        proof {
                            lemma_lines_fail(view, (index + 1) as nat, view.len());
                        }
                        return Err(fault);
                    },
                }
            },
            _ => {
                assert(done + Seq::<Instruction>::empty() =~= done);
            },
        }
        index = index + 1;
    }
    Ok(())
}

/// The lines that are no functions are the same after hoisting, and so is the main part.
pub proof fn lemma_lines_hoisted(script: Seq<LineView>, count: nat)
    requires
        count <= script.len(),
    ensures
        lowered_lines(hoisted_script(script), count) == lowered_lines(script, count),
    decreases count,
{
    if count > 0 {
        lemma_lines_hoisted(script, (count - 1) as nat);
    }
}

/// The program of a list of instructions.
fn number(commands: &Vec<(Command, [Argument; 2])>) -> (program: Program)
    ensures
        program_view(program) == numbered(instructions_view(commands@)),
{
    let mut program = Program::new();
    let ghost instructions = instructions_view(commands@);
    let mut index: usize = 0;
    assert(program_view(program) =~= numbered(instructions.take(0)));
    while index < commands.len()
        invariant
            index <= commands.len(),
            instructions == instructions_view(commands@),
            program_view(program) == numbered(instructions.take(index as int)),
        decreases commands.len() - index,
    {
        let entry = &commands[index];
        let ghost before = program_view(program);
        let copy = (entry.0, [entry.1[0].clone(), entry.1[1].clone()]);
        assert(instruction_view(copy) == instructions[index as int]);
        program.insert(index as u64, copy);
        assert(program_view(program) =~= before.insert(index as u64, instructions[index as int]));
        assert(program_view(program) =~= numbered(instructions.take(index + 1)));
        index = index + 1;
    }
    assert(instructions.take(index as int) == instructions);
    program
}

/// Whether every label instruction of a list names its label.
pub open spec fn names_labels(instructions: Seq<Instruction>) -> bool {
    forall|i: int|
        0 <= i < instructions.len() && (#[trigger] instructions[i]).command is Label
            ==> instructions[i].first is RawLabel
}

/// The pushes of arguments declare no labels.
pub proof fn lemma_arguments_name_labels(
    arguments: Seq<ExpressionView>,
    registers: Seq<(Seq<char>, u64)>,
)
    ensures
        lowered_arguments(arguments, registers) matches Ok(pushes) ==> names_labels(pushes),
    decreases arguments.len(),
{
    if arguments.len() > 0 {
        lemma_arguments_name_labels(arguments.drop_last(), registers);
    }
}

/// A call declares no labels.
pub proof fn lemma_call_names_labels(call: CallView, registers: Seq<(Seq<char>, u64)>)
    ensures
        lowered_call(call, registers) matches Ok(instructions) ==> names_labels(instructions),
{
    if call.arguments is Some {
        lemma_arguments_name_labels(call.arguments->0, registers);
    }
}

/// The statements of a block declare no labels.
pub proof fn lemma_block_names_labels(
    block: Seq<StatementView>,
    registers: Seq<(Seq<char>, u64)>,
)
    ensures
        lowered_block(block, registers) matches Ok(instructions) ==> names_labels(instructions),
    decreases block.len(),
{
    if block.len() > 0 {
        lemma_block_names_labels(block.drop_last(), registers);
        match block.last() {
            StatementView::Expression(ExpressionView::Call(call)) => {
                lemma_call_names_labels(call, registers);
            },
            _ => {},
        }
    }
}

/// The label of a function names it.
pub proof fn lemma_function_names_labels(function: FunctionView)
    ensures
        lowered_function(function) matches Ok(instructions) ==> names_labels(instructions),
{
    let parameters = parameters_of(function);
    lemma_block_names_labels(
        function.body,
        parameter_registers(parameters, parameters.len()),
    );
}

/// The functions of a script declare the labels that name them.
pub proof fn lemma_functions_name_labels(
    script: Seq<LineView>,
    table: Seq<(Seq<char>, u64)>,
    count: nat,
)
    ensures
        lowered_functions(script, table, count) matches Ok(instructions) ==> names_labels(
            instructions,
        ),
    decreases count,
{
    if count > 0 {
        lemma_functions_name_labels(script, table, (count - 1) as nat);
        match script[table[count - 1].1 as int] {
            LineView::Function(function) => {
                lemma_function_names_labels(function);
            },
            _ => {},
        }
    }
}

/// The main part declares no labels.
pub proof fn lemma_lines_name_labels(script: Seq<LineView>, count: nat)
    ensures
        lowered_lines(script, count) matches Ok(instructions) ==> names_labels(instructions),
    decreases count,
{
    if count > 0 {
        lemma_lines_name_labels(script, (count - 1) as nat);
        match script[count - 1] {
            LineView::Call(call) => {
                lemma_call_names_labels(call, Seq::empty());
            },
            _ => {},
        }
    }
}

/// The label instructions of a compiled script name their labels, so that the program
/// can be listed.
pub proof fn lemma_lowered_names_labels(script: Seq<LineView>)
    ensures
        lowered(script) matches Ok(instructions) ==> names_labels(instructions),
{
    let pairs = literals(script, script.len());
    let data = data_table(pairs, pairs.len());
    let functions = function_table(script, script.len());
    lemma_functions_name_labels(hoisted_script(script), functions, functions.len());
    lemma_lines_name_labels(script, script.len());
}

/// Whether a result is the program of the expected instructions, or the message of the
/// expected fault.
pub open spec fn is_compiled(
    result: Result<Program, Error>,
    expected: Result<Seq<Instruction>, CompileFault>,
) -> bool {
    match expected {
        Ok(instructions) => result is Ok && program_view(result->Ok_0) == numbered(instructions),
        Err(fault) => result is Err && result->Err_0@ == fault_message(fault),
    }
}

/// Compiles a script. Its string literals are hoisted on the way: where one stood in a
/// function, the script holds the reference to its data afterwards.
pub fn script_to_program(script: &mut Script) -> (result: Result<Program, Error>)
    ensures
        script_view(*final(script)) == hoisted_script(script_view(*old(script))),
        is_compiled(result, lowered(script_view(*old(script)))),
        result matches Ok(program) ==> labels_named(program_view(program)) && has_end(
            program_view(program),
        ),
{
    let ghost given = script_view(*old(script));
    let mut commands: Vec<(Command, [Argument; 2])> = Vec::new();
    emit(&mut commands, Command::Branch, Argument::RawLabel(hash_label(".main")));
    let (hoisted_static_values, defined_functions) = gather(script);
    encode_data(&hoisted_static_values, &mut commands);
    proof {
        lemma_function_lines(given, given.len());
        lemma_lines_hoisted(given, given.len());
    }
    match encode_functions(script, &defined_functions, &mut commands) {
        Ok(()) => {},
        Err(fault) => {
            return Err(fault_text(fault));
        },
    }
    emit(&mut commands, Command::Label, Argument::RawLabel(hash_label(".main")));
    match encode_lines(script, &mut commands) {
        Ok(()) => {},
        Err(fault) => {
            return Err(fault_text(fault));
        },
    }
    emit(&mut commands, Command::Pop, Argument::Register(0));
    assert(instructions_view(commands@) =~= lowered(given)->Ok_0);
    let program = number(&commands);
    let count = commands.len();
    proof {
        lemma_lowered_names_labels(given);
        let instructions = instructions_view(commands@);
        let view = program_view(program);
        assert(instructions.len() == count);
        assert forall|line: u64| #[trigger]
            view.contains_key(line) && view[line].command is Label implies view[line].first is RawLabel by {
            assert(view[line] == instructions[line as int]);
        }
        assert forall|line: u64| view.contains_key(line) implies line < u64::MAX by {
            assert(line < instructions.len());
        }
    }
    Ok(program)
}

} // verus!
