//! Listing a program and assembling the listing: when the program comes back.

use crate::format::lemma_listing_gap;
use crate::format::line_text;
use crate::format::listing;
use crate::format::program_text;
use crate::format::command_name;
use crate::format::operand_text;
use crate::parser::argument;
use crate::parser::assemble;
use crate::parser::assembled;
use crate::parser::label_length;
use crate::parser::line_instruction;
use crate::parser::mnemonic;
use crate::parser::operands;
use crate::parser::register_number;
use crate::parser::text_lines;
use crate::parser::token_length;
use crate::parser::LineFault;
use crate::runtime::REGISTER_COUNT;
use crate::scan::decimal_number;
use crate::scan::digit_value;
use crate::scan::digits_value;
use crate::scan::lemma_span_is;
use crate::scan::span;
use crate::scan::Stop;
use crate::text::decimal;
use crate::text::digit_char;
use crate::text::is_digit;
use crate::text::is_letter;
use crate::text::is_white_space;
use crate::text::trim;
use crate::text::trim_end;
use crate::text::trim_start;
use crate::types::Command;
use crate::types::Instruction;
use crate::types::Operand;
use vstd::prelude::*;

verus! {

/// Whether the line of an instruction in a listing reads back as the instruction: it
/// ends with the only line feed it has, no carriage return stands before that, and the
/// assembler makes the instruction of what stands before it.
pub open spec fn reads_back(instruction: Instruction) -> bool {
    let text = line_text(instruction);
    let body = text.drop_last();
    &&& text.len() > 0
    &&& text.last() == '\n'
    &&& forall|i: int| 0 <= i < body.len() ==> body[i] != '\n'
    &&& body.len() > 0 ==> body.last() != '\r'
    &&& line_instruction(body) == Ok::<Option<Instruction>, LineFault>(Some(instruction))
}

/// Whether the lines of a program are numbered from 0 without gaps.
pub open spec fn is_dense(program: Map<u64, Instruction>, count: nat) -> bool {
    &&& count <= u64::MAX
    &&& forall|line: u64| program.contains_key(line) <==> line < count
}

/// The lines of the instructions from `from` up to `count`.
pub open spec fn lines_from(program: Map<u64, Instruction>, from: nat, count: nat) -> Seq<char>
    decreases count - from,
{
    if from >= count {
        Seq::empty()
    } else {
        line_text(program[from as u64]) + lines_from(program, from + 1, count)
    }
}

/// What the listed lines hold before their line feeds.
pub open spec fn bodies(program: Map<u64, Instruction>, from: nat, count: nat) -> Seq<Seq<char>>
    decreases count - from,
{
    if from >= count {
        Seq::empty()
    } else {
        seq![line_text(program[from as u64]).drop_last()] + bodies(program, from + 1, count)
    }
}

/// A listing is the lines below some line followed by the lines from there on.
pub proof fn lemma_listing_parts(program: Map<u64, Instruction>, from: nat, count: nat)
    requires
        from <= count,
        is_dense(program, count),
    ensures
        listing(program, from) + lines_from(program, from, count) == listing(program, count),
    decreases count - from,
{
    if from < count {
        lemma_listing_parts(program, from + 1, count);
        assert(program.contains_key(from as u64));
        assert(listing(program, from + 1) == listing(program, from) + line_text(
            program[from as u64],
        ));
        assert(listing(program, from) + (line_text(program[from as u64]) + lines_from(
            program,
            from + 1,
            count,
        )) =~= listing(program, from) + line_text(program[from as u64]) + lines_from(
            program,
            from + 1,
            count,
        ));
    } else {
        assert(listing(program, from) + Seq::<char>::empty() =~= listing(program, from));
    }
}

/// The lines of listed text are what the listed lines hold before their line feeds.
pub proof fn lemma_lines_of_listing(program: Map<u64, Instruction>, from: nat, count: nat)
    requires
        from <= count,
        is_dense(program, count),
        forall|line: u64| line < count ==> reads_back(#[trigger] program[line]),
    ensures
        text_lines(lines_from(program, from, count)) == bodies(program, from, count),
    decreases count - from,
{
    if from < count {
        let first = line_text(program[from as u64]);
        let body = first.drop_last();
        let rest = lines_from(program, from + 1, count);
        let text = lines_from(program, from, count);
        assert(reads_back(program[from as u64]));
        assert(text == first + rest);
        assert forall|i: int| 0 <= i < body.len() implies !crate::scan::stops(
            Stop::LineFeed,
            #[trigger] text[i],
        ) by {
            assert(text[i] == body[i]);
        }
        assert(text[body.len() as int] == first.last());
        lemma_span_is(text, Stop::LineFeed, body.len() as int);
        assert(text.take(body.len() as int) =~= body);
        assert(text.skip(body.len() as int + 1) =~= rest);
        lemma_lines_of_listing(program, from + 1, count);
        if rest.len() == 0 {
            assert(text_lines(rest) =~= Seq::<Seq<char>>::empty());
            assert(seq![body] + Seq::<Seq<char>>::empty() =~= seq![body]);
        }
    }
}

/// The listed lines are as many as the instructions, and each is the line of its own.
pub proof fn lemma_bodies(program: Map<u64, Instruction>, from: nat, count: nat)
    requires
        from <= count,
    ensures
        bodies(program, from, count).len() == count - from,
        forall|i: int|
            0 <= i < count - from ==> #[trigger] bodies(program, from, count)[i] == line_text(
                program[(from + i) as u64],
            ).drop_last(),
    decreases count - from,
{
    if from < count {
        lemma_bodies(program, from + 1, count);
        let rest = bodies(program, from + 1, count);
        assert forall|i: int| 0 <= i < count - from implies #[trigger] bodies(
            program,
            from,
            count,
        )[i] == line_text(program[(from + i) as u64]).drop_last() by {
            if i > 0 {
                assert(bodies(program, from, count)[i] == rest[i - 1]);
            }
        }
    }
}

/// Lines that read back assemble to the instructions they were listed from.
pub proof fn lemma_assembled_bodies(program: Map<u64, Instruction>, count: nat, done: nat)
    requires
        done <= count,
        is_dense(program, count),
        forall|line: u64| line < count ==> reads_back(#[trigger] program[line]),
    ensures
        assembled(bodies(program, 0, count), done) == Ok::<
            Map<u64, Instruction>,
            (nat, LineFault),
        >(program.restrict(Set::new(|line: u64| line < done))),
    decreases done,
{
    let lines = bodies(program, 0, count);
    lemma_bodies(program, 0, count);
    if done == 0 {
        assert(program.restrict(Set::new(|line: u64| line < 0)) =~= Map::empty());
    } else {
        let line = (done - 1) as nat;
        lemma_assembled_bodies(program, count, line);
        assert(reads_back(program[line as u64]));
        assert(lines[line as int] == line_text(program[line as u64]).drop_last());
        assert(program.restrict(Set::new(|other: u64| other < line)).insert(
            line as u64,
            program[line as u64],
        ) =~= program.restrict(Set::new(|other: u64| other < done)));
    }
}

/// Assembling the listing of a program gives the program back, where its lines are
/// numbered from 0 without gaps and the line of each instruction reads back.
pub proof fn lemma_listing_assembles(program: Map<u64, Instruction>, count: nat)
    requires
        is_dense(program, count),
        forall|line: u64| line < count ==> reads_back(#[trigger] program[line]),
    ensures
        assemble(text_lines(program_text(program))) == Ok::<
            Map<u64, Instruction>,
            (nat, LineFault),
        >(program),
{
    lemma_listing_gap(program, count, 0x1_0000_0000_0000_0000);
    lemma_listing_parts(program, 0, count);
    assert(listing(program, 0) + lines_from(program, 0, count) =~= lines_from(program, 0, count));
    lemma_lines_of_listing(program, 0, count);
    lemma_bodies(program, 0, count);
    lemma_assembled_bodies(program, count, count);
    assert(program.restrict(Set::new(|line: u64| line < count)) =~= program);
}

/// Text that does not start with white space has nothing to trim at its start.
pub proof fn lemma_trim_start_none(text: Seq<char>)
    requires
        text.len() == 0 || !is_white_space(text[0]),
    ensures
        trim_start(text) == text,
{
}

/// White space before a text is trimmed away.
pub proof fn lemma_trim_start_space(space: Seq<char>, text: Seq<char>)
    requires
        forall|i: int| 0 <= i < space.len() ==> is_white_space(#[trigger] space[i]),
    ensures
        trim_start(space + text) == trim_start(text),
    decreases space.len(),
{
    if space.len() > 0 {
        let whole = space + text;
        assert(whole[0] == space[0]);
        assert(whole.drop_first() =~= space.drop_first() + text);
        assert forall|i: int| 0 <= i < space.drop_first().len() implies is_white_space(
            #[trigger] space.drop_first()[i],
        ) by {
            assert(space.drop_first()[i] == space[i + 1]);
        }
        lemma_trim_start_space(space.drop_first(), text);
    } else {
        assert(space + text =~= text);
    }
}

/// Text that does not end with white space has nothing to trim at its end.
pub proof fn lemma_trim_end_none(text: Seq<char>)
    requires
        text.len() == 0 || !is_white_space(text.last()),
    ensures
        trim_end(text) == text,
{
}

/// White space after a text is trimmed away.
pub proof fn lemma_trim_end_space(text: Seq<char>, space: Seq<char>)
    requires
        forall|i: int| 0 <= i < space.len() ==> is_white_space(#[trigger] space[i]),
    ensures
        trim_end(text + space) == trim_end(text),
    decreases space.len(),
{
    if space.len() > 0 {
        let whole = text + space;
        assert(whole.last() == space.last());
        assert(whole.drop_last() =~= text + space.drop_last());
        assert forall|i: int| 0 <= i < space.drop_last().len() implies is_white_space(
            #[trigger] space.drop_last()[i],
        ) by {
            assert(space.drop_last()[i] == space[i]);
        }
        lemma_trim_end_space(text, space.drop_last());
    } else {
        assert(text + space =~= text);
    }
}

/// The digits of a number are digits, start with a zero only for zero, and stand for
/// the number.
pub proof fn lemma_decimal(n: nat)
    ensures
        decimal(n).len() >= 1,
        forall|i: int| 0 <= i < decimal(n).len() ==> is_digit(#[trigger] decimal(n)[i]),
        n > 0 ==> '1' <= decimal(n)[0] <= '9',
        n == 0 ==> decimal(n) == seq!['0'],
        digits_value(decimal(n)) == n,
    decreases n,
{
    if n < 10 {
        let digits = decimal(n);
        assert(digits == seq![digit_char(n)]);
        assert(digits.drop_last() =~= Seq::<char>::empty());
        assert(digits_value(digits.drop_last()) == 0);
        assert(digits.last() == digit_char(n));
        assert(digit_value(digit_char(n)) == n);
    } else {
        lemma_decimal(n / 10);
        let head = decimal(n / 10);
        let digits = decimal(n);
        assert(digits == head.push(digit_char(n % 10)));
        assert(digits.drop_last() =~= head);
        assert(digits.last() == digit_char(n % 10));
        assert(digit_value(digit_char(n % 10)) == n % 10);
        assert(digits[0] == head[0]);
        assert forall|i: int| 0 <= i < digits.len() implies is_digit(#[trigger] digits[i]) by {
            if i < head.len() {
                assert(digits[i] == head[i]);
            }
        }
    }
}

/// The digits of a number that is not above `max` are read as that number.
pub proof fn lemma_decimal_number(n: nat, max: nat)
    requires
        n <= max,
    ensures
        decimal_number(decimal(n), max) == Some((n, decimal(n).len())),
{
    lemma_decimal(n);
    let digits = decimal(n);
    if n > 0 {
        assert forall|i: int| 0 <= i < digits.len() implies !crate::scan::stops(
            Stop::NotDigit,
            #[trigger] digits[i],
        ) by {
            assert(is_digit(digits[i]));
        }
        lemma_span_is(digits, Stop::NotDigit, digits.len() as int);
        assert(digits.take(digits.len() as int) =~= digits);
    }
}

/// The length of a run of characters that do not stop a scan, before one that does or
/// before the end.
pub proof fn lemma_span_of_parts(head: Seq<char>, rest: Seq<char>, stop: Stop)
    requires
        forall|i: int| 0 <= i < head.len() ==> !crate::scan::stops(stop, #[trigger] head[i]),
        rest.len() == 0 || crate::scan::stops(stop, rest[0]),
    ensures
        span(head + rest, stop) == head.len(),
        (head + rest).take(head.len() as int) == head,
        (head + rest).skip(head.len() as int) == rest,
{
    let text = head + rest;
    assert forall|i: int| 0 <= i < head.len() implies !crate::scan::stops(
        stop,
        #[trigger] text[i],
    ) by {
        assert(text[i] == head[i]);
    }
    if rest.len() > 0 {
        assert(text[head.len() as int] == rest[0]);
    }
    lemma_span_is(text, stop, head.len() as int);
    assert(text.take(head.len() as int) =~= head);
    assert(text.skip(head.len() as int) =~= rest);
}

/// Whether an operand is a register of the machine or an immediate value.
pub open spec fn is_plain_operand(operand: Operand) -> bool {
    match operand {
        Operand::Register(k) => k < REGISTER_COUNT,
        Operand::Raw(_) => true,
        _ => false,
    }
}

/// Whether a character can stand in the text of a register or of an immediate value.
pub open spec fn is_plain_char(c: char) -> bool {
    c == 'r' || c == '#' || is_digit(c)
}

/// The text of a register or of an immediate value is made of its sign and digits.
pub proof fn lemma_plain_text(operand: Operand)
    requires
        is_plain_operand(operand),
    ensures
        operand_text(operand).len() >= 2,
        forall|i: int|
            0 <= i < operand_text(operand).len() ==> is_plain_char(
                #[trigger] operand_text(operand)[i],
            ),
        operand_text(operand)[0] == 'r' || operand_text(operand)[0] == '#',
{
    reveal_strlit("r");
    reveal_strlit("#");
    let text = operand_text(operand);
    match operand {
        Operand::Register(k) => {
            lemma_decimal(k as nat);
            assert forall|i: int| 0 <= i < text.len() implies is_plain_char(#[trigger] text[i]) by {
                if i > 0 {
                    assert(text[i] == decimal(k as nat)[i - 1]);
                }
            }
        },
        Operand::Raw(n) => {
            lemma_decimal(n as nat);
            assert forall|i: int| 0 <= i < text.len() implies is_plain_char(#[trigger] text[i]) by {
                if i > 0 {
                    assert(text[i] == decimal(n as nat)[i - 1]);
                }
            }
        },
        _ => {},
    }
}

/// The name of a register of the machine is read as that register.
pub proof fn lemma_register_name(k: u8)
    requires
        k < REGISTER_COUNT,
    ensures
        register_number("r"@ + decimal(k as nat)) == Some(k),
{
    reveal(register_number);
    reveal_strlit("r");
    reveal_strlit("r0");
    reveal_strlit("r1");
    reveal_strlit("r2");
    reveal_strlit("r3");
    reveal_strlit("r4");
    reveal_strlit("r5");
    reveal_strlit("r6");
    reveal_strlit("r7");
    reveal_strlit("r8");
    reveal_strlit("r9");
    reveal_strlit("r10");
    reveal_strlit("r11");
    reveal_strlit("r12");
    reveal_strlit("r13");
    reveal_strlit("r14");
    reveal_strlit("r15");
    let name = "r"@ + decimal(k as nat);
    reveal_with_fuel(decimal, 2);
    assert(name[0] == 'r');
    if k < 10 {
        assert(name.len() == 2 && name[1] == digit_char(k as nat));
    } else {
        assert(name.len() == 3 && name[1] == '1' && name[2] == digit_char((k - 10) as nat));
    }
    if k == 0 {
        assert(name =~= "r0"@);
    } else if k == 1 {
        assert(name =~= "r1"@);
    } else if k == 2 {
        assert(name =~= "r2"@);
    } else if k == 3 {
        assert(name =~= "r3"@);
    } else if k == 4 {
        assert(name =~= "r4"@);
    } else if k == 5 {
        assert(name =~= "r5"@);
    } else if k == 6 {
        assert(name =~= "r6"@);
    } else if k == 7 {
        assert(name =~= "r7"@);
    } else if k == 8 {
        assert(name =~= "r8"@);
    } else if k == 9 {
        assert(name =~= "r9"@);
    } else if k == 10 {
        assert(name =~= "r10"@);
    } else if k == 11 {
        assert(name =~= "r11"@);
    } else if k == 12 {
        assert(name =~= "r12"@);
    } else if k == 13 {
        assert(name =~= "r13"@);
    } else if k == 14 {
        assert(name =~= "r14"@);
    } else {
        assert(name =~= "r15"@);
    }
}

/// The text of an immediate value is the name of no register and no data directive.
pub proof fn lemma_immediate_name(text: Seq<char>)
    requires
        text.len() > 0,
        text[0] == '#',
    ensures
        register_number(text) is None,
        text != "db"@,
{
    reveal(register_number);
    reveal_strlit("db");
    reveal_strlit("r0");
    reveal_strlit("r1");
    reveal_strlit("r2");
    reveal_strlit("r3");
    reveal_strlit("r4");
    reveal_strlit("r5");
    reveal_strlit("r6");
    reveal_strlit("r7");
    reveal_strlit("r8");
    reveal_strlit("r9");
    reveal_strlit("r10");
    reveal_strlit("r11");
    reveal_strlit("r12");
    reveal_strlit("r13");
    reveal_strlit("r14");
    reveal_strlit("r15");
}

/// The text of a register or of an immediate value, at the end of a text or before a
/// space, is read as that operand.
pub proof fn lemma_operand_reads(operand: Operand, rest: Seq<char>)
    requires
        is_plain_operand(operand),
        rest.len() == 0 || rest[0] == ' ',
    ensures
        argument(operand_text(operand) + rest) == Ok::<(Operand, int), LineFault>(
            (operand, operand_text(operand).len() as int),
        ),
{
    reveal(argument);
    reveal_strlit("r");
    reveal_strlit("#");
    let written = operand_text(operand);
    let text = written + rest;
    lemma_plain_text(operand);
    assert(text[0] == written[0]);
    assert forall|i: int| 0 <= i < written.len() implies !crate::scan::stops(
        Stop::Blank,
        #[trigger] written[i],
    ) by {
        assert(is_plain_char(written[i]));
    }
    lemma_span_of_parts(written, rest, Stop::Blank);
    assert(token_length(text) == written.len());
    match operand {
        Operand::Register(k) => {
            lemma_register_name(k);
        },
        Operand::Raw(n) => {
            lemma_immediate_name(written);
            assert(written.skip(1) =~= decimal(n as nat));
            lemma_decimal_number(n as nat, u64::MAX as nat);
        },
        _ => {},
    }
}

/// Whether a command is listed under the mnemonic that the assembler knows it by.
pub open spec fn reads_as_written(command: Command) -> bool {
    match command {
        Command::Move => true,
        Command::Add => true,
        Command::Subtract => true,
        Command::Multiply => true,
        Command::Divide => true,
        Command::BranchGreaterEqual => true,
        Command::BranchLesser => true,
        Command::BranchLesserEqual => true,
        Command::BranchNotEqual => true,
        Command::Branch => true,
        Command::Compare => true,
        Command::Call => true,
        Command::Push => true,
        Command::Pop => true,
        Command::Return => true,
        _ => false,
    }
}

/// The name of a command that is listed under its mnemonic is made of letters, and the
/// assembler reads it as that command.
pub proof fn lemma_command_name(command: Command)
    requires
        reads_as_written(command),
    ensures
        command_name(command).len() >= 1,
        forall|i: int|
            0 <= i < command_name(command).len() ==> is_letter(
                #[trigger] command_name(command)[i],
            ),
        mnemonic(command_name(command)) == Some(command),
{
    reveal(mnemonic);
    reveal_strlit("mov");
    reveal_strlit("add");
    reveal_strlit("sub");
    reveal_strlit("mul");
    reveal_strlit("div");
    reveal_strlit("bgr");
    reveal_strlit("bge");
    reveal_strlit("bl");
    reveal_strlit("ble");
    reveal_strlit("beq");
    reveal_strlit("bne");
    reveal_strlit("b");
    reveal_strlit("cmp");
    reveal_strlit("call");
    reveal_strlit("push");
    reveal_strlit("pop");
    reveal_strlit("ret");
    let name = command_name(command);
    if name.len() == 1 {
        assert(is_letter(name[0]));
    } else if name.len() == 2 {
        assert(is_letter(name[0]) && is_letter(name[1]));
    } else if name.len() == 3 {
        assert(is_letter(name[0]) && is_letter(name[1]) && is_letter(name[2]));
    } else {
        assert(name.len() == 4);
        assert(is_letter(name[0]) && is_letter(name[1]) && is_letter(name[2]) && is_letter(
            name[3],
        ));
    }
}

/// Whether an instruction has a command that is listed under its mnemonic, and operands
/// that are registers of the machine or immediate values: one or two of them, or for a
/// return none at all.
pub open spec fn is_plain(instruction: Instruction) -> bool {
    if instruction.command is Return {
        instruction.first is Absent && instruction.second is Absent
    } else {
        &&& reads_as_written(instruction.command)
        &&& is_plain_operand(instruction.first)
        &&& instruction.second is Absent || is_plain_operand(instruction.second)
    }
}

/// The line of a plain instruction, as it is listed before the line feed.
pub open spec fn plain_line(instruction: Instruction) -> Seq<char> {
    let name = command_name(instruction.command);
    if instruction.command is Return {
        "    "@ + name
    } else if instruction.second is Absent {
        "    "@ + name + " "@ + operand_text(instruction.first)
    } else {
        "    "@ + name + " "@ + operand_text(instruction.first) + " "@ + operand_text(
            instruction.second,
        )
    }
}

/// A plain instruction is listed as its plain line and a line feed.
pub proof fn lemma_plain_line(instruction: Instruction)
    requires
        is_plain(instruction),
    ensures
        line_text(instruction) == plain_line(instruction) + "\n"@,
        plain_line(instruction).len() > 0,
        !is_white_space(plain_line(instruction).last()),
        forall|i: int|
            0 <= i < plain_line(instruction).len() ==> #[trigger] plain_line(instruction)[i]
                != '\n',
{
    reveal_strlit(" ");
    reveal_strlit("    ");
    let name = command_name(instruction.command);
    let first = operand_text(instruction.first);
    let second = operand_text(instruction.second);
    let whole = "    "@ + name + " "@ + first + " "@ + second;
    let line = plain_line(instruction);
    lemma_command_name(instruction.command);
    assert(is_letter(name[name.len() - 1]));
    if instruction.command is Return {
        assert(whole =~= line + seq![' ', ' ']);
        lemma_trim_end_space(line, seq![' ', ' ']);
        assert(line.last() == name.last());
        assert forall|i: int| 0 <= i < line.len() implies #[trigger] line[i] != '\n' by {
            if i >= 4 {
                assert(line[i] == name[i - 4]);
                assert(is_letter(name[i - 4]));
            }
        }
    } else {
        lemma_plain_text(instruction.first);
        assert(is_plain_char(first[first.len() - 1]));
        if instruction.second is Absent {
            assert(whole =~= line + seq![' ']);
            lemma_trim_end_space(line, seq![' ']);
            assert(line.last() == first.last());
            assert forall|i: int| 0 <= i < line.len() implies #[trigger] line[i] != '\n' by {
                if 4 <= i < 4 + name.len() {
                    assert(line[i] == name[i - 4]);
                    assert(is_letter(name[i - 4]));
                } else if i > 4 + name.len() {
                    assert(line[i] == first[i - 5 - name.len()]);
                    assert(is_plain_char(first[i - 5 - name.len()]));
                }
            }
        } else {
            lemma_plain_text(instruction.second);
            assert(is_plain_char(second[second.len() - 1]));
            assert(whole == line);
            assert(line.last() == second.last());
            assert forall|i: int| 0 <= i < line.len() implies #[trigger] line[i] != '\n' by {
                if 4 <= i < 4 + name.len() {
                    assert(line[i] == name[i - 4]);
                    assert(is_letter(name[i - 4]));
                } else if 4 + name.len() < i < 5 + name.len() + first.len() {
                    assert(line[i] == first[i - 5 - name.len()]);
                    assert(is_plain_char(first[i - 5 - name.len()]));
                } else if i > 5 + name.len() + first.len() {
                    assert(line[i] == second[i - 6 - name.len() - first.len()]);
                    assert(is_plain_char(second[i - 6 - name.len() - first.len()]));
                }
            }
        }
        lemma_trim_end_none(line);
    }
    lemma_trim_end_none(line);
}

/// The assembler reads the plain line of a plain instruction as that instruction.
pub proof fn lemma_plain_line_reads(instruction: Instruction)
    requires
        is_plain(instruction),
    ensures
        line_instruction(plain_line(instruction)) == Ok::<Option<Instruction>, LineFault>(
            Some(instruction),
        ),
{
    reveal(line_instruction);
    reveal(operands);
    reveal_strlit(" ");
    reveal_strlit("    ");
    let command = instruction.command;
    let name = command_name(command);
    let first = operand_text(instruction.first);
    let second = operand_text(instruction.second);
    let line = plain_line(instruction);
    let indent = seq![' ', ' ', ' ', ' '];
    let space = seq![' '];
    lemma_command_name(command);
    lemma_plain_line(instruction);
    // What follows the name on the line.
    let rest = if command is Return {
        Seq::<char>::empty()
    } else if instruction.second is Absent {
        space + first
    } else {
        space + first + space + second
    };
    let text = name + rest;
    assert(line =~= indent + text);
    assert(text[0] == name[0]);
    assert(is_letter(name[0]));
    lemma_trim_start_space(indent, text);
    lemma_trim_start_none(text);
    assert(text.last() == line.last());
    lemma_trim_end_none(text);
    assert(trim(line) == text);
    // The line starts with no label, and with the name of the command.
    assert forall|i: int| 0 <= i < name.len() implies !crate::scan::stops(
        Stop::ColonOrSpace,
        #[trigger] name[i],
    ) && !crate::scan::stops(Stop::NotLetter, name[i]) by {
        assert(is_letter(name[i]));
    }
    lemma_span_of_parts(name, rest, Stop::ColonOrSpace);
    lemma_span_of_parts(name, rest, Stop::NotLetter);
    if rest.len() > 0 {
        assert(text[name.len() as int] == ' ');
    }
    assert(label_length(text) is None);
    if command is Return {
        assert(trim(rest) =~= Seq::<char>::empty());
    } else {
        lemma_plain_text(instruction.first);
        let operands = if instruction.second is Absent {
            first
        } else {
            first + space + second
        };
        assert(rest =~= space + operands);
        assert(operands[0] == first[0]);
        assert(operands.last() == line.last());
        lemma_trim_start_space(space, operands);
        lemma_trim_start_none(operands);
        lemma_trim_end_none(operands);
        assert(trim(rest) == operands);
        if instruction.second is Absent {
            assert(first + Seq::<char>::empty() =~= first);
            lemma_operand_reads(instruction.first, Seq::<char>::empty());
            assert(operands.skip(first.len() as int) =~= Seq::<char>::empty());
            assert(trim(Seq::<char>::empty()) =~= Seq::<char>::empty());
        } else {
            lemma_plain_text(instruction.second);
            let after = space + second;
            assert(operands =~= first + after);
            lemma_operand_reads(instruction.first, after);
            assert(operands.skip(first.len() as int) =~= after);
            assert(second.last() == line.last());
            lemma_trim_start_space(space, second);
            lemma_trim_start_none(second);
            lemma_trim_end_none(second);
            assert(trim(after) == second);
            assert(second + Seq::<char>::empty() =~= second);
            lemma_operand_reads(instruction.second, Seq::<char>::empty());
        }
    }
}

/// A plain instruction reads back from its line in a listing.
pub proof fn lemma_plain_reads_back(instruction: Instruction)
    requires
        is_plain(instruction),
    ensures
        reads_back(instruction),
{
    reveal_strlit("\n");
    lemma_plain_line(instruction);
    lemma_plain_line_reads(instruction);
    let line = plain_line(instruction);
    let text = line_text(instruction);
    assert(text.drop_last() =~= line);
    assert(text.last() == '\n');
    assert(!is_white_space(line.last()));
}

/// Assembling the listing of a program gives the program back, where the lines of the
/// program are numbered from 0 without gaps and all its instructions are plain.
pub proof fn lemma_plain_listing_assembles(program: Map<u64, Instruction>, count: nat)
    requires
        is_dense(program, count),
        forall|line: u64| line < count ==> is_plain(#[trigger] program[line]),
    ensures
        assemble(text_lines(program_text(program))) == Ok::<
            Map<u64, Instruction>,
            (nat, LineFault),
        >(program),
{
    assert forall|line: u64| line < count implies reads_back(#[trigger] program[line]) by {
        lemma_plain_reads_back(program[line]);
    }
    lemma_listing_assembles(program, count);
}

} // verus!
