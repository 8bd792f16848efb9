//! The textual form of commands, arguments and programs.

use crate::order::lemma_ascending;
use crate::text::decimal;
use crate::text::is_scalar;
use crate::text::push_decimal;
use crate::text::push_text;
use crate::text::to_text;
use crate::text::trim_end;
use crate::text::drop_white_space;
use crate::text::push_chars;
use crate::types::Argument;
use crate::types::Command;
use crate::types::Instruction;
use crate::types::Integer;
use crate::types::Operand;
use crate::types::Program;
use crate::types::labels_named;
use crate::types::program_view;
use vstd::prelude::*;
use vstd::std_specs::iter::IteratorSpec;

verus! {

/// What `{:?}` writes for a string: the text between double quotes, with the characters
/// that cannot stand there as they are written as escapes.
pub uninterp spec fn debug_quoted(text: Seq<char>) -> Seq<char>;

/// Formats a string slice with `{:?}`.
#[verifier::external_body]
fn debug_quote(text: &str) -> (quoted: String)
    ensures
        quoted@ == debug_quoted(text@),
{
    format!("{:?}", text)
}

/// The name of the data directive of label `id`.
pub open spec fn data_name(id: u64) -> Seq<char> {
    decimal(id as nat) + ": db"@
}

/// The name of a command.
pub open spec fn command_name(command: Command) -> Seq<char> {
    match command {
        Command::Noop => "_"@,
        Command::Label => "lbl"@,
        Command::LabelledData(id) => data_name(id),
        Command::Branch => "b"@,
        Command::BranchEqual => "be"@,
        Command::BranchNotEqual => "bne"@,
        Command::BranchGreaterEqual => "bge"@,
        Command::BranchGreater => "bg"@,
        Command::BranchLesser => "bl"@,
        Command::BranchLesserEqual => "ble"@,
        Command::Compare => "cmp"@,
        Command::Move => "mov"@,
        Command::Add => "add"@,
        Command::Subtract => "sub"@,
        Command::Multiply => "mul"@,
        Command::Divide => "div"@,
        Command::Modulo => "mod"@,
        Command::Push => "push"@,
        Command::Pop => "pop"@,
        Command::Call => "call"@,
        Command::Function => "func"@,
        Command::Return => "ret"@,
    }
}

/// Whether every value of a literal is the code point of a character.
pub open spec fn all_scalars(data: Seq<u64>) -> bool {
    forall|i: int| 0 <= i < data.len() ==> is_scalar(#[trigger] data[i] as nat)
}

/// The characters whose code points are the values of a literal.
pub open spec fn as_characters(data: Seq<u64>) -> Seq<char> {
    Seq::new(data.len(), |i: int| data[i] as char)
}

/// The values of a literal as decimal numbers with commas between them.
pub open spec fn joined_decimals(data: Seq<u64>) -> Seq<char>
    decreases data.len(),
{
    if data.len() == 0 {
        Seq::empty()
    } else if data.len() == 1 {
        decimal(data[0] as nat)
    } else {
        joined_decimals(data.drop_last()) + ","@ + decimal(data.last() as nat)
    }
}

/// The data directive of a literal: a quoted string where every value is a character,
/// a list of numbers otherwise.
pub open spec fn literal_text(data: Seq<u64>) -> Seq<char> {
    if data.len() == 0 {
        "db \"\""@
    } else if all_scalars(data) {
        "db "@ + debug_quoted(as_characters(data))
    } else {
        "db "@ + joined_decimals(data)
    }
}

/// The textual form of an operand.
pub open spec fn operand_text(operand: Operand) -> Seq<char> {
    match operand {
        Operand::Absent => Seq::empty(),
        Operand::Raw(n) => "#"@ + decimal(n as nat),
        Operand::Register(r) => "r"@ + decimal(r as nat),
        Operand::HeapRef(h) => decimal(h as nat),
        Operand::Literal(data) => literal_text(data),
        Operand::HeapDeref(h, offset) => if offset == 0 {
            "[:"@ + decimal(h as nat) + "]"@
        } else {
            "[:"@ + decimal(h as nat) + " + "@ + decimal(offset as nat) + "]"@
        },
        Operand::RawLabel(l) => ":"@ + decimal(l as nat),
    }
}

/// The line that stands for an instruction in a listing, with the line break at its end.
pub open spec fn line_text(instruction: Instruction) -> Seq<char> {
    match instruction.command {
        Command::Label => match instruction.first {
            Operand::RawLabel(label) => decimal(label as nat) + ":\n"@,
            _ => Seq::empty(),
        },
        Command::LabelledData(label) => trim_end(
            decimal(label as nat) + ": "@ + operand_text(instruction.first) + " "@ + operand_text(
                instruction.second,
            ),
        ) + "\n"@,
        _ => trim_end(
            "    "@ + command_name(instruction.command) + " "@ + operand_text(instruction.first)
                + " "@ + operand_text(instruction.second),
        ) + "\n"@,
    }
}

/// The lines of all instructions whose index is below `bound`, in ascending order.
pub open spec fn listing(program: Map<u64, Instruction>, bound: nat) -> Seq<char>
    decreases bound,
{
    if bound == 0 {
        Seq::empty()
    } else {
        let line = (bound - 1) as u64;
        listing(program, (bound - 1) as nat) + if program.contains_key(line) {
            line_text(program[line])
        } else {
            Seq::empty()
        }
    }
}

/// The listing of a whole program.
pub open spec fn program_text(program: Map<u64, Instruction>) -> Seq<char> {
    listing(program, 0x1_0000_0000_0000_0000)
}

/// Lines that the program does not have add nothing to a listing.
pub proof fn lemma_listing_gap(program: Map<u64, Instruction>, low: nat, high: nat)
    requires
        low <= high <= 0x1_0000_0000_0000_0000,
        forall|line: u64| low <= line < high ==> !program.contains_key(line),
    ensures
        listing(program, high) == listing(program, low),
    decreases high - low,
{
    if low < high {
        lemma_listing_gap(program, low, (high - 1) as nat);
        assert(!program.contains_key((high - 1) as u64));
    }
}

impl Command {
    /// The name under which the command is listed.
    pub fn to_name(&self) -> (name: String)
        ensures
            name@ == command_name(*self),
    {
        match self {
            Command::Noop => "_".to_string(),
            Command::Label => "lbl".to_string(),
            Command::LabelledData(id) => {
                let mut buffer: Vec<char> = Vec::new();
                push_decimal(&mut buffer, *id);
                push_text(&mut buffer, ": db");
                to_text(&buffer, 0, buffer.len())
            },
            Command::Branch => "b".to_string(),
            Command::BranchEqual => "be".to_string(),
            Command::BranchNotEqual => "bne".to_string(),
            Command::BranchGreaterEqual => "bge".to_string(),
            Command::BranchGreater => "bg".to_string(),
            Command::BranchLesser => "bl".to_string(),
            Command::BranchLesserEqual => "ble".to_string(),
            Command::Compare => "cmp".to_string(),
            Command::Move => "mov".to_string(),
            Command::Add => "add".to_string(),
            Command::Subtract => "sub".to_string(),
            Command::Multiply => "mul".to_string(),
            Command::Divide => "div".to_string(),
            Command::Modulo => "mod".to_string(),
            Command::Push => "push".to_string(),
            Command::Pop => "pop".to_string(),
            Command::Call => "call".to_string(),
            Command::Function => "func".to_string(),
            Command::Return => "ret".to_string(),
        }
    }
}

/// The characters of a literal, or nothing where one of its values is no character.
fn characters_of(data: &Vec<Integer>) -> (chars: Option<Vec<char>>)
    ensures
        match chars {
            Some(chars) => all_scalars(data@) && chars@ == as_characters(data@),
            None => !all_scalars(data@),
        },
{
    let mut chars: Vec<char> = Vec::new();
    let mut i: usize = 0;
    while i < data.len()
        invariant
            i <= data.len(),
            all_scalars(data@.take(i as int)),
            chars@ == as_characters(data@.take(i as int)),
        decreases data.len() - i,
    {
        let value = data[i];
        if value > 0xffff_ffff {
            assert(!is_scalar(data@[i as int] as nat));
            return None;
        }
        match char::from_u32(value as u32) {
            Some(c) => {
                chars.push(c);
            },
            None => {
                assert(!is_scalar(data@[i as int] as nat));
                return None;
            },
        }
        i = i + 1;
        assert(data@.take(i as int) == data@.take(i - 1).push(value));
        assert(chars@ =~= as_characters(data@.take(i as int)));
    }
    assert(data@.take(i as int) == data@);
    Some(chars)
}

/// Appends the values of a literal as decimal numbers with commas between them.
fn push_joined_decimals(buffer: &mut Vec<char>, data: &Vec<Integer>)
    ensures
        final(buffer)@ == old(buffer)@ + joined_decimals(data@),
{
    let mut i: usize = 0;
    while i < data.len()
        invariant
            i <= data.len(),
            buffer@ == old(buffer)@ + joined_decimals(data@.take(i as int)),
        decreases data.len() - i,
    {
        if i > 0 {
            buffer.push(',');
        }
        push_decimal(buffer, data[i]);
        i = i + 1;
        proof {
            reveal_strlit(",");
            let done = data@.take(i as int);
            assert(done.drop_last() == data@.take(i - 1));
            assert(","@ =~= seq![',']);
            assert(buffer@ =~= old(buffer)@ + joined_decimals(done));
        }
    }
    assert(data@.take(i as int) == data@);
}

/// Appends the data directive of a literal.
fn push_literal(buffer: &mut Vec<char>, data: &Vec<Integer>)
    ensures
        final(buffer)@ == old(buffer)@ + literal_text(data@),
{
    if data.len() == 0 {
        push_text(buffer, "db \"\"");
        return ;
    }
    push_text(buffer, "db ");
    match characters_of(data) {
        Some(chars) => {
            let text = to_text(&chars, 0, chars.len());
            let quoted = debug_quote(text.as_str());
            push_text(buffer, quoted.as_str());
            assert(chars@.subrange(0, chars.len() as int) == chars@);
        },
        None => {
            push_joined_decimals(buffer, data);
        },
    }
}

/// Appends the textual form of an argument.
fn push_argument(buffer: &mut Vec<char>, argument: &Argument)
    ensures
        final(buffer)@ == old(buffer)@ + operand_text(argument@),
{
    match argument {
        Argument::Absent => {
            assert(buffer@ + Seq::<char>::empty() == buffer@);
        },
        Argument::Raw(n) => {
            push_text(buffer, "#");
            push_decimal(buffer, *n);
            assert(buffer@ == old(buffer)@ + ("#"@ + decimal(*n as nat)));
        },
        Argument::Register(r) => {
            push_text(buffer, "r");
            push_decimal(buffer, *r as u64);
            assert(buffer@ == old(buffer)@ + ("r"@ + decimal(*r as nat)));
        },
        Argument::HeapRef(h) => {
            push_decimal(buffer, *h);
        },
        Argument::Literal(data) => {
            push_literal(buffer, data);
        },
        Argument::HeapDeref(h, offset) => {
            push_text(buffer, "[:");
            push_decimal(buffer, *h);
            if *offset != 0 {
                push_text(buffer, " + ");
                push_decimal(buffer, *offset as u64);
            }
            push_text(buffer, "]");
            assert(buffer@ == old(buffer)@ + operand_text(argument@));
        },
        Argument::RawLabel(l) => {
            push_text(buffer, ":");
            push_decimal(buffer, *l);
            assert(buffer@ == old(buffer)@ + (":"@ + decimal(*l as nat)));
        },
    }
}

impl Argument {
    /// The text of the argument as a listing shows it.
    pub fn format(&self) -> (text: String)
        ensures
            text@ == operand_text(self@),
    {
        let mut buffer: Vec<char> = Vec::new();
        push_argument(&mut buffer, self);
        assert(buffer@.subrange(0, buffer.len() as int) == buffer@);
        to_text(&buffer, 0, buffer.len())
    }
}

/// Appends the line of an instruction to a listing.
fn push_line(buffer: &mut Vec<char>, command: &Command, args: &[Argument; 2])
    requires
        *command is Label ==> args[0]@ is RawLabel,
    ensures
        final(buffer)@ == old(buffer)@ + line_text(
            Instruction { command: *command, first: args[0]@, second: args[1]@ },
        ),
{
    let mut line: Vec<char> = Vec::new();
    match command {
        Command::Label => {
            if let Argument::RawLabel(label) = &args[0] {
                push_decimal(buffer, *label);
                push_text(buffer, ":\n");
                assert(buffer@ == old(buffer)@ + (decimal(*label as nat) + ":\n"@));
            }
            return ;
        },
        Command::LabelledData(label) => {
            push_decimal(&mut line, *label);
            push_text(&mut line, ": ");
        },
        _ => {
            push_text(&mut line, "    ");
            let name = command.to_name();
            push_text(&mut line, name.as_str());
            push_text(&mut line, " ");
        },
    }
    push_argument(&mut line, &args[0]);
    push_text(&mut line, " ");
    push_argument(&mut line, &args[1]);
    let end = drop_white_space(&line, 0, line.len());
    push_chars(buffer, &line, 0, end);
    push_text(buffer, "\n");
    proof {
        assert(line@.subrange(0, line.len() as int) == line@);
        let first = operand_text(args[0]@);
        let second = operand_text(args[1]@);
        match *command {
            Command::LabelledData(label) => {
                assert(line@ =~= decimal(label as nat) + ": "@ + first + " "@ + second);
            },
            _ => {
                assert(line@ =~= "    "@ + command_name(*command) + " "@ + first + " "@ + second);
            },
        }
        assert(buffer@ =~= old(buffer)@ + (trim_end(line@) + "\n"@));
    }
}

/// The listing of a program: one line for each instruction, in ascending order of the
/// line indices, which the listing does not show. A label instruction has to name its
/// label.
pub fn format_program(program: &Program) -> (text: String)
    requires
        labels_named(program_view(*program)),
    ensures
        text@ == program_text(program_view(*program)),
{
    let mut buffer: Vec<char> = Vec::new();
    let ghost view = program_view(*program);
    let ghost mut bound: nat = 0;
    let iter = program.iter();
    let ghost lines = iter.remaining();
    proof {
        let keys = lines.map_values(|kv: (&u64, &(Command, [Argument; 2]))| *kv.0);
        lemma_ascending(keys);
        assert forall|i: int, j: int| 0 <= i < j < lines.len() implies *lines[i].0
            < *lines[j].0 by {
            assert(keys[i] < keys[j]);
        }
    }
    for entry in it: iter
        invariant
            it.seq() == lines,
            lines == vstd::std_specs::btree::spec_btree_map_iter(program).remaining(),
            forall|i: int, j: int| 0 <= i < j < lines.len() ==> *lines[i].0 < *lines[j].0,
            view == program_view(*program),
            labels_named(view),
            it.index() == 0 ==> bound == 0,
            it.index() > 0 ==> bound == *lines[it.index() - 1].0 + 1,
            buffer@ == listing(view, bound),
    {
        let (index, instruction) = entry;
        proof {
            let position = it.index();
            assert(entry == lines[position]);
            assert forall|line: u64| bound <= line < *index implies !view.contains_key(line) by {
                if view.contains_key(line) {
                    let found = (&line, &program@[line]);
                    assert(lines.contains(found));
                    let j = choose|j: int| 0 <= j < lines.len() && lines[j] == found;
                    if j < position {
                        if j < position - 1 {
                            assert(*lines[j].0 < *lines[position - 1].0);
                        }
                    } else if j > position {
                        assert(*lines[position].0 < *lines[j].0);
                    }
                }
            }
            if position > 0 {
                assert(*lines[position - 1].0 < *lines[position].0);
            }
            lemma_listing_gap(view, bound, *index as nat);
            assert(view.contains_key(*index));
            assert(view[*index] == Instruction {
                command: instruction.0,
                first: instruction.1[0]@,
                second: instruction.1[1]@,
            });
        }
        push_line(&mut buffer, &instruction.0, &instruction.1);
        proof {
            bound = (*index + 1) as nat;
        }
    }
    proof {
        assert forall|line: u64| bound <= line < 0x1_0000_0000_0000_0000 implies !view.contains_key(
            line,
        ) by {
            if view.contains_key(line) {
                let found = (&line, &program@[line]);
                assert(lines.contains(found));
                let j = choose|j: int| 0 <= j < lines.len() && lines[j] == found;
                if j < lines.len() - 1 {
                    assert(*lines[j].0 < *lines[lines.len() - 1].0);
                }
            }
        }
        lemma_listing_gap(view, bound, 0x1_0000_0000_0000_0000);
        assert(buffer@.subrange(0, buffer.len() as int) == buffer@);
    }
    to_text(&buffer, 0, buffer.len())
}

} // verus!
