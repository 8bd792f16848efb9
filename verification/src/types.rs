//! Core types shared by the assembler, the virtual machine and the script compiler.

use std::collections::BTreeMap;
use std::hash::DefaultHasher;
use std::hash::Hash;
use std::hash::Hasher;
use vstd::prelude::*;
use vstd::string::StringExecFns;
use vstd::std_specs::hash::DefaultHasherAdditionalSpecFns;

verus! {

/// The message of a failure.
pub type Error = String;

/// The integers of the machine: 64 bits, unsigned.
pub type Integer = u64;

/// A block of data.
pub type Literal = Vec<Integer>;

/// The blocks of labelled data, in the order in which they were stored.
pub type Heap = Vec<Literal>;

/// The stack of the machine, its top last.
pub type Stack = Vec<Integer>;

/// A program maps line indices to instructions. Indices need not be contiguous.
pub type Program = BTreeMap<Integer, (Command, [Argument; 2])>;

/// What an instruction does.
#[derive(Debug, Clone, Copy, PartialEq)]
pub enum Command {
    Noop,
    Label,
    LabelledData(Integer),
    Branch,
    BranchEqual,
    BranchNotEqual,
    BranchGreaterEqual,
    BranchGreater,
    BranchLesser,
    BranchLesserEqual,
    Compare,
    Move,
    Add,
    Subtract,
    Multiply,
    Divide,
    Modulo,
    Push,
    Pop,
    Call,
    Function,
    Return,
}

/// An operand of an instruction.
#[derive(Debug, PartialEq)]
pub enum Argument {
    /// No operand in this position.
    Absent,
    Raw(Integer),
    Register(u8),
    HeapRef(Integer),
    RawLabel(Integer),
    Literal(Literal),
    HeapDeref(Integer, usize),
}

/// The mathematical value of an [`Argument`].
pub ghost enum Operand {
    Absent,
    Raw(u64),
    Register(u8),
    HeapRef(u64),
    RawLabel(u64),
    Literal(Seq<u64>),
    HeapDeref(u64, usize),
}

impl View for Argument {
    type V = Operand;

    open spec fn view(&self) -> Operand {
        match *self {
            Argument::Absent => Operand::Absent,
            Argument::Raw(n) => Operand::Raw(n),
            Argument::Register(k) => Operand::Register(k),
            Argument::HeapRef(id) => Operand::HeapRef(id),
            Argument::RawLabel(id) => Operand::RawLabel(id),
            Argument::Literal(data) => Operand::Literal(data@),
            Argument::HeapDeref(id, offset) => Operand::HeapDeref(id, offset),
        }
    }
}

impl Clone for Argument {
    fn clone(&self) -> (copy: Self)
        ensures
            copy@ == self@,
    {
        match self {
            Argument::Absent => Argument::Absent,
            Argument::Raw(n) => Argument::Raw(*n),
            Argument::Register(k) => Argument::Register(*k),
            Argument::HeapRef(id) => Argument::HeapRef(*id),
            Argument::RawLabel(id) => Argument::RawLabel(*id),
            Argument::Literal(data) => Argument::Literal(data.clone()),
            Argument::HeapDeref(id, offset) => Argument::HeapDeref(*id, *offset),
        }
    }
}

impl Argument {
    /// The label that the argument refers to, if it is a label reference.
    pub fn resolve_label(&self) -> (label: Option<Integer>)
        ensures
            label == match self@ {
                Operand::RawLabel(id) => Some(id),
                _ => None,
            },
    {
        match self {
            Argument::RawLabel(label_ref) => Some(*label_ref),
            _ => None,
        }
    }

    /// The label that the argument refers to, or a message where it is no label
    /// reference.
    pub fn resolve_label_or_error(&self) -> (result: Result<Integer, Error>)
        ensures
            match self@ {
                Operand::RawLabel(id) => result == Ok::<Integer, Error>(id),
                _ => result matches Err(text) && text@ == "no valid argument"@,
            },
    {
        match self.resolve_label() {
            Some(label) => Ok(label),
            None => Err(String::from_str("no valid argument")),
        }
    }
}

/// The mathematical value of one entry of a [`Program`].
pub ghost struct Instruction {
    pub command: Command,
    pub first: Operand,
    pub second: Operand,
}

/// The mathematical value of an entry of a program.
pub open spec fn instruction_view(entry: (Command, [Argument; 2])) -> Instruction {
    Instruction { command: entry.0, first: entry.1[0]@, second: entry.1[1]@ }
}

/// The mathematical value of a [`Program`]: its instructions by line index.
pub open spec fn program_view(program: Program) -> Map<u64, Instruction> {
    program@.map_values(|entry: (Command, [Argument; 2])| instruction_view(entry))
}

/// Whether every label instruction of the program names its label.
pub open spec fn labels_named(program: Map<u64, Instruction>) -> bool {
    forall|line: u64| #[trigger]
        program.contains_key(line) && program[line].command is Label
            ==> program[line].first is RawLabel
}

/// Whether every line index of the program is below the largest 64-bit value, so that
/// the line after the last has an index.
pub open spec fn has_end(program: Map<u64, Instruction>) -> bool {
    forall|line: u64| program.contains_key(line) ==> line < u64::MAX
}

/// The state of a default hasher after a string slice has been hashed into it.
pub uninterp spec fn str_hashed(before: Seq<Seq<u8>>, label: Seq<char>) -> Seq<Seq<u8>>;

/// Calls `<str as Hash>::hash` on a `DefaultHasher`. What the hasher holds afterwards
/// depends only on what it held before and on the characters of `label`.
#[verifier::external_body]
fn hash_str(label: &str, state: &mut DefaultHasher)
    ensures
        final(state)@ == str_hashed(old(state)@, label@),
{
    label.hash(state)
}

/// The identifier of a label: what a fresh default hasher yields after the label's text
/// has been hashed into it.
pub open spec fn label_hash(label: Seq<char>) -> u64 {
    DefaultHasher::spec_finish(str_hashed(Seq::<Seq<u8>>::empty(), label))
}

/// Whether two labels are different and have the same identifier all the same.
pub open spec fn collide(first: Seq<char>, second: Seq<char>) -> bool {
    first != second && label_hash(first) == label_hash(second)
}

/// Labels are told apart by their identifiers: equal labels have equal identifiers, in
/// every run, and two labels that do not collide have equal identifiers only if they
/// are equal.
pub proof fn lemma_label_identity(first: Seq<char>, second: Seq<char>)
    requires
        !collide(first, second),
    ensures
        label_hash(first) == label_hash(second) <==> first == second,
{
}

/// The identifier of a label: 64 bits that the default hasher of the standard library
/// makes of the text of the label. The same text gives the same identifier in every
/// run.
pub fn hash_label(label: &str) -> (hash: u64)
    ensures
        hash == label_hash(label@),
{
    let mut hasher = DefaultHasher::new();
    hash_str(label, &mut hasher);
    let hash = hasher.finish();
    hash
}

} // verus!
