//! The assembler: text, line by line, to a program.

use crate::scan::decimal_number;
use crate::scan::has_at;
use crate::scan::is_word;
use crate::scan::lemma_span;
use crate::scan::read_number;
use crate::scan::scan;
use crate::scan::span;
use crate::scan::span_from;
use crate::scan::stops;
use crate::scan::Stop;
use crate::text::decimal;
use crate::text::is_white_space;
use crate::text::push_decimal;
use crate::text::push_text;
use crate::text::to_chars;
use crate::text::to_text;
use crate::text::trim;
use crate::text::trim_bounds;
use crate::types::hash_label;
use crate::types::has_end;
use crate::types::label_hash;
use crate::types::labels_named;
use crate::types::Argument;
use crate::types::program_view;
use crate::types::Command;
use crate::types::Error;
use crate::types::Program;
use crate::types::Instruction;
use crate::types::Integer;
use crate::types::Operand;
use vstd::prelude::*;

verus! {

/// Why a line of assembly text is not an instruction.
#[derive(Debug, Clone, Copy, PartialEq, Eq)]
pub enum LineFault {
    /// The line starts with neither a label nor a mnemonic.
    InvalidCommand,
    /// The mnemonic needs operands and the line has none.
    MissingArguments,
    /// An operand is none of a register, an immediate, a label, a bracketed label or data.
    InvalidArgument,
    /// An item of a data directive is neither a string nor a number.
    InvalidLiteral,
}

/// A scalar of a data directive.
pub ghost enum JsonScalar {
    Text(Seq<char>),
    Number(u64),
    Other,
}

/// A scalar of a data directive, as the JSON parser hands it over.
pub enum Scalar {
    Text(String),
    Number(Integer),
    Other,
}

impl View for Scalar {
    type V = JsonScalar;

    open spec fn view(&self) -> JsonScalar {
        match *self {
            Scalar::Text(text) => JsonScalar::Text(text@),
            Scalar::Number(number) => JsonScalar::Number(number),
            Scalar::Other => JsonScalar::Other,
        }
    }
}

/// What the JSON parser makes of an item: the text of a JSON string, a JSON number cut
/// down to a 64-bit unsigned integer, or anything else, text that is no JSON included.
pub uninterp spec fn json_scalar(item: Seq<char>) -> JsonScalar;

/// Parses an item with `tinyjson` (`str::parse::<JsonValue>`). A string is handed over as
/// it is, a number as the integer that a cast gives for it: its fraction cut off, zero
/// where it is negative, the largest integer where it is beyond that. An item that
/// opens an array or an object, at once or after white space, is kept away from the
/// parser, which descends into those.
#[verifier::external_body]
fn parse_json_scalar(item: &str) -> (scalar: Scalar)
    requires
        item@.len() > 0 ==> !is_white_space(item@[0]) && item@[0] != '[' && item@[0] != '{',
    ensures
        scalar@ == json_scalar(item@),
{
    match item.parse::<tinyjson::JsonValue>() {
        Ok(tinyjson::JsonValue::String(text)) => Scalar::Text(text),
        Ok(tinyjson::JsonValue::Number(number)) => Scalar::Number(number as Integer),
        _ => Scalar::Other,
    }
}

/// The code points of a text.
pub open spec fn code_points(text: Seq<char>) -> Seq<u64> {
    Seq::new(text.len(), |i: int| text[i] as u64)
}

/// The values that a scalar contributes to a literal: the code points of a string, or
/// the number itself.
pub open spec fn scalar_values(scalar: JsonScalar) -> Option<Seq<u64>> {
    match scalar {
        JsonScalar::Text(text) => Some(code_points(text)),
        JsonScalar::Number(number) => Some(seq![number]),
        JsonScalar::Other => None,
    }
}

/// The values that an item of a data directive contributes. An item that opens an array
/// or an object is no scalar.
pub open spec fn item_values(item: Seq<char>) -> Option<Seq<u64>> {
    if item.len() > 0 && (item[0] == '[' || item[0] == '{') {
        None
    } else {
        scalar_values(json_scalar(item))
    }
}

/// The values of a data directive: those of its items, which commas separate.
pub open spec fn data_values(text: Seq<char>) -> Option<Seq<u64>>
    decreases text.len(),
{
    let length = span(text, Stop::Comma);
    match item_values(trim(text.take(length as int))) {
        None => None,
        Some(values) => if length >= text.len() {
            Some(values)
        } else {
            match data_values(text.skip(length as int + 1)) {
                None => None,
                Some(rest) => Some(values + rest),
            }
        },
    }
}

/// The register that a token names: `r0` to `r15`, exactly.
#[verifier::opaque]
pub open spec fn register_number(token: Seq<char>) -> Option<u8> {
    if token == "r0"@ {
        Some(0)
    } else if token == "r1"@ {
        Some(1)
    } else if token == "r2"@ {
        Some(2)
    } else if token == "r3"@ {
        Some(3)
    } else if token == "r4"@ {
        Some(4)
    } else if token == "r5"@ {
        Some(5)
    } else if token == "r6"@ {
        Some(6)
    } else if token == "r7"@ {
        Some(7)
    } else if token == "r8"@ {
        Some(8)
    } else if token == "r9"@ {
        Some(9)
    } else if token == "r10"@ {
        Some(10)
    } else if token == "r11"@ {
        Some(11)
    } else if token == "r12"@ {
        Some(12)
    } else if token == "r13"@ {
        Some(13)
    } else if token == "r14"@ {
        Some(14)
    } else if token == "r15"@ {
        Some(15)
    } else {
        None
    }
}

/// A bracketed label with an offset, `[:name + 3]`. Spaces and tabs may stand before
/// and after the opening bracket, around the plus sign, and before the closing bracket.
pub open spec fn offset_form(token: Seq<char>) -> Option<Operand> {
    let open = span_from(token, 0, Stop::NotBlank);
    let colon = span_from(token, open + 1, Stop::NotBlank);
    let name = colon + 1;
    let name_end = span_from(token, name, Stop::BlankOrPlus);
    let plus = span_from(token, name_end, Stop::NotBlank);
    let number = span_from(token, plus + 1, Stop::NotBlank);
    if has_at(token, open, '[') && has_at(token, colon, ':') && name < name_end && has_at(
        token,
        plus,
        '+',
    ) {
        match decimal_number(token.skip(number), usize::MAX as nat) {
            Some((value, length)) => {
                let close = span_from(token, number + length, Stop::NotBlank);
                if has_at(token, close, ']') {
                    Some(
                        Operand::HeapDeref(
                            label_hash(token.subrange(name, name_end)),
                            value as usize,
                        ),
                    )
                } else {
                    None
                }
            },
            None => None,
        }
    } else {
        None
    }
}

/// A bracketed label, `[:name]`, which stands for offset 0. Spaces and tabs may stand
/// before and after the opening bracket and before the closing bracket.
pub open spec fn plain_form(token: Seq<char>) -> Option<Operand> {
    let open = span_from(token, 0, Stop::NotBlank);
    let colon = span_from(token, open + 1, Stop::NotBlank);
    let name = colon + 1;
    let name_end = span_from(token, name, Stop::BlankOrBracket);
    let close = span_from(token, name_end, Stop::NotBlank);
    if has_at(token, open, '[') && has_at(token, colon, ':') && name < name_end && has_at(
        token,
        close,
        ']',
    ) {
        Some(Operand::HeapDeref(label_hash(token.subrange(name, name_end)), 0))
    } else {
        None
    }
}

/// A label reference, `:name`.
pub open spec fn reference_form(token: Seq<char>) -> Option<Operand> {
    let name_end = span_from(token, 1, Stop::Blank);
    if has_at(token, 0, ':') && 1 < name_end {
        Some(Operand::RawLabel(label_hash(token.subrange(1, name_end))))
    } else {
        None
    }
}

/// The operand of a token that holds a colon: the first of the three forms that fits.
pub open spec fn label_operand(token: Seq<char>) -> Option<Operand> {
    if offset_form(token) is Some {
        offset_form(token)
    } else if plain_form(token) is Some {
        plain_form(token)
    } else {
        reference_form(token)
    }
}

/// The length of the token at the start of `text`: up to and with the first closing
/// bracket where the text opens a bracket that holds something, else up to the first
/// space or tab.
pub open spec fn token_length(text: Seq<char>) -> int {
    let close = span_from(text, 1, Stop::Bracket);
    if has_at(text, 0, '[') && 1 < close < text.len() {
        close + 1
    } else {
        span(text, Stop::Blank) as int
    }
}

/// The operand at the start of `text` and the number of characters that it takes. A data
/// directive takes the rest of the text.
#[verifier::opaque]
pub open spec fn argument(text: Seq<char>) -> Result<(Operand, int), LineFault> {
    let length = token_length(text);
    let token = text.take(length);
    if length <= 0 {
        Err(LineFault::InvalidArgument)
    } else if register_number(token) is Some {
        Ok((Operand::Register(register_number(token)->0), length))
    } else if token == "db"@ {
        match data_values(trim(text.skip(length))) {
            Some(values) => Ok((Operand::Literal(values), text.len() as int)),
            None => Err(LineFault::InvalidLiteral),
        }
    } else if token[0] == '#' {
        match decimal_number(token.skip(1), u64::MAX as nat) {
            Some((value, _)) => Ok((Operand::Raw(value as u64), length)),
            None => Err(LineFault::InvalidArgument),
        }
    } else if token.contains(':') {
        match label_operand(token) {
            Some(operand) => Ok((operand, length)),
            None => Err(LineFault::InvalidArgument),
        }
    } else {
        Err(LineFault::InvalidArgument)
    }
}

/// Spans of a part of a text are spans of the text, moved by where the part starts.
pub proof fn lemma_span_from(chars: Seq<char>, base: int, from: int, to: int, stop: Stop)
    requires
        0 <= base <= from <= to <= chars.len(),
    ensures
        span_from(chars.subrange(base, to), from - base, stop) == from - base + span(
            chars.subrange(from, to),
            stop,
        ),
{
    assert(chars.subrange(base, to).skip(from - base) == chars.subrange(from, to));
}

/// Scans the characters from `from` up to `to` of a token that starts at `base`. Beyond
/// the token there is nothing to scan.
fn scan_token(chars: &Vec<char>, base: usize, from: usize, to: usize, stop: Stop) -> (end: usize)
    requires
        base <= to <= chars.len(),
        base <= from,
    ensures
        from <= to ==> from <= end <= to,
        from > to ==> end == from,
        end - base == span_from(chars@.subrange(base as int, to as int), from - base, stop),
{
    if from > to {
        return from;
    }
    let end = scan(chars, from, to, stop);
    proof {
        lemma_span_from(chars@, base as int, from as int, to as int, stop);
    }
    end
}

/// Whether the token that starts at `base` has the character `c` at position `at`.
fn token_has(chars: &Vec<char>, base: usize, at: usize, to: usize, c: char) -> (has: bool)
    requires
        base <= to <= chars.len(),
        base <= at,
    ensures
        has == has_at(chars@.subrange(base as int, to as int), at - base, c),
{
    at < to && chars[at] == c
}

/// The label identifier of the characters from `from` up to `to`.
fn hash_range(chars: &Vec<char>, from: usize, to: usize) -> (hash: u64)
    requires
        from <= to <= chars.len(),
    ensures
        hash == label_hash(chars@.subrange(from as int, to as int)),
{
    let name = to_text(chars, from, to);
    hash_label(name.as_str())
}

/// Whether an operand was read that has the expected value, or none where none is expected.
pub open spec fn is_operand(read: Option<Argument>, expected: Option<Operand>) -> bool {
    match expected {
        Some(operand) => read is Some && read->0@ == operand,
        None => read is None,
    }
}

fn read_register(chars: &Vec<char>, from: usize, to: usize) -> (register: Option<u8>)
    requires
        from <= to <= chars.len(),
    ensures
        register == register_number(chars@.subrange(from as int, to as int)),
{
    reveal(register_number);
    if is_word(chars, from, to, "r0") {
        Some(0)
    } else if is_word(chars, from, to, "r1") {
        Some(1)
    } else if is_word(chars, from, to, "r2") {
        Some(2)
    } else if is_word(chars, from, to, "r3") {
        Some(3)
    } else if is_word(chars, from, to, "r4") {
        Some(4)
    } else if is_word(chars, from, to, "r5") {
        Some(5)
    } else if is_word(chars, from, to, "r6") {
        Some(6)
    } else if is_word(chars, from, to, "r7") {
        Some(7)
    } else if is_word(chars, from, to, "r8") {
        Some(8)
    } else if is_word(chars, from, to, "r9") {
        Some(9)
    } else if is_word(chars, from, to, "r10") {
        Some(10)
    } else if is_word(chars, from, to, "r11") {
        Some(11)
    } else if is_word(chars, from, to, "r12") {
        Some(12)
    } else if is_word(chars, from, to, "r13") {
        Some(13)
    } else if is_word(chars, from, to, "r14") {
        Some(14)
    } else if is_word(chars, from, to, "r15") {
        Some(15)
    } else {
        None
    }
}

fn read_offset_form(chars: &Vec<char>, from: usize, to: usize) -> (operand: Option<Argument>)
    requires
        from <= to <= chars.len(),
    ensures
        is_operand(operand, offset_form(chars@.subrange(from as int, to as int))),
{
    let ghost token = chars@.subrange(from as int, to as int);
    let open = scan_token(chars, from, from, to, Stop::NotBlank);
    if !token_has(chars, from, open, to, '[') {
        return None;
    }
    let colon = scan_token(chars, from, open + 1, to, Stop::NotBlank);
    if !token_has(chars, from, colon, to, ':') {
        return None;
    }
    let name = colon + 1;
    let name_end = scan_token(chars, from, name, to, Stop::BlankOrPlus);
    if name >= name_end {
        return None;
    }
    let plus = scan_token(chars, from, name_end, to, Stop::NotBlank);
    if !token_has(chars, from, plus, to, '+') {
        return None;
    }
    let number = scan_token(chars, from, plus + 1, to, Stop::NotBlank);
    assert(token.skip(number - from) == chars@.subrange(number as int, to as int));
    match read_number(chars, number, to, usize::MAX as u64) {
        Some((value, after)) => {
            let close = scan_token(chars, from, after, to, Stop::NotBlank);
            if !token_has(chars, from, close, to, ']') {
                return None;
            }
            assert(token.subrange(name - from, name_end - from) == chars@.subrange(
                name as int,
                name_end as int,
            ));
            Some(Argument::HeapDeref(hash_range(chars, name, name_end), value as usize))
        },
        None => None,
    }
}

fn read_plain_form(chars: &Vec<char>, from: usize, to: usize) -> (operand: Option<Argument>)
    requires
        from <= to <= chars.len(),
    ensures
        is_operand(operand, plain_form(chars@.subrange(from as int, to as int))),
{
    let ghost token = chars@.subrange(from as int, to as int);
    let open = scan_token(chars, from, from, to, Stop::NotBlank);
    if !token_has(chars, from, open, to, '[') {
        return None;
    }
    let colon = scan_token(chars, from, open + 1, to, Stop::NotBlank);
    if !token_has(chars, from, colon, to, ':') {
        return None;
    }
    let name = colon + 1;
    let name_end = scan_token(chars, from, name, to, Stop::BlankOrBracket);
    if name >= name_end {
        return None;
    }
    let close = scan_token(chars, from, name_end, to, Stop::NotBlank);
    if !token_has(chars, from, close, to, ']') {
        return None;
    }
    assert(token.subrange(name - from, name_end - from) == chars@.subrange(
        name as int,
        name_end as int,
    ));
    Some(Argument::HeapDeref(hash_range(chars, name, name_end), 0))
}

fn read_reference_form(chars: &Vec<char>, from: usize, to: usize) -> (operand: Option<Argument>)
    requires
        from <= to <= chars.len(),
    ensures
        is_operand(operand, reference_form(chars@.subrange(from as int, to as int))),
{
    let ghost token = chars@.subrange(from as int, to as int);
    if !token_has(chars, from, from, to, ':') {
        return None;
    }
    let name_end = scan_token(chars, from, from + 1, to, Stop::Blank);
    if from + 1 >= name_end {
        return None;
    }
    assert(token.subrange(1, name_end - from) == chars@.subrange(from + 1, name_end as int));
    Some(Argument::RawLabel(hash_range(chars, from + 1, name_end)))
}

fn read_label_operand(chars: &Vec<char>, from: usize, to: usize) -> (operand: Option<Argument>)
    requires
        from <= to <= chars.len(),
    ensures
        is_operand(operand, label_operand(chars@.subrange(from as int, to as int))),
{
    match read_offset_form(chars, from, to) {
        Some(operand) => Some(operand),
        None => match read_plain_form(chars, from, to) {
            Some(operand) => Some(operand),
            None => read_reference_form(chars, from, to),
        },
    }
}

/// The values that were read so far, followed by those that the rest may hold.
pub open spec fn followed_by(values: Seq<u64>, rest: Option<Seq<u64>>) -> Option<Seq<u64>> {
    match rest {
        Some(rest) => Some(values + rest),
        None => None,
    }
}

/// Whether values were read that are the expected ones, or none where none are expected.
pub open spec fn is_data(read: Option<Vec<Integer>>, expected: Option<Seq<u64>>) -> bool {
    match expected {
        Some(values) => read is Some && read->0@ == values,
        None => read is None,
    }
}

/// Reads one item of a data directive, with no white space before it.
fn read_item(chars: &Vec<char>, from: usize, to: usize) -> (values: Option<Vec<Integer>>)
    requires
        from <= to <= chars.len(),
        from < to ==> !is_white_space(chars@[from as int]),
    ensures
        is_data(values, item_values(chars@.subrange(from as int, to as int))),
{
    if from < to && (chars[from] == '[' || chars[from] == '{') {
        assert(chars@.subrange(from as int, to as int)[0] == chars@[from as int]);
        return None;
    }
    if from < to {
        assert(chars@.subrange(from as int, to as int)[0] == chars@[from as int]);
    }
    let item = to_text(chars, from, to);
    match parse_json_scalar(item.as_str()) {
        Scalar::Text(text) => {
            let letters = to_chars(text.as_str());
            let mut values: Vec<Integer> = Vec::new();
            let mut i: usize = 0;
            while i < letters.len()
                invariant
                    i <= letters.len(),
                    values@ == code_points(letters@.take(i as int)),
                decreases letters.len() - i,
            {
                values.push(letters[i] as Integer);
                i = i + 1;
                assert(values@ =~= code_points(letters@.take(i as int)));
            }
            assert(letters@.take(i as int) == letters@);
            Some(values)
        },
        Scalar::Number(number) => {
            let mut values: Vec<Integer> = Vec::new();
            values.push(number);
            assert(values@ =~= seq![number]);
            Some(values)
        },
        Scalar::Other => None,
    }
}

/// Reads the items of a data directive.
fn parse_db_literal(chars: &Vec<char>, from: usize, to: usize) -> (data: Option<Vec<Integer>>)
    requires
        from <= to <= chars.len(),
    ensures
        is_data(data, data_values(chars@.subrange(from as int, to as int))),
{
    let mut data: Vec<Integer> = Vec::new();
    let mut position: usize = from;
    assert(Seq::<u64>::empty() + data_values(chars@.subrange(from as int, to as int))->0
        =~= data_values(chars@.subrange(from as int, to as int))->0);
    loop
        invariant
            from <= position <= to <= chars.len(),
            data_values(chars@.subrange(from as int, to as int)) == followed_by(
                data@,
                data_values(chars@.subrange(position as int, to as int)),
            ),
        decreases to - position,
    {
        let ghost text = chars@.subrange(position as int, to as int);
        let end = scan(chars, position, to, Stop::Comma);
        let (start, stop) = trim_bounds(chars, position, end);
        assert(text.take(end - position) == chars@.subrange(position as int, end as int));
        let ghost before = data@;
        match read_item(chars, start, stop) {
            Some(values) => {
                let mut values = values;
                let ghost item = values@;
                data.append(&mut values);
                if end >= to {
                    return Some(data);
                }
                proof {
                    let rest = chars@.subrange(end + 1, to as int);
                    assert(text.skip(end - position + 1) == rest);
                    if data_values(rest) is Some {
                        assert(before + (item + data_values(rest)->0) =~= before + item
                            + data_values(rest)->0);
                    }
                }
                position = end + 1;
            },
            None => {
                return None;
            },
        }
    }
}

/// A token holds a colon where a scan for one stops before the end of the token.
pub proof fn lemma_colon(token: Seq<char>)
    ensures
        token.contains(':') == (span(token, Stop::Colon) < token.len()),
{
    lemma_span(token, Stop::Colon);
    if span(token, Stop::Colon) < token.len() {
        assert(token[span(token, Stop::Colon) as int] == ':');
    } else {
        assert forall|i: int| 0 <= i < token.len() implies token[i] != ':' by {
            assert(!stops(Stop::Colon, token[i]));
        }
    }
}

/// Whether an operand was read that is the expected one and ends where it is expected
/// to end, or the expected fault was found.
pub open spec fn is_argument(
    read: Result<(Argument, usize), LineFault>,
    expected: Result<(Operand, int), LineFault>,
    from: usize,
) -> bool {
    match expected {
        Ok((operand, length)) => read is Ok && read->Ok_0.0@ == operand && read->Ok_0.1 == from
            + length,
        Err(fault) => read == Err::<(Argument, usize), LineFault>(fault),
    }
}

/// Reads the operand at the start of the text from `from` up to `to`.
fn parse_argument(chars: &Vec<char>, from: usize, to: usize) -> (argument: Result<
    (Argument, usize),
    LineFault,
>)
    requires
        from < to <= chars.len(),
    ensures
        is_argument(argument, self::argument(chars@.subrange(from as int, to as int)), from),
        argument is Ok ==> from < argument->Ok_0.1 <= to,
{
    reveal(argument);
    let ghost text = chars@.subrange(from as int, to as int);
    assert(text[0] == chars@[from as int]);
    let close = scan_token(chars, from, from + 1, to, Stop::Bracket);
    let token_end = if chars[from] == '[' && from + 1 < close && close < to {
        close + 1
    } else {
        scan(chars, from, to, Stop::Blank)
    };
    if token_end <= from {
        return Err(LineFault::InvalidArgument);
    }
    let ghost token = text.take(token_end - from);
    assert(token == chars@.subrange(from as int, token_end as int));
    assert(token[0] == chars@[from as int]);
    if let Some(register) = read_register(chars, from, token_end) {
        return Ok((Argument::Register(register), token_end));
    }
    if is_word(chars, from, token_end, "db") {
        let (start, stop) = trim_bounds(chars, token_end, to);
        assert(text.skip(token_end - from) == chars@.subrange(token_end as int, to as int));
        return match parse_db_literal(chars, start, stop) {
            Some(data) => Ok((Argument::Literal(data), to)),
            None => Err(LineFault::InvalidLiteral),
        };
    }
    if chars[from] == '#' {
        assert(token.skip(1) == chars@.subrange(from + 1, token_end as int));
        return match read_number(chars, from + 1, token_end, u64::MAX) {
            Some((value, _)) => Ok((Argument::Raw(value), token_end)),
            None => Err(LineFault::InvalidArgument),
        };
    }
    proof {
        lemma_colon(token);
    }
    if scan(chars, from, token_end, Stop::Colon) < token_end {
        return match read_label_operand(chars, from, token_end) {
            Some(operand) => Ok((operand, token_end)),
            None => Err(LineFault::InvalidArgument),
        };
    }
    Err(LineFault::InvalidArgument)
}

/// The command of a mnemonic.
#[verifier::opaque]
pub open spec fn mnemonic(word: Seq<char>) -> Option<Command> {
    if word == "mov"@ {
        Some(Command::Move)
    } else if word == "add"@ {
        Some(Command::Add)
    } else if word == "sub"@ {
        Some(Command::Subtract)
    } else if word == "mul"@ {
        Some(Command::Multiply)
    } else if word == "div"@ {
        Some(Command::Divide)
    } else if word == "bgr"@ {
        Some(Command::BranchGreater)
    } else if word == "bge"@ {
        Some(Command::BranchGreaterEqual)
    } else if word == "bl"@ {
        Some(Command::BranchLesser)
    } else if word == "ble"@ {
        Some(Command::BranchLesserEqual)
    } else if word == "beq"@ {
        Some(Command::BranchEqual)
    } else if word == "bne"@ {
        Some(Command::BranchNotEqual)
    } else if word == "b"@ {
        Some(Command::Branch)
    } else if word == "cmp"@ {
        Some(Command::Compare)
    } else if word == "call"@ {
        Some(Command::Call)
    } else if word == "push"@ {
        Some(Command::Push)
    } else if word == "pop"@ {
        Some(Command::Pop)
    } else if word == "ret"@ {
        Some(Command::Return)
    } else {
        None
    }
}

/// The length of the label at the start of a line: what stands before the first colon,
/// where that is not empty and holds no space.
pub open spec fn label_length(line: Seq<char>) -> Option<int> {
    let length = span(line, Stop::ColonOrSpace) as int;
    if 1 <= length && has_at(line, length, ':') {
        Some(length)
    } else {
        None
    }
}

/// The instruction of a command and the text of its operands, which is not empty and has
/// no white space around it. What follows a second operand is not read.
#[verifier::opaque]
pub open spec fn operands(command: Command, text: Seq<char>) -> Result<Instruction, LineFault> {
    match argument(text) {
        Err(fault) => Err(fault),
        Ok((first, length)) => {
            let rest = trim(text.skip(length));
            if rest.len() == 0 {
                Ok(Instruction { command, first, second: Operand::Absent })
            } else {
                match argument(rest) {
                    Err(fault) => Err(fault),
                    Ok((second, _)) => Ok(Instruction { command, first, second }),
                }
            }
        },
    }
}

/// The instruction of a line, if the line holds one: a blank line holds none.
#[verifier::opaque]
pub open spec fn line_instruction(line: Seq<char>) -> Result<Option<Instruction>, LineFault> {
    let text = trim(line);
    if text.len() == 0 {
        Ok(None)
    } else {
        match label_length(text) {
            Some(length) => {
                let id = label_hash(text.take(length));
                let rest = trim(text.skip(length + 1));
                if rest.len() == 0 {
                    Ok(
                        Some(
                            Instruction {
                                command: Command::Label,
                                first: Operand::RawLabel(id),
                                second: Operand::Absent,
                            },
                        ),
                    )
                } else {
                    match operands(Command::LabelledData(id), rest) {
                        Ok(instruction) => Ok(Some(instruction)),
                        Err(fault) => Err(fault),
                    }
                }
            },
            None => {
                let length = span(text, Stop::NotLetter) as int;
                match mnemonic(text.take(length)) {
                    None => Err(LineFault::InvalidCommand),
                    Some(command) => {
                        let rest = trim(text.skip(length));
                        if rest.len() == 0 {
                            if command is Return {
                                Ok(
                                    Some(
                                        Instruction {
                                            command,
                                            first: Operand::Absent,
                                            second: Operand::Absent,
                                        },
                                    ),
                                )
                            } else {
                                Err(LineFault::MissingArguments)
                            }
                        } else {
                            match operands(command, rest) {
                                Ok(instruction) => Ok(Some(instruction)),
                                Err(fault) => Err(fault),
                            }
                        }
                    },
                }
            },
        }
    }
}

fn parse_command(chars: &Vec<char>, from: usize, to: usize) -> (command: Option<Command>)
    requires
        from <= to <= chars.len(),
    ensures
        command == mnemonic(chars@.subrange(from as int, to as int)),
{
    reveal(mnemonic);
    if is_word(chars, from, to, "mov") {
        Some(Command::Move)
    } else if is_word(chars, from, to, "add") {
        Some(Command::Add)
    } else if is_word(chars, from, to, "sub") {
        Some(Command::Subtract)
    } else if is_word(chars, from, to, "mul") {
        Some(Command::Multiply)
    } else if is_word(chars, from, to, "div") {
        Some(Command::Divide)
    } else if is_word(chars, from, to, "bgr") {
        Some(Command::BranchGreater)
    } else if is_word(chars, from, to, "bge") {
        Some(Command::BranchGreaterEqual)
    } else if is_word(chars, from, to, "bl") {
        Some(Command::BranchLesser)
    } else if is_word(chars, from, to, "ble") {
        Some(Command::BranchLesserEqual)
    } else if is_word(chars, from, to, "beq") {
        Some(Command::BranchEqual)
    } else if is_word(chars, from, to, "bne") {
        Some(Command::BranchNotEqual)
    } else if is_word(chars, from, to, "b") {
        Some(Command::Branch)
    } else if is_word(chars, from, to, "cmp") {
        Some(Command::Compare)
    } else if is_word(chars, from, to, "call") {
        Some(Command::Call)
    } else if is_word(chars, from, to, "push") {
        Some(Command::Push)
    } else if is_word(chars, from, to, "pop") {
        Some(Command::Pop)
    } else if is_word(chars, from, to, "ret") {
        Some(Command::Return)
    } else {
        None
    }
}

/// Whether an instruction was read that is the expected one, or the expected fault found.
pub open spec fn is_instruction(
    read: Result<(Command, [Argument; 2]), LineFault>,
    expected: Result<Instruction, LineFault>,
) -> bool {
    match expected {
        Ok(instruction) => read is Ok && crate::types::instruction_view(read->Ok_0)
            == instruction,
        Err(fault) => read == Err::<(Command, [Argument; 2]), LineFault>(fault),
    }
}

/// Whether a line was read as expected: as blank, as the expected instruction, or with
/// the expected fault.
pub open spec fn is_line(
    read: Result<Option<(Command, [Argument; 2])>, LineFault>,
    expected: Result<Option<Instruction>, LineFault>,
) -> bool {
    match expected {
        Ok(Some(instruction)) => read is Ok && read->Ok_0 is Some
            && crate::types::instruction_view(read->Ok_0->0) == instruction,
        Ok(None) => read is Ok && read->Ok_0 is None,
        Err(fault) => read == Err::<Option<(Command, [Argument; 2])>, LineFault>(fault),
    }
}

/// Reads the operands of a command from text that is not empty and has no white space
/// around it.
fn parse_operands(command: Command, chars: &Vec<char>, from: usize, to: usize) -> (instruction:
    Result<(Command, [Argument; 2]), LineFault>)
    requires
        from < to <= chars.len(),
    ensures
        is_instruction(instruction, operands(command, chars@.subrange(from as int, to as int))),
{
    reveal(operands);
    let ghost text = chars@.subrange(from as int, to as int);
    let (first, after) = match parse_argument(chars, from, to) {
        Ok(read) => read,
        Err(fault) => {
            return Err(fault);
        },
    };
    assert(text.skip(after - from) == chars@.subrange(after as int, to as int));
    let (start, stop) = trim_bounds(chars, after, to);
    if start >= stop {
        return Ok((command, [first, Argument::Absent]));
    }
    match parse_argument(chars, start, stop) {
        Ok((second, _)) => Ok((command, [first, second])),
        Err(fault) => Err(fault),
    }
}

/// Finds the end of the label at the start of a line, if the line starts with one.
fn label_line_parser(chars: &Vec<char>, from: usize, to: usize) -> (end: Option<usize>)
    requires
        from <= to <= chars.len(),
    ensures
        match label_length(chars@.subrange(from as int, to as int)) {
            Some(length) => end == Some((from + length) as usize) && from < from + length < to,
            None => end is None,
        },
{
    let end = scan(chars, from, to, Stop::ColonOrSpace);
    if end < to {
        assert(chars@.subrange(from as int, to as int)[end - from] == chars@[end as int]);
    }
    if from < end && end < to && chars[end] == ':' {
        Some(end)
    } else {
        None
    }
}

/// Reads the line that the characters from `from` up to `to` hold.
fn parse_line(chars: &Vec<char>, from: usize, to: usize) -> (line: Result<
    Option<(Command, [Argument; 2])>,
    LineFault,
>)
    requires
        from <= to <= chars.len(),
    ensures
        is_line(line, line_instruction(chars@.subrange(from as int, to as int))),
{
    reveal(line_instruction);
    let (start, stop) = trim_bounds(chars, from, to);
    if start >= stop {
        return Ok(None);
    }
    let ghost text = chars@.subrange(start as int, stop as int);
    if let Some(label_end) = label_line_parser(chars, start, stop) {
        assert(text.take(label_end - start) == chars@.subrange(start as int, label_end as int));
        assert(text.skip(label_end - start + 1) == chars@.subrange(
            label_end + 1,
            stop as int,
        ));
        let label = hash_range(chars, start, label_end);
        let (rest, rest_end) = trim_bounds(chars, label_end + 1, stop);
        if rest >= rest_end {
            return Ok(Some((Command::Label, [Argument::RawLabel(label), Argument::Absent])));
        }
        return match parse_operands(Command::LabelledData(label), chars, rest, rest_end) {
            Ok(instruction) => Ok(Some(instruction)),
            Err(fault) => Err(fault),
        };
    }
    let word_end = scan(chars, start, stop, Stop::NotLetter);
    assert(text.take(word_end - start) == chars@.subrange(start as int, word_end as int));
    assert(text.skip(word_end - start) == chars@.subrange(word_end as int, stop as int));
    let command = match parse_command(chars, start, word_end) {
        Some(command) => command,
        None => {
            return Err(LineFault::InvalidCommand);
        },
    };
    let (rest, rest_end) = trim_bounds(chars, word_end, stop);
    if rest >= rest_end {
        return match command {
            Command::Return => Ok(Some((Command::Return, [Argument::Absent, Argument::Absent]))),
            _ => Err(LineFault::MissingArguments),
        };
    }
    match parse_operands(command, chars, rest, rest_end) {
        Ok(instruction) => Ok(Some(instruction)),
        Err(fault) => Err(fault),
    }
}

/// What is wrong with a line, in words.
pub open spec fn fault_reason(fault: LineFault) -> Seq<char> {
    match fault {
        LineFault::InvalidCommand => "invalid command"@,
        LineFault::MissingArguments => "missing arguments"@,
        LineFault::InvalidArgument => "invalid argument"@,
        LineFault::InvalidLiteral => "invalid db literal"@,
    }
}

/// The message that reports a fault in the line with the given index.
pub open spec fn line_fault_message(line: nat, fault: LineFault) -> Seq<char> {
    "line "@ + decimal(line) + ": "@ + fault_reason(fault)
}

/// The program of the first `count` lines: each line that holds an instruction gives
/// the entry at its index. The first line that is no instruction fails the whole.
pub open spec fn assembled(lines: Seq<Seq<char>>, count: nat) -> Result<
    Map<u64, Instruction>,
    (nat, LineFault),
>
    decreases count,
{
    if count == 0 {
        Ok(Map::empty())
    } else {
        let line = (count - 1) as nat;
        match assembled(lines, line) {
            Err(fault) => Err(fault),
            Ok(program) => match line_instruction(lines[line as int]) {
                Err(fault) => Err((line, fault)),
                Ok(None) => Ok(program),
                Ok(Some(instruction)) => Ok(program.insert(line as u64, instruction)),
            },
        }
    }
}

/// The program of a sequence of lines.
pub open spec fn assemble(lines: Seq<Seq<char>>) -> Result<Map<u64, Instruction>, (nat, LineFault)> {
    assembled(lines, lines.len())
}

/// The texts of a sequence of strings.
pub open spec fn texts(lines: Seq<String>) -> Seq<Seq<char>> {
    Seq::new(lines.len(), |i: int| lines[i]@)
}

/// The lines of a text. A line ends at a line feed or at the end of the text; a carriage
/// return just before the line feed belongs to neither line. After the last line feed
/// there is a line only if there is text.
pub open spec fn text_lines(text: Seq<char>) -> Seq<Seq<char>>
    decreases text.len(),
{
    if text.len() == 0 {
        Seq::empty()
    } else {
        let length = span(text, Stop::LineFeed) as int;
        let line = text.take(length);
        if length >= text.len() {
            seq![line]
        } else if line.len() > 0 && line.last() == '\r' {
            seq![line.drop_last()] + text_lines(text.skip(length + 1))
        } else {
            seq![line] + text_lines(text.skip(length + 1))
        }
    }
}

/// Whether a result is the expected program, or the message of the expected fault.
pub open spec fn is_program(
    result: Result<Program, Error>,
    expected: Result<Map<u64, Instruction>, (nat, LineFault)>,
) -> bool {
    match expected {
        Ok(program) => result is Ok && program_view(result->Ok_0) == program,
        Err((line, fault)) => result is Err && result->Err_0@ == line_fault_message(line, fault),
    }
}

/// No mnemonic stands for a label instruction.
pub proof fn lemma_mnemonic_is_no_label(word: Seq<char>)
    ensures
        mnemonic(word) != Some(Command::Label),
{
    reveal(mnemonic);
}

/// A label instruction that the assembler makes of a line names its label.
pub proof fn lemma_line_names_label(line: Seq<char>)
    ensures
        line_instruction(line) matches Ok(Some(instruction)) ==> (instruction.command is Label
            ==> instruction.first is RawLabel),
{
    reveal(line_instruction);
    reveal(operands);
    let text = trim(line);
    lemma_mnemonic_is_no_label(text.take(span(text, Stop::NotLetter) as int));
}

/// The label instructions of an assembled program name their labels, so that the
/// program can be listed.
pub proof fn lemma_assembled_names_labels(lines: Seq<Seq<char>>, count: nat)
    ensures
        assembled(lines, count) matches Ok(program) ==> labels_named(program),
    decreases count,
{
    if count > 0 {
        lemma_assembled_names_labels(lines, (count - 1) as nat);
        lemma_line_names_label(lines[count - 1]);
    }
}

/// An assembled program has its lines below the number of lines of its text.
pub proof fn lemma_assembled_lines(lines: Seq<Seq<char>>, count: nat)
    ensures
        assembled(lines, count) matches Ok(program) ==> forall|line: u64|
            program.contains_key(line) ==> line < count,
    decreases count,
{
    if count > 0 {
        lemma_assembled_lines(lines, (count - 1) as nat);
    }
}

/// The message that reports a fault in the line with the given index.
fn fault_text(line: usize, fault: LineFault) -> (text: String)
    ensures
        text@ == line_fault_message(line as nat, fault),
{
    let mut buffer: Vec<char> = Vec::new();
    push_text(&mut buffer, "line ");
    push_decimal(&mut buffer, line as u64);
    push_text(&mut buffer, ": ");
    match fault {
        LineFault::InvalidCommand => push_text(&mut buffer, "invalid command"),
        LineFault::MissingArguments => push_text(&mut buffer, "missing arguments"),
        LineFault::InvalidArgument => push_text(&mut buffer, "invalid argument"),
        LineFault::InvalidLiteral => push_text(&mut buffer, "invalid db literal"),
    }
    assert(buffer@.subrange(0, buffer.len() as int) == buffer@);
    to_text(&buffer, 0, buffer.len())
}

/// Assembles lines of text that were read one by one.
pub fn parse(lines: &Vec<String>) -> (result: Result<Program, Error>)
    ensures
        is_program(result, assemble(texts(lines@))),
        result matches Ok(program) ==> labels_named(program_view(program)) && has_end(
            program_view(program),
        ),
{
    proof {
        lemma_assembled_names_labels(texts(lines@), lines@.len());
        lemma_assembled_lines(texts(lines@), lines@.len());
    }
    let mut program = Program::new();
    let ghost all = texts(lines@);
    let mut index: usize = 0;
    assert(program_view(program) =~= Map::empty());
    while index < lines.len()
        invariant
            index <= lines.len(),
            all == texts(lines@),
            assembled(all, index as nat) == Ok::<Map<u64, Instruction>, (nat, LineFault)>(
                program_view(program),
            ),
        decreases lines.len() - index,
    {
        let chars = to_chars(lines[index].as_str());
        assert(chars@.subrange(0, chars.len() as int) == all[index as int]);
        let ghost before = program_view(program);
        match parse_line(&chars, 0, chars.len()) {
            Ok(Some(entry)) => {
                let ghost instruction = crate::types::instruction_view(entry);
                program.insert(index as Integer, entry);
                assert(program_view(program) =~= before.insert(index as u64, instruction));
            },
            Ok(None) => {},
            Err(fault) => {
                proof {
                    lemma_fault_stays(all, index as nat, lines.len() as nat);
                }
                return Err(fault_text(index, fault));
            },
        }
        index = index + 1;
    }
    Ok(program)
}

/// Once a line has failed, the lines after it change nothing.
pub proof fn lemma_fault_stays(lines: Seq<Seq<char>>, line: nat, count: nat)
    requires
        line < count,
        assembled(lines, line) is Ok,
        line_instruction(lines[line as int]) is Err,
    ensures
        assembled(lines, count) == Err::<Map<u64, Instruction>, (nat, LineFault)>(
            (line, line_instruction(lines[line as int])->Err_0),
        ),
    decreases count,
{
    if count > line + 1 {
        lemma_fault_stays(lines, line, (count - 1) as nat);
    }
}

/// Splits a text into its lines.
pub fn split_lines(input: &str) -> (lines: Vec<String>)
    ensures
        texts(lines@) == text_lines(input@),
{
    let chars = to_chars(input);
    let mut lines: Vec<String> = Vec::new();
    let mut position: usize = 0;
    assert(chars@.subrange(0, chars.len() as int) == chars@);
    while position < chars.len()
        invariant
            position <= chars.len(),
            chars@ == input@,
            text_lines(input@) == texts(lines@) + text_lines(
                chars@.subrange(position as int, chars.len() as int),
            ),
        decreases chars.len() - position,
    {
        let ghost text = chars@.subrange(position as int, chars.len() as int);
        let ghost before = texts(lines@);
        let feed = scan(&chars, position, chars.len(), Stop::LineFeed);
        let end = if feed < chars.len() && position < feed && chars[feed - 1] == '\r' {
            feed - 1
        } else {
            feed
        };
        let line = to_text(&chars, position, end);
        proof {
            let whole = text.take(feed - position);
            assert(whole == chars@.subrange(position as int, feed as int));
            if position < feed {
                assert(whole.last() == chars@[feed - 1]);
                assert(whole.drop_last() == chars@.subrange(position as int, feed - 1));
            }
        }
        lines.push(line);
        assert(texts(lines@) =~= before + seq![line@]);
        if feed < chars.len() {
            assert(text.skip(feed - position + 1) == chars@.subrange(
                feed + 1,
                chars.len() as int,
            ));
            position = feed + 1;
        } else {
            position = feed;
        }
    }
    assert(texts(lines@) + Seq::<Seq<char>>::empty() =~= texts(lines@));
    lines
}

/// Assembles a text.
pub fn parse_from_str(input: &str) -> (result: Result<Program, Error>)
    ensures
        is_program(result, assemble(text_lines(input@))),
        result matches Ok(program) ==> labels_named(program_view(program)) && has_end(
            program_view(program),
        ),
{
    let lines = split_lines(input);
    parse(&lines)
}

} // verus!
