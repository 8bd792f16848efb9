//! The reader of scripts: text to a syntax tree.

use crate::scan::digits_value;
use crate::scan::has_at;
use crate::scan::has_char;
use crate::scan::is_word;
use crate::scan::lemma_span;
use crate::scan::read_digits;
use crate::scan::scan_on;
use crate::scan::span_from;
use crate::scan::Stop;
use crate::script::ast::expression_view;
use crate::script::ast::expressions_view;
use crate::script::ast::lemma_expressions_view;
use crate::script::ast::script_view;
use crate::script::ast::statement_view;
use crate::script::ast::term_view;
use crate::script::ast::Arguments;
use crate::script::ast::Block;
use crate::script::ast::CallView;
use crate::script::ast::Expression;
use crate::script::ast::ExpressionView;
use crate::script::ast::FunctionArguments;
use crate::script::ast::FunctionCall;
use crate::script::ast::FunctionDef;
use crate::script::ast::FunctionView;
use crate::script::ast::Ident;
use crate::script::ast::Integer;
use crate::script::ast::Line;
use crate::script::ast::LineView;
use crate::script::ast::Program;
use crate::script::ast::ReturnStatement;
use crate::script::ast::Script;
use crate::script::ast::Statement;
use crate::script::ast::StatementView;
use crate::script::ast::StringLiteral;
use crate::script::ast::Term;
use crate::script::ast::TermView;
use crate::script::ast::EOI;
use crate::text::is_digit;
use crate::text::is_letter;
use crate::text::to_chars;
use crate::text::to_text;
use crate::types::Error;
use vstd::prelude::*;
use vstd::string::StringExecFns;

verus! {

/// The position of the first character at or after `at` that is not white space.
pub open spec fn skip(text: Seq<char>, at: int) -> int {
    span_from(text, at, Stop::NotWhite)
}

/// The end of the identifier that starts at `at`, if one starts there: a letter or an
/// underscore, and then letters, digits and underscores.
pub open spec fn word_end(text: Seq<char>, at: int) -> Option<int> {
    if 0 <= at < text.len() && (is_letter(text[at]) || text[at] == '_') {
        Some(span_from(text, at, Stop::NotWord))
    } else {
        None
    }
}

/// The unsigned integer that starts at `at`, if one starts there, and its end: a run of
/// digits whose value fits in 64 bits.
pub open spec fn number(text: Seq<char>, at: int) -> Option<(u64, int)> {
    let end = span_from(text, at, Stop::NotDigit);
    if 0 <= at < end <= text.len() && digits_value(text.subrange(at, end)) <= u64::MAX {
        Some((digits_value(text.subrange(at, end)) as u64, end))
    } else {
        None
    }
}

/// The string literal that starts at `at`, if one starts there, and its end: what
/// stands between a double quote and the next one.
pub open spec fn string(text: Seq<char>, at: int) -> Option<(Seq<char>, int)> {
    let close = span_from(text, at + 1, Stop::Quote);
    if has_at(text, at, '"') && close < text.len() {
        Some((text.subrange(at + 1, close), close + 1))
    } else {
        None
    }
}

/// The term that starts at `at`, if one starts there, and its end.
pub open spec fn term(text: Seq<char>, at: int) -> Option<(TermView, int)> {
    match word_end(text, at) {
        Some(end) => Some((TermView::Ident(text.subrange(at, end)), end)),
        None => match number(text, at) {
            Some((value, end)) => Some((TermView::Number(value), end)),
            None => match string(text, at) {
                Some((value, end)) => Some((TermView::Text(value), end)),
                None => None,
            },
        },
    }
}

/// The expression that starts at `at`, if one starts there, and its end: a call where
/// an identifier is followed by an opening parenthesis, else a term.
pub open spec fn expression(text: Seq<char>, at: int) -> Option<(ExpressionView, int)>
    decreases text.len() - at, 0nat,
{
    match word_end(text, at) {
        Some(end) => {
            let open = skip(text, end);
            if has_at(text, open, '(') && open >= at {
                match arguments(text, open + 1) {
                    Some((arguments, next)) => Some(
                        (
                            ExpressionView::Call(
                                CallView { name: text.subrange(at, end), arguments },
                            ),
                            next,
                        ),
                    ),
                    None => None,
                }
            } else {
                Some((ExpressionView::Term(TermView::Ident(text.subrange(at, end))), end))
            }
        },
        None => match term(text, at) {
            Some((term, end)) => Some((ExpressionView::Term(term), end)),
            None => None,
        },
    }
}

/// The arguments of a call, from after its opening parenthesis to its closing one: none
/// at all between the two, else expressions with commas between them.
pub open spec fn arguments(text: Seq<char>, at: int) -> Option<
    (Option<Seq<ExpressionView>>, int),
>
    decreases text.len() - at, 2nat,
{
    let start = skip(text, at);
    if has_at(text, start, ')') {
        Some((None, start + 1))
    } else {
        match expressions(text, at) {
            Some((items, next)) => Some((Some(items), next)),
            None => None,
        }
    }
}

/// One or more expressions with commas between them, and the closing parenthesis.
pub open spec fn expressions(text: Seq<char>, at: int) -> Option<(Seq<ExpressionView>, int)>
    decreases text.len() - at, 1nat,
{
    let start = skip(text, at);
    if !(at <= start <= text.len()) {
        None
    } else {
        match expression(text, start) {
            None => None,
            Some((first, end)) => {
                let next = skip(text, end);
                if has_at(text, next, ')') {
                    Some((seq![first], next + 1))
                } else if has_at(text, next, ',') && next >= at {
                    match expressions(text, next + 1) {
                        Some((rest, after)) => Some((seq![first] + rest, after)),
                        None => None,
                    }
                } else {
                    None
                }
            },
        }
    }
}

/// The statement that starts at `at`, if one starts there, and its end. A return
/// statement ends with a semicolon; after an expression the semicolon may be left out.
pub open spec fn statement(text: Seq<char>, at: int) -> Option<(StatementView, int)> {
    if word_end(text, at) is Some && text.subrange(at, word_end(text, at)->0) == "return"@ {
        match term(text, skip(text, word_end(text, at)->0)) {
            Some((term, end)) => if has_at(text, skip(text, end), ';') {
                Some((StatementView::Return(term), skip(text, end) + 1))
            } else {
                None
            },
            None => None,
        }
    } else {
        match expression(text, at) {
            Some((expression, end)) => if has_at(text, skip(text, end), ';') {
                Some((StatementView::Expression(expression), skip(text, end) + 1))
            } else {
                Some((StatementView::Expression(expression), end))
            },
            None => None,
        }
    }
}

/// The statements of a block, from after its opening brace to its closing one.
pub open spec fn statements(text: Seq<char>, at: int) -> Option<(Seq<StatementView>, int)>
    decreases text.len() - at,
{
    let start = skip(text, at);
    if has_at(text, start, '}') {
        Some((Seq::empty(), start + 1))
    } else {
        match statement(text, start) {
            Some((first, end)) => if at < end <= text.len() {
                match statements(text, end) {
                    Some((rest, after)) => Some((seq![first] + rest, after)),
                    None => None,
                }
            } else {
                None
            },
            None => None,
        }
    }
}

/// One or more parameter names with commas between them, and the closing parenthesis.
pub open spec fn names(text: Seq<char>, at: int) -> Option<(Seq<Seq<char>>, int)>
    decreases text.len() - at,
{
    let start = skip(text, at);
    match word_end(text, start) {
        None => None,
        Some(end) => {
            let next = skip(text, end);
            if has_at(text, next, ')') {
                Some((seq![text.subrange(start, end)], next + 1))
            } else if has_at(text, next, ',') && next >= at {
                match names(text, next + 1) {
                    Some((rest, after)) => Some((seq![text.subrange(start, end)] + rest, after)),
                    None => None,
                }
            } else {
                None
            }
        },
    }
}

/// The parameters of a function, from after the opening parenthesis to the closing one.
pub open spec fn parameters(text: Seq<char>, at: int) -> Option<(Option<Seq<Seq<char>>>, int)> {
    let start = skip(text, at);
    if has_at(text, start, ')') {
        Some((None, start + 1))
    } else {
        match names(text, at) {
            Some((names, next)) => Some((Some(names), next)),
            None => None,
        }
    }
}

/// A function definition, from after the word `fn`: a name, the parameters in
/// parentheses and the body in braces.
pub open spec fn function(text: Seq<char>, at: int) -> Option<(FunctionView, int)> {
    let start = skip(text, at);
    match word_end(text, start) {
        None => None,
        Some(end) => if has_at(text, skip(text, end), '(') {
            match parameters(text, skip(text, end) + 1) {
                None => None,
                Some((parameters, after)) => if has_at(text, skip(text, after), '{') {
                    match statements(text, skip(text, after) + 1) {
                        Some((body, next)) => Some(
                            (FunctionView { name: text.subrange(start, end), parameters, body }, next),
                        ),
                        None => None,
                    }
                } else {
                    None
                },
            }
        } else {
            None
        },
    }
}

/// The line that starts at `at`, if one starts there, and its end: a function
/// definition after the word `fn`, else a call or a term.
pub open spec fn line(text: Seq<char>, at: int) -> Option<(LineView, int)> {
    if word_end(text, at) is Some && text.subrange(at, word_end(text, at)->0) == "fn"@ {
        match function(text, word_end(text, at)->0) {
            Some((function, next)) => Some((LineView::Function(function), next)),
            None => None,
        }
    } else {
        match expression(text, at) {
            Some((ExpressionView::Call(call), next)) => Some((LineView::Call(call), next)),
            Some((ExpressionView::Term(term), next)) => Some((LineView::Term(term), next)),
            None => None,
        }
    }
}

/// The lines from `at` to the end of the text, with white space between and around them.
pub open spec fn lines(text: Seq<char>, at: int) -> Option<Seq<LineView>>
    decreases text.len() - at,
{
    let start = skip(text, at);
    if start >= text.len() {
        Some(Seq::empty())
    } else {
        match line(text, start) {
            Some((first, end)) => if at < end <= text.len() {
                match lines(text, end) {
                    Some(rest) => Some(seq![first] + rest),
                    None => None,
                }
            } else {
                None
            },
            None => None,
        }
    }
}

/// The lines of a script, if the text is one.
pub open spec fn script(text: Seq<char>) -> Option<Seq<LineView>> {
    lines(text, 0)
}

/// The values of a sequence of expressions.
pub open spec fn expression_views(expressions: Seq<Expression>) -> Seq<ExpressionView> {
    Seq::new(expressions.len(), |i: int| expression_view(expressions[i]))
}

/// The values of a sequence of statements.
pub open spec fn statement_views(statements: Seq<Statement>) -> Seq<StatementView> {
    Seq::new(statements.len(), |i: int| statement_view(statements[i]))
}

/// The names of a sequence of identifiers.
pub open spec fn ident_views(names: Seq<Ident>) -> Seq<Seq<char>> {
    Seq::new(names.len(), |i: int| names[i].ident@)
}

/// The values of a sequence of lines.
pub open spec fn line_views(lines: Seq<Line>) -> Seq<LineView> {
    Seq::new(lines.len(), |i: int| crate::script::ast::line_view(lines[i]))
}

/// What was read.
pub open spec fn value_of<T>(read: Option<(T, usize)>) -> T {
    match read {
        Some(pair) => pair.0,
        None => arbitrary(),
    }
}

/// Where what was read ends.
pub open spec fn end_of<T>(read: Option<(T, usize)>) -> int {
    match read {
        Some(pair) => pair.1 as int,
        None => 0,
    }
}

/// What was read so far, followed by what the rest of the text may hold.
pub open spec fn then<T>(read: Seq<T>, rest: Option<(Seq<T>, int)>) -> Option<(Seq<T>, int)> {
    match rest {
        Some((rest, end)) => Some((read + rest, end)),
        None => None,
    }
}

fn skip_space(chars: &Vec<char>, at: usize) -> (next: usize)
    ensures
        next == skip(chars@, at as int),
        at <= next,
        at <= chars.len() ==> next <= chars.len(),
{
    scan_on(chars, at, Stop::NotWhite)
}

fn parse_word(chars: &Vec<char>, at: usize) -> (end: Option<usize>)
    ensures
        match word_end(chars@, at as int) {
            Some(expected) => end == Some(expected as usize) && at < expected <= chars.len(),
            None => end is None,
        },
{
    if at < chars.len() && (crate::text::is_ascii_letter(chars[at]) || chars[at] == '_') {
        let end = scan_on(chars, at, Stop::NotWord);
        proof {
            lemma_span(chars@.skip(at as int), Stop::NotWord);
            assert(chars@.skip(at as int)[0] == chars@[at as int]);
        }
        Some(end)
    } else {
        None
    }
}

fn parse_integer(chars: &Vec<char>, at: usize) -> (integer: Option<(u64, usize)>)
    ensures
        match number(chars@, at as int) {
            Some((value, end)) => integer == Some((value, end as usize)) && at < end
                <= chars.len(),
            None => integer is None,
        },
{
    let end = scan_on(chars, at, Stop::NotDigit);
    if at >= end || end > chars.len() {
        return None;
    }
    proof {
        let rest = chars@.skip(at as int);
        lemma_span(rest, Stop::NotDigit);
        assert forall|i: int| at <= i < end implies is_digit(#[trigger] chars@[i]) by {
            assert(rest[i - at] == chars@[i]);
            assert(!crate::scan::stops(Stop::NotDigit, rest[i - at]));
        }
    }
    match read_digits(chars, at, end, u64::MAX) {
        Some(value) => Some((value, end)),
        None => None,
    }
}

fn parse_string(chars: &Vec<char>, at: usize) -> (literal: Option<(String, usize)>)
    ensures
        match string(chars@, at as int) {
            Some((value, end)) => literal is Some && value_of(literal)@ == value && end_of(literal)
                == end && at < end <= chars.len(),
            None => literal is None,
        },
{
    if !has_char(chars, at, '"') {
        return None;
    }
    assert(at < chars.len());
    let close = scan_on(chars, at + 1, Stop::Quote);
    if close >= chars.len() {
        return None;
    }
    Some((to_text(chars, at + 1, close), close + 1))
}

fn parse_term(chars: &Vec<char>, at: usize) -> (read: Option<(Term, usize)>)
    ensures
        match term(chars@, at as int) {
            Some((value, end)) => read is Some && term_view(value_of(read)) == value && end_of(read)
                == end && at < end <= chars.len(),
            None => read is None,
        },
{
    if let Some(end) = parse_word(chars, at) {
        return Some((Term::Ident(Ident { ident: to_text(chars, at, end) }), end));
    }
    if let Some((value, end)) = parse_integer(chars, at) {
        return Some((Term::Number(Integer { value }), end));
    }
    if let Some((value, end)) = parse_string(chars, at) {
        return Some((Term::String(StringLiteral { value }), end));
    }
    None
}

/// The values of expressions in a vector are those of its elements.
pub proof fn lemma_expression_views(expressions: Vec<Expression>)
    ensures
        expressions_view(expressions, expressions.len() as nat) == expression_views(
            expressions@,
        ),
{
    lemma_expressions_view(expressions, expressions.len() as nat);
    assert(expressions_view(expressions, expressions.len() as nat) =~= expression_views(
        expressions@,
    ));
}

fn parse_expression(chars: &Vec<char>, at: usize) -> (read: Option<(Expression, usize)>)
    ensures
        match expression(chars@, at as int) {
            Some((value, end)) => read is Some && expression_view(value_of(read)) == value
                && end_of(read) == end && at < end <= chars.len(),
            None => read is None,
        },
    decreases chars.len() - at, 0nat,
{
    match parse_word(chars, at) {
        Some(end) => {
            let open = skip_space(chars, end);
            if has_char(chars, open, '(') {
                match parse_arguments(chars, open + 1) {
                    Some((params, next)) => {
                        let call = FunctionCall {
                            ident: Ident { ident: to_text(chars, at, end) },
                            params,
                        };
                        Some((Expression::FunctionCall(call), next))
                    },
                    None => None,
                }
            } else {
                Some((Expression::Term(Term::Ident(Ident { ident: to_text(chars, at, end) })), end))
            }
        },
        None => match parse_term(chars, at) {
            Some((term, end)) => Some((Expression::Term(term), end)),
            None => None,
        },
    }
}

fn parse_arguments(chars: &Vec<char>, at: usize) -> (read: Option<
    (Option<FunctionArguments>, usize),
>)
    requires
        at <= chars.len(),
    ensures
        match arguments(chars@, at as int) {
            Some((value, end)) => read is Some && end_of(read) == end && at < end <= chars.len()
                && match value {
                Some(items) => value_of(read) is Some && crate::script::ast::arguments_view(
                    value_of(read)->0,
                ) == items,
                None => value_of(read) is None,
            },
            None => read is None,
        },
    decreases chars.len() - at, 2nat,
{
    let start = skip_space(chars, at);
    if has_char(chars, start, ')') {
        return Some((None, start + 1));
    }
    match parse_expressions(chars, at) {
        Some((arguments, next)) => {
            proof {
                lemma_expression_views(arguments);
            }
            Some((Some(FunctionArguments { arguments }), next))
        },
        None => None,
    }
}

fn parse_expressions(chars: &Vec<char>, at: usize) -> (read: Option<(Vec<Expression>, usize)>)
    requires
        at <= chars.len(),
    ensures
        match expressions(chars@, at as int) {
            Some((value, end)) => read is Some && expression_views(value_of(read)@) == value
                && end_of(read) == end && at < end <= chars.len(),
            None => read is None,
        },
    decreases chars.len() - at, 1nat,
{
    let start = skip_space(chars, at);
    match parse_expression(chars, start) {
        None => None,
        Some((first, end)) => {
            let next = skip_space(chars, end);
            if has_char(chars, next, ')') {
                let mut items: Vec<Expression> = Vec::new();
                items.push(first);
                assert(expression_views(items@) =~= seq![expression_view(first)]);
                Some((items, next + 1))
            } else if has_char(chars, next, ',') {
                match parse_expressions(chars, next + 1) {
                    Some((rest, after)) => {
                        let mut items = rest;
                        items.insert(0, first);
                        assert(expression_views(items@) =~= seq![expression_view(first)]
                            + expression_views(rest@));
                        Some((items, after))
                    },
                    None => None,
                }
            } else {
                None
            }
        },
    }
}

fn parse_statement(chars: &Vec<char>, at: usize) -> (read: Option<(Statement, usize)>)
    ensures
        match statement(chars@, at as int) {
            Some((value, end)) => read is Some && statement_view(value_of(read)) == value
                && end_of(read) == end && at < end <= chars.len(),
            None => read is None,
        },
{
    if let Some(word) = parse_word(chars, at) {
        if is_word(chars, at, word, "return") {
            let start = skip_space(chars, word);
            return match parse_term(chars, start) {
                Some((item, end)) => {
                    let semicolon = skip_space(chars, end);
                    if has_char(chars, semicolon, ';') {
                        Some((Statement::Return(ReturnStatement { item }), semicolon + 1))
                    } else {
                        None
                    }
                },
                None => None,
            };
        }
    }
    match parse_expression(chars, at) {
        Some((expression, end)) => {
            let semicolon = skip_space(chars, end);
            if has_char(chars, semicolon, ';') {
                Some((Statement::Expression(expression), semicolon + 1))
            } else {
                Some((Statement::Expression(expression), end))
            }
        },
        None => None,
    }
}

/// Reads the statements of a block, from after its opening brace to its closing one.
fn parse_block(chars: &Vec<char>, at: usize) -> (read: Option<(Block, usize)>)
    requires
        at <= chars.len(),
    ensures
        match statements(chars@, at as int) {
            Some((value, end)) => read is Some && crate::script::ast::block_view(value_of(read))
                == value && end_of(read) == end && at <= end <= chars.len(),
            None => read is None,
        },
{
    let mut body: Vec<Statement> = Vec::new();
    let mut position: usize = at;
    loop
        invariant
            at <= position <= chars.len(),
            statements(chars@, at as int) == then(
                statement_views(body@),
                statements(chars@, position as int),
            ),
        decreases chars.len() - position,
    {
        let start = skip_space(chars, position);
        if has_char(chars, start, '}') {
            assert(statement_views(body@) + Seq::<StatementView>::empty() =~= statement_views(
                body@,
            ));
            assert(crate::script::ast::block_view(Block { statements: body }) =~= statement_views(
                body@,
            ));
            return Some((Block { statements: body }, start + 1));
        }
        match parse_statement(chars, start) {
            Some((first, end)) => {
                let ghost before = statement_views(body@);
                body.push(first);
                proof {
                    assert(statement_views(body@) =~= before + seq![statement_view(first)]);
                    match statements(chars@, end as int) {
                        Some((rest, after)) => {
                            assert(before + (seq![statement_view(first)] + rest) =~= before
                                + seq![statement_view(first)] + rest);
                        },
                        None => {},
                    }
                }
                position = end;
            },
            None => {
                return None;
            },
        }
    }
}

/// Reads the parameters of a function, from after the opening parenthesis to the
/// closing one.
#[verifier::loop_isolation(false)]
fn parse_parameters(chars: &Vec<char>, at: usize) -> (read: Option<(Option<Arguments>, usize)>)
    requires
        at <= chars.len(),
    ensures
        match parameters(chars@, at as int) {
            Some((value, end)) => read is Some && end_of(read) == end && at < end <= chars.len()
                && match value {
                Some(names) => value_of(read) is Some && crate::script::ast::parameters_view(
                    value_of(read)->0,
                ) == names,
                None => value_of(read) is None,
            },
            None => read is None,
        },
{
    let start = skip_space(chars, at);
    if has_char(chars, start, ')') {
        return Some((None, start + 1));
    }
    let mut args: Vec<Ident> = Vec::new();
    let mut position: usize = at;
    loop
        invariant
            at <= position <= chars.len(),
            names(chars@, at as int) == then(ident_views(args@), names(chars@, position as int)),
        decreases chars.len() - position,
    {
        let start = skip_space(chars, position);
        let end = match parse_word(chars, start) {
            Some(end) => end,
            None => {
                return None;
            },
        };
        let ghost before = ident_views(args@);
        let ghost name = chars@.subrange(start as int, end as int);
        args.push(Ident { ident: to_text(chars, start, end) });
        assert(ident_views(args@) =~= before + seq![name]);
        let next = skip_space(chars, end);
        if has_char(chars, next, ')') {
            assert(crate::script::ast::parameters_view(Arguments { args }) =~= ident_views(
                args@,
            ));
            return Some((Some(Arguments { args }), next + 1));
        }
        if !has_char(chars, next, ',') {
            return None;
        }
        proof {
            match names(chars@, next + 1) {
                Some((rest, after)) => {
                    assert(before + (seq![name] + rest) =~= before + seq![name] + rest);
                },
                None => {},
            }
        }
        position = next + 1;
    }
}

/// Reads a function definition, from after the word `fn`.
fn parse_function(chars: &Vec<char>, at: usize) -> (read: Option<(FunctionDef, usize)>)
    requires
        at <= chars.len(),
    ensures
        match function(chars@, at as int) {
            Some((value, end)) => read is Some && crate::script::ast::function_view(value_of(read))
                == value && end_of(read) == end && at < end <= chars.len(),
            None => read is None,
        },
{
    let start = skip_space(chars, at);
    let end = match parse_word(chars, start) {
        Some(end) => end,
        None => {
            return None;
        },
    };
    let open = skip_space(chars, end);
    if !has_char(chars, open, '(') {
        return None;
    }
    let (params, after) = match parse_parameters(chars, open + 1) {
        Some(read) => read,
        None => {
            return None;
        },
    };
    let brace = skip_space(chars, after);
    if !has_char(chars, brace, '{') {
        return None;
    }
    match parse_block(chars, brace + 1) {
        Some((body, next)) => Some(
            (FunctionDef { ident: Ident { ident: to_text(chars, start, end) }, params, body }, next),
        ),
        None => None,
    }
}

fn parse_line(chars: &Vec<char>, at: usize) -> (read: Option<(Line, usize)>)
    ensures
        match line(chars@, at as int) {
            Some((value, end)) => read is Some && crate::script::ast::line_view(value_of(read))
                == value && end_of(read) == end && at < end <= chars.len(),
            None => read is None,
        },
{
    if let Some(word) = parse_word(chars, at) {
        if is_word(chars, at, word, "fn") {
            return match parse_function(chars, word) {
                Some((function, next)) => Some((Line::FunctionDef(function), next)),
                None => None,
            };
        }
    }
    match parse_expression(chars, at) {
        Some((Expression::FunctionCall(call), next)) => Some((Line::FunctionCall(call), next)),
        Some((Expression::Term(term), next)) => Some((Line::Term(term), next)),
        None => None,
    }
}

/// What was read so far, followed by the lines that the rest of the text may hold.
pub open spec fn then_lines(read: Seq<LineView>, rest: Option<Seq<LineView>>) -> Option<
    Seq<LineView>,
> {
    match rest {
        Some(rest) => Some(read + rest),
        None => None,
    }
}

/// The message for a text that is no script.
pub open spec fn fault_message() -> Seq<char> {
    "invalid script"@
}

/// Reads a script.
pub fn parse(input: &str) -> (result: Result<Script, Error>)
    ensures
        match script(input@) {
            Some(lines) => result is Ok && script_view(result->Ok_0) == lines,
            None => result is Err && result->Err_0@ == fault_message(),
        },
{
    let chars = to_chars(input);
    let mut lines: Vec<Line> = Vec::new();
    let mut position: usize = 0;
    assert(Seq::<LineView>::empty() + self::lines(chars@, 0)->0 =~= self::lines(chars@, 0)->0);
    loop
        invariant
            position <= chars.len(),
            chars@ == input@,
            self::lines(chars@, 0) == then_lines(
                line_views(lines@),
                self::lines(chars@, position as int),
            ),
        decreases chars.len() - position,
    {
        let start = skip_space(&chars, position);
        if start >= chars.len() {
            let script = Script { program: Program { lines }, _eoi: EOI {  } };
            assert(line_views(lines@) + Seq::<LineView>::empty() =~= line_views(lines@));
            assert(script_view(script) =~= line_views(lines@));
            return Ok(script);
        }
        match parse_line(&chars, start) {
            Some((first, end)) => {
                let ghost before = line_views(lines@);
                let ghost view = crate::script::ast::line_view(first);
                lines.push(first);
                proof {
                    assert(line_views(lines@) =~= before + seq![view]);
                    match self::lines(chars@, end as int) {
                        Some(rest) => {
                            assert(before + (seq![view] + rest) =~= before + seq![view] + rest);
                        },
                        None => {},
                    }
                }
                position = end;
            },
            None => {
                return Err(String::from_str("invalid script"));
            },
        }
    }
}

} // verus!
