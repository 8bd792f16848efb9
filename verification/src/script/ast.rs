//! The syntax tree of a script, and the hoisting of its string literals.

use crate::text::decimal;
use crate::text::push_decimal;
use crate::text::push_text;
use crate::text::to_text;
use vstd::prelude::*;

verus! {

/// A script: its program, and the mark of the end of its text.
#[derive(Debug, PartialEq)]
pub struct Script {
    pub program: Program,
    pub _eoi: EOI,
}

/// The lines of a script.
#[derive(Debug, PartialEq)]
pub struct Program {
    pub lines: Vec<Line>,
}

/// A line at the top level of a script.
#[derive(Debug, PartialEq)]
pub enum Line {
    FunctionCall(FunctionCall),
    FunctionDef(FunctionDef),
    Term(Term),
}

/// A call of a function by its name. A call without arguments has no `params`.
#[derive(Debug, PartialEq)]
pub struct FunctionCall {
    pub ident: Ident,
    pub params: Option<FunctionArguments>,
}

/// The arguments of a call, of which there is at least one.
#[derive(Debug, PartialEq)]
pub struct FunctionArguments {
    pub arguments: Vec<Expression>,
}

/// The definition of a function. A function without parameters has no `params`.
#[derive(Debug, PartialEq)]
pub struct FunctionDef {
    pub ident: Ident,
    pub params: Option<Arguments>,
    pub body: Block,
}

/// An identifier.
#[derive(Debug, PartialEq)]
pub struct Ident {
    pub ident: String,
}

/// The parameters of a function, of which there is at least one.
#[derive(Debug, PartialEq)]
pub struct Arguments {
    pub args: Vec<Ident>,
}

/// The body of a function.
#[derive(Debug, PartialEq)]
pub struct Block {
    pub statements: Vec<Statement>,
}

/// A statement of a function body.
#[derive(Debug, PartialEq)]
pub enum Statement {
    Return(ReturnStatement),
    Expression(Expression),
}

/// An expression: a term or a call.
#[derive(Debug, PartialEq)]
pub enum Expression {
    Term(Term),
    FunctionCall(FunctionCall),
}

/// A statement that returns the value of a term.
#[derive(Debug, PartialEq)]
pub struct ReturnStatement {
    pub item: Term,
}

/// A term: an identifier, an unsigned integer, a string literal, or the reference to
/// hoisted data.
#[derive(Debug, PartialEq)]
pub enum Term {
    Ident(Ident),
    Number(Integer),
    String(StringLiteral),
    /// A reference to hoisted data. No script text gives one: hoisting puts it where a
    /// string literal stood.
    PointerRef(PointerRef),
}

/// The label of hoisted data.
#[derive(Debug, PartialEq)]
pub struct PointerRef {
    pub ident: String,
}

/// An unsigned integer.
#[derive(Debug, PartialEq, Clone, Copy)]
pub struct Integer {
    pub value: u64,
}

/// What stands between the quotes of a string literal.
#[derive(Debug, PartialEq)]
pub struct StringLiteral {
    pub value: String,
}

/// The mark of the end of the text of a script.
#[derive(Debug, PartialEq, Clone, Copy)]
pub struct EOI {}

/// The mathematical value of a [`Term`].
pub ghost enum TermView {
    Ident(Seq<char>),
    Number(u64),
    Text(Seq<char>),
    PointerRef(Seq<char>),
}

/// The mathematical value of a [`FunctionCall`].
pub ghost struct CallView {
    pub name: Seq<char>,
    pub arguments: Option<Seq<ExpressionView>>,
}

/// The mathematical value of an [`Expression`].
pub ghost enum ExpressionView {
    Term(TermView),
    Call(CallView),
}

/// The mathematical value of a [`Statement`].
pub ghost enum StatementView {
    Return(TermView),
    Expression(ExpressionView),
}

/// The mathematical value of a [`FunctionDef`].
pub ghost struct FunctionView {
    pub name: Seq<char>,
    pub parameters: Option<Seq<Seq<char>>>,
    pub body: Seq<StatementView>,
}

/// The mathematical value of a [`Line`].
pub ghost enum LineView {
    Call(CallView),
    Function(FunctionView),
    Term(TermView),
}

/// The mathematical value of a term.
pub open spec fn term_view(term: Term) -> TermView {
    match term {
        Term::Ident(ident) => TermView::Ident(ident.ident@),
        Term::Number(number) => TermView::Number(number.value),
        Term::String(literal) => TermView::Text(literal.value@),
        Term::PointerRef(pointer) => TermView::PointerRef(pointer.ident@),
    }
}

/// The mathematical value of an expression.
pub open spec fn expression_view(expression: Expression) -> ExpressionView
    decreases expression,
{
    match expression {
        Expression::Term(term) => ExpressionView::Term(term_view(term)),
        Expression::FunctionCall(call) => ExpressionView::Call(call_view(call)),
    }
}

/// The mathematical value of a call.
pub open spec fn call_view(call: FunctionCall) -> CallView
    decreases call,
{
    CallView {
        name: call.ident.ident@,
        arguments: match call.params {
            Some(arguments) => Some(arguments_view(arguments)),
            None => None,
        },
    }
}

/// The mathematical values of the arguments of a call.
pub open spec fn arguments_view(arguments: FunctionArguments) -> Seq<ExpressionView>
    decreases arguments,
{
    expressions_view(arguments.arguments, arguments.arguments.len() as nat)
}

/// The values of the first `count` expressions.
pub open spec fn expressions_view(expressions: Vec<Expression>, count: nat) -> Seq<ExpressionView>
    decreases expressions, count,
{
    if count == 0 || count > expressions.len() {
        Seq::empty()
    } else {
        expressions_view(expressions, (count - 1) as nat).push(
            expression_view(expressions[count - 1]),
        )
    }
}

/// The mathematical value of a statement.
pub open spec fn statement_view(statement: Statement) -> StatementView {
    match statement {
        Statement::Return(statement) => StatementView::Return(term_view(statement.item)),
        Statement::Expression(expression) => StatementView::Expression(
            expression_view(expression),
        ),
    }
}

/// The mathematical values of the statements of a block.
pub open spec fn block_view(block: Block) -> Seq<StatementView> {
    Seq::new(block.statements.len() as nat, |i: int| statement_view(block.statements[i]))
}

/// The names of the parameters of a function.
pub open spec fn parameters_view(parameters: Arguments) -> Seq<Seq<char>> {
    Seq::new(parameters.args.len() as nat, |i: int| parameters.args[i].ident@)
}

/// The mathematical value of the definition of a function.
pub open spec fn function_view(function: FunctionDef) -> FunctionView {
    FunctionView {
        name: function.ident.ident@,
        parameters: match function.params {
            Some(parameters) => Some(parameters_view(parameters)),
            None => None,
        },
        body: block_view(function.body),
    }
}

/// The mathematical value of a line.
pub open spec fn line_view(line: Line) -> LineView {
    match line {
        Line::FunctionCall(call) => LineView::Call(call_view(call)),
        Line::FunctionDef(function) => LineView::Function(function_view(function)),
        Line::Term(term) => LineView::Term(term_view(term)),
    }
}

/// The mathematical values of the lines of a program.
pub open spec fn lines_view(program: Program) -> Seq<LineView> {
    Seq::new(program.lines.len() as nat, |i: int| line_view(program.lines[i]))
}

/// The mathematical value of a [`Script`]: its lines.
pub open spec fn script_view(script: Script) -> Seq<LineView> {
    lines_view(script.program)
}

/// The values of expressions are those of each, in order.
pub proof fn lemma_expressions_view(expressions: Vec<Expression>, count: nat)
    requires
        count <= expressions.len(),
    ensures
        expressions_view(expressions, count).len() == count,
        forall|i: int|
            0 <= i < count ==> #[trigger] expressions_view(expressions, count)[i]
                == expression_view(expressions[i]),
    decreases count,
{
    if count > 0 {
        lemma_expressions_view(expressions, (count - 1) as nat);
    }
}

/// The string literals of a term, which holds at most one.
pub open spec fn term_strings(term: TermView) -> Seq<Seq<char>> {
    match term {
        TermView::Text(value) => seq![value],
        _ => Seq::empty(),
    }
}

/// The string literals of an expression, in the order in which they stand.
pub open spec fn expression_strings(expression: ExpressionView) -> Seq<Seq<char>>
    decreases expression,
{
    match expression {
        ExpressionView::Term(term) => term_strings(term),
        ExpressionView::Call(call) => call_strings(call),
    }
}

/// The string literals among the arguments of a call.
pub open spec fn call_strings(call: CallView) -> Seq<Seq<char>>
    decreases call,
{
    match call.arguments {
        Some(arguments) => expressions_strings(arguments),
        None => Seq::empty(),
    }
}

/// The string literals of expressions, those of the first expression first.
pub open spec fn expressions_strings(expressions: Seq<ExpressionView>) -> Seq<Seq<char>>
    decreases expressions,
{
    if expressions.len() == 0 {
        Seq::empty()
    } else {
        expressions_strings(expressions.drop_last()) + expression_strings(expressions.last())
    }
}

/// The string literals of a statement.
pub open spec fn statement_strings(statement: StatementView) -> Seq<Seq<char>> {
    match statement {
        StatementView::Return(term) => term_strings(term),
        StatementView::Expression(expression) => expression_strings(expression),
    }
}

/// The string literals of a block, those of the first statement first.
pub open spec fn block_strings(block: Seq<StatementView>) -> Seq<Seq<char>>
    decreases block.len(),
{
    if block.len() == 0 {
        Seq::empty()
    } else {
        block_strings(block.drop_last()) + statement_strings(block.last())
    }
}

/// The label of a hoisted string literal: the name of its function, an underscore and
/// the position of the literal among those of the function.
pub open spec fn literal_key(name: Seq<char>, index: nat) -> Seq<char> {
    name + "_"@ + decimal(index)
}

/// String literals with their labels, the first of them at position `start`.
pub open spec fn keyed(values: Seq<Seq<char>>, name: Seq<char>, start: nat) -> Seq<
    (Seq<char>, Seq<char>),
> {
    Seq::new(values.len(), |i: int| (literal_key(name, (start + i) as nat), values[i]))
}

/// A term after hoisting: a reference to the data where a string literal stood.
pub open spec fn hoisted_term(term: TermView, name: Seq<char>, start: nat) -> TermView {
    match term {
        TermView::Text(_) => TermView::PointerRef(literal_key(name, start)),
        _ => term,
    }
}

/// An expression after hoisting, with `start` string literals hoisted before it.
pub open spec fn hoisted_expression(
    expression: ExpressionView,
    name: Seq<char>,
    start: nat,
) -> ExpressionView
    decreases expression,
{
    match expression {
        ExpressionView::Term(term) => ExpressionView::Term(hoisted_term(term, name, start)),
        ExpressionView::Call(call) => ExpressionView::Call(hoisted_call(call, name, start)),
    }
}

/// A call after hoisting, with `start` string literals hoisted before it.
pub open spec fn hoisted_call(call: CallView, name: Seq<char>, start: nat) -> CallView
    decreases call,
{
    CallView {
        name: call.name,
        arguments: match call.arguments {
            Some(arguments) => Some(hoisted_expressions(arguments, name, start)),
            None => None,
        },
    }
}

/// Expressions after hoisting, with `start` string literals hoisted before them.
pub open spec fn hoisted_expressions(
    expressions: Seq<ExpressionView>,
    name: Seq<char>,
    start: nat,
) -> Seq<ExpressionView>
    decreases expressions,
{
    if expressions.len() == 0 {
        Seq::empty()
    } else {
        hoisted_expressions(expressions.drop_last(), name, start).push(
            hoisted_expression(
                expressions.last(),
                name,
                start + expressions_strings(expressions.drop_last()).len(),
            ),
        )
    }
}

/// A statement after hoisting, with `start` string literals hoisted before it.
pub open spec fn hoisted_statement(
    statement: StatementView,
    name: Seq<char>,
    start: nat,
) -> StatementView {
    match statement {
        StatementView::Return(term) => StatementView::Return(hoisted_term(term, name, start)),
        StatementView::Expression(expression) => StatementView::Expression(
            hoisted_expression(expression, name, start),
        ),
    }
}

/// A block after hoisting, with `start` string literals hoisted before it.
pub open spec fn hoisted_block(block: Seq<StatementView>, name: Seq<char>, start: nat) -> Seq<
    StatementView,
>
    decreases block.len(),
{
    if block.len() == 0 {
        Seq::empty()
    } else {
        hoisted_block(block.drop_last(), name, start).push(
            hoisted_statement(
                block.last(),
                name,
                start + block_strings(block.drop_last()).len(),
            ),
        )
    }
}

/// The texts of a list of labelled string literals.
pub open spec fn pairs_view(list: Seq<(String, String)>) -> Seq<(Seq<char>, Seq<char>)> {
    Seq::new(list.len(), |i: int| (list[i].0@, list[i].1@))
}

/// The label of the string literal at position `index` of the function `name`.
pub fn make_key(name: &str, index: usize) -> (key: String)
    ensures
        key@ == literal_key(name@, index as nat),
{
    let mut buffer: Vec<char> = Vec::new();
    push_text(&mut buffer, name);
    push_text(&mut buffer, "_");
    push_decimal(&mut buffer, index as u64);
    assert(buffer@.subrange(0, buffer.len() as int) == buffer@);
    to_text(&buffer, 0, buffer.len())
}

impl Clone for Ident {
    fn clone(&self) -> (copy: Self)
        ensures
            copy.ident@ == self.ident@,
    {
        Ident { ident: self.ident.clone() }
    }
}

impl Clone for PointerRef {
    fn clone(&self) -> (copy: Self)
        ensures
            copy.ident@ == self.ident@,
    {
        PointerRef { ident: self.ident.clone() }
    }
}

impl Clone for StringLiteral {
    fn clone(&self) -> (copy: Self)
        ensures
            copy.value@ == self.value@,
    {
        StringLiteral { value: self.value.clone() }
    }
}

impl Clone for Term {
    fn clone(&self) -> (copy: Self)
        ensures
            term_view(copy) == term_view(*self),
    {
        match self {
            Term::Ident(ident) => Term::Ident(ident.clone()),
            Term::Number(number) => Term::Number(*number),
            Term::String(literal) => Term::String(literal.clone()),
            Term::PointerRef(pointer) => Term::PointerRef(pointer.clone()),
        }
    }
}

impl Clone for ReturnStatement {
    fn clone(&self) -> (copy: Self)
        ensures
            term_view(copy.item) == term_view(self.item),
    {
        ReturnStatement { item: self.item.clone() }
    }
}

fn copy_expression(expression: &Expression) -> (copy: Expression)
    ensures
        expression_view(copy) == expression_view(*expression),
    decreases expression,
{
    match expression {
        Expression::Term(term) => Expression::Term(term.clone()),
        Expression::FunctionCall(call) => Expression::FunctionCall(copy_call(call)),
    }
}

fn copy_call(call: &FunctionCall) -> (copy: FunctionCall)
    ensures
        call_view(copy) == call_view(*call),
    decreases call,
{
    FunctionCall {
        ident: call.ident.clone(),
        params: match &call.params {
            Some(arguments) => Some(copy_arguments(arguments)),
            None => None,
        },
    }
}

fn copy_arguments(arguments: &FunctionArguments) -> (copy: FunctionArguments)
    ensures
        arguments_view(copy) == arguments_view(*arguments),
    decreases arguments,
{
    let mut copies: Vec<Expression> = Vec::new();
    let mut i: usize = 0;
    while i < arguments.arguments.len()
        invariant
            i <= arguments.arguments.len(),
            copies.len() == i,
            expressions_view(copies, i as nat) == expressions_view(
                arguments.arguments,
                i as nat,
            ),
        decreases arguments.arguments.len() - i,
    {
        let ghost before = copies;
        copies.push(copy_expression(&arguments.arguments[i]));
        proof {
            lemma_expressions_agree(copies, before, i as nat);
        }
        i = i + 1;
    }
    FunctionArguments { arguments: copies }
}

impl Clone for Expression {
    fn clone(&self) -> (copy: Self)
        ensures
            expression_view(copy) == expression_view(*self),
    {
        copy_expression(self)
    }
}

impl Clone for FunctionCall {
    fn clone(&self) -> (copy: Self)
        ensures
            call_view(copy) == call_view(*self),
    {
        copy_call(self)
    }
}

impl Clone for FunctionArguments {
    fn clone(&self) -> (copy: Self)
        ensures
            arguments_view(copy) == arguments_view(*self),
    {
        copy_arguments(self)
    }
}

impl Clone for Statement {
    fn clone(&self) -> (copy: Self)
        ensures
            statement_view(copy) == statement_view(*self),
    {
        match self {
            Statement::Return(statement) => Statement::Return(statement.clone()),
            Statement::Expression(expression) => Statement::Expression(expression.clone()),
        }
    }
}

impl Clone for Block {
    fn clone(&self) -> (copy: Self)
        ensures
            block_view(copy) == block_view(*self),
    {
        let mut statements: Vec<Statement> = Vec::new();
        let mut i: usize = 0;
        while i < self.statements.len()
            invariant
                i <= self.statements.len(),
                statements.len() == i,
                forall|j: int|
                    0 <= j < i ==> statement_view(statements[j]) == statement_view(
                        self.statements[j],
                    ),
            decreases self.statements.len() - i,
        {
            statements.push(self.statements[i].clone());
            i = i + 1;
        }
        let copy = Block { statements };
        assert(block_view(copy) =~= block_view(*self));
        copy
    }
}

impl Clone for Arguments {
    fn clone(&self) -> (copy: Self)
        ensures
            parameters_view(copy) == parameters_view(*self),
    {
        let mut args: Vec<Ident> = Vec::new();
        let mut i: usize = 0;
        while i < self.args.len()
            invariant
                i <= self.args.len(),
                args.len() == i,
                forall|j: int| 0 <= j < i ==> args[j].ident@ == self.args[j].ident@,
            decreases self.args.len() - i,
        {
            args.push(self.args[i].clone());
            i = i + 1;
        }
        let copy = Arguments { args };
        assert(parameters_view(copy) =~= parameters_view(*self));
        copy
    }
}

impl Clone for FunctionDef {
    fn clone(&self) -> (copy: Self)
        ensures
            function_view(copy) == function_view(*self),
    {
        FunctionDef {
            ident: self.ident.clone(),
            params: match &self.params {
                Some(parameters) => Some(parameters.clone()),
                None => None,
            },
            body: self.body.clone(),
        }
    }
}

impl Clone for Line {
    fn clone(&self) -> (copy: Self)
        ensures
            line_view(copy) == line_view(*self),
    {
        match self {
            Line::FunctionCall(call) => Line::FunctionCall(call.clone()),
            Line::FunctionDef(function) => Line::FunctionDef(function.clone()),
            Line::Term(term) => Line::Term(term.clone()),
        }
    }
}

impl Clone for Program {
    fn clone(&self) -> (copy: Self)
        ensures
            lines_view(copy) == lines_view(*self),
    {
        let mut lines: Vec<Line> = Vec::new();
        let mut i: usize = 0;
        while i < self.lines.len()
            invariant
                i <= self.lines.len(),
                lines.len() == i,
                forall|j: int| 0 <= j < i ==> line_view(lines[j]) == line_view(self.lines[j]),
            decreases self.lines.len() - i,
        {
            lines.push(self.lines[i].clone());
            i = i + 1;
        }
        let copy = Program { lines };
        assert(lines_view(copy) =~= lines_view(*self));
        copy
    }
}

impl Clone for Script {
    fn clone(&self) -> (copy: Self)
        ensures
            script_view(copy) == script_view(*self),
    {
        Script { program: self.program.clone(), _eoi: self._eoi }
    }
}

/// The string literals that stand in a term: the term itself where it is one.
pub open spec fn term_literals(term: &Term) -> Seq<&Term> {
    if *term is String {
        seq![term]
    } else {
        Seq::empty()
    }
}

/// The string literals that stand in an expression, in the order in which they stand.
pub open spec fn expression_literals(expression: &Expression) -> Seq<&Term>
    decreases expression,
{
    match expression {
        Expression::Term(term) => term_literals(term),
        Expression::FunctionCall(call) => call_literals(call),
    }
}

/// The string literals that stand among the arguments of a call.
pub open spec fn call_literals(call: &FunctionCall) -> Seq<&Term>
    decreases call,
{
    match &call.params {
        Some(arguments) => arguments_literals(arguments),
        None => Seq::empty(),
    }
}

/// The string literals that stand in the arguments of a call.
pub open spec fn arguments_literals(arguments: &FunctionArguments) -> Seq<&Term>
    decreases arguments,
{
    expressions_literals(&arguments.arguments, arguments.arguments.len() as nat)
}

/// The string literals that stand in the first `count` expressions.
pub open spec fn expressions_literals(expressions: &Vec<Expression>, count: nat) -> Seq<&Term>
    decreases expressions, count,
{
    if count == 0 || count > expressions.len() {
        Seq::empty()
    } else {
        expressions_literals(expressions, (count - 1) as nat) + expression_literals(
            &expressions[count - 1],
        )
    }
}

/// The string literals that stand in a statement.
pub open spec fn statement_literals(statement: &Statement) -> Seq<&Term> {
    match statement {
        Statement::Return(statement) => term_literals(&statement.item),
        Statement::Expression(expression) => expression_literals(expression),
    }
}

/// The string literals that stand in the first `count` statements of a block.
pub open spec fn block_literals(block: &Block, count: nat) -> Seq<&Term>
    decreases count,
{
    if count == 0 || count > block.statements.len() {
        Seq::empty()
    } else {
        block_literals(block, (count - 1) as nat) + statement_literals(
            &block.statements[count - 1],
        )
    }
}

/// Whether every term of a list is a string literal.
pub open spec fn all_strings(list: Seq<&Term>) -> bool {
    forall|i: int| 0 <= i < list.len() ==> *(#[trigger] list[i]) is String
}

/// The texts of a list of string literals.
pub open spec fn texts(list: Seq<&Term>) -> Seq<Seq<char>> {
    Seq::new(list.len(), |i: int| term_strings(term_view(*list[i]))[0])
}

/// Whether a list holds string literals only, and their texts are the given ones.
pub open spec fn lists(list: Seq<&Term>, strings: Seq<Seq<char>>) -> bool {
    all_strings(list) && texts(list) == strings
}

/// Two lists of string literals, one after the other, list the texts of both.
pub proof fn lemma_lists_add(
    first: Seq<&Term>,
    second: Seq<&Term>,
    texts_first: Seq<Seq<char>>,
    texts_second: Seq<Seq<char>>,
)
    requires
        lists(first, texts_first),
        lists(second, texts_second),
    ensures
        lists(first + second, texts_first + texts_second),
{
    assert(texts(first + second) =~= texts_first + texts_second);
}

/// The string literals that stand in a term are those of its value.
pub proof fn lemma_term_literals(term: &Term)
    ensures
        lists(term_literals(term), term_strings(term_view(*term))),
{
    assert(texts(term_literals(term)) =~= term_strings(term_view(*term)));
}

/// The string literals that stand in an expression are those of its value.
pub proof fn lemma_expression_literals(expression: &Expression)
    ensures
        lists(expression_literals(expression), expression_strings(expression_view(*expression))),
    decreases expression,
{
    match expression {
        Expression::Term(term) => {
            lemma_term_literals(term);
        },
        Expression::FunctionCall(call) => {
            lemma_call_literals(call);
        },
    }
}

/// The string literals that stand among the arguments of a call are those of its value.
pub proof fn lemma_call_literals(call: &FunctionCall)
    ensures
        lists(call_literals(call), call_strings(call_view(*call))),
    decreases call,
{
    match &call.params {
        Some(arguments) => {
            lemma_expressions_literals(
                &arguments.arguments,
                arguments.arguments.len() as nat,
            );
        },
        None => {
            assert(texts(Seq::<&Term>::empty()) =~= Seq::<Seq<char>>::empty());
        },
    }
}

/// The string literals that stand in expressions are those of their values.
pub proof fn lemma_expressions_literals(expressions: &Vec<Expression>, count: nat)
    requires
        count <= expressions.len(),
    ensures
        lists(
            expressions_literals(expressions, count),
            expressions_strings(expressions_view(*expressions, count)),
        ),
    decreases expressions, count,
{
    if count == 0 {
        assert(texts(Seq::<&Term>::empty()) =~= Seq::<Seq<char>>::empty());
    } else {
        let before = (count - 1) as nat;
        lemma_expressions_literals(expressions, before);
        lemma_expression_literals(&expressions[count - 1]);
        let views = expressions_view(*expressions, count);
        assert(views.drop_last() =~= expressions_view(*expressions, before));
        assert(views.last() == expression_view(expressions[count - 1]));
        lemma_lists_add(
            expressions_literals(expressions, before),
            expression_literals(&expressions[count - 1]),
            expressions_strings(expressions_view(*expressions, before)),
            expression_strings(expression_view(expressions[count - 1])),
        );
    }
}

/// The string literals that stand in a statement are those of its value.
pub proof fn lemma_statement_literals(statement: &Statement)
    ensures
        lists(statement_literals(statement), statement_strings(statement_view(*statement))),
{
    match statement {
        Statement::Return(statement) => {
            lemma_term_literals(&statement.item);
        },
        Statement::Expression(expression) => {
            lemma_expression_literals(expression);
        },
    }
}

/// The string literals that stand in a block are those of its value.
pub proof fn lemma_block_literals(block: &Block, count: nat)
    requires
        count <= block.statements.len(),
    ensures
        lists(block_literals(block, count), block_strings(block_view(*block).take(count as int))),
    decreases count,
{
    if count == 0 {
        assert(texts(Seq::<&Term>::empty()) =~= Seq::<Seq<char>>::empty());
        assert(block_view(*block).take(0) =~= Seq::<StatementView>::empty());
    } else {
        let before = (count - 1) as nat;
        lemma_block_literals(block, before);
        lemma_statement_literals(&block.statements[count - 1]);
        let views = block_view(*block).take(count as int);
        assert(views.drop_last() =~= block_view(*block).take(before as int));
        assert(views.last() == statement_view(block.statements[count - 1]));
        lemma_lists_add(
            block_literals(block, before),
            statement_literals(&block.statements[count - 1]),
            block_strings(block_view(*block).take(before as int)),
            statement_strings(statement_view(block.statements[count - 1])),
        );
    }
}

impl Term {
    /// Lists the string literal that the term may be.
    pub fn add_heap_values<'a>(&'a self, list: &mut Vec<&'a Term>)
        ensures
            final(list)@ == old(list)@ + term_literals(self),
    {
        match self {
            Term::String(_) => {
                list.push(self);
                assert(list@ =~= old(list)@ + term_literals(self));
            },
            _ => {
                assert(list@ =~= old(list)@ + term_literals(self));
            },
        }
    }

    /// Hoists the string literal that the term may be: puts the reference to the data
    /// with the label of position `start` in its place. Returns the position of the next
    /// string literal.
    pub fn hoist(&mut self, name: &str, start: usize) -> (next: usize)
        requires
            start + term_strings(term_view(*old(self))).len() <= usize::MAX,
        ensures
            term_view(*final(self)) == hoisted_term(term_view(*old(self)), name@, start as nat),
            next == start + term_strings(term_view(*old(self))).len(),
    {
        let found = match self {
            Term::String(_) => true,
            _ => false,
        };
        if found {
            *self = Term::PointerRef(PointerRef { ident: make_key(name, start) });
            start + 1
        } else {
            start
        }
    }
}

/// Expressions that are the same up to `count` have the same values up to there.
pub proof fn lemma_expressions_agree(first: Vec<Expression>, second: Vec<Expression>, count: nat)
    requires
        count <= first.len(),
        count <= second.len(),
        forall|i: int| 0 <= i < count ==> first[i] == second[i],
    ensures
        expressions_view(first, count) == expressions_view(second, count),
{
    lemma_expressions_view(first, count);
    lemma_expressions_view(second, count);
    assert(expressions_view(first, count) =~= expressions_view(second, count));
}

/// The string literals of expressions are those of all but the last, and those of the
/// last.
pub proof fn lemma_expressions_strings(expressions: Seq<ExpressionView>, count: int)
    requires
        0 <= count <= expressions.len(),
    ensures
        expressions_strings(expressions.take(count)).len() <= expressions_strings(
            expressions,
        ).len(),
    decreases expressions.len(),
{
    if count < expressions.len() {
        lemma_expressions_strings(expressions.drop_last(), count);
        assert(expressions.drop_last().take(count) == expressions.take(count));
    } else {
        assert(expressions.take(count) == expressions);
    }
}

/// The string literals of a block are those of all but the last statement, and those of
/// the last.
pub proof fn lemma_block_strings(block: Seq<StatementView>, count: int)
    requires
        0 <= count <= block.len(),
    ensures
        block_strings(block.take(count)).len() <= block_strings(block).len(),
    decreases block.len(),
{
    if count < block.len() {
        lemma_block_strings(block.drop_last(), count);
        assert(block.drop_last().take(count) == block.take(count));
    } else {
        assert(block.take(count) == block);
    }
}

impl Expression {
    /// Lists the string literals of the expression.
    pub fn add_heap_values<'a>(&'a self, list: &mut Vec<&'a Term>)
        ensures
            final(list)@ == old(list)@ + expression_literals(self),
        decreases self,
    {
        match self {
            Expression::Term(term) => term.add_heap_values(list),
            Expression::FunctionCall(function_call) => function_call.add_heap_values(list),
        }
    }

    /// Hoists the string literals of the expression, the first of them to position
    /// `start`. Returns the position of the next string literal.
    pub fn hoist(&mut self, name: &str, start: usize) -> (next: usize)
        requires
            start + expression_strings(expression_view(*old(self))).len() <= usize::MAX,
        ensures
            expression_view(*final(self)) == hoisted_expression(
                expression_view(*old(self)),
                name@,
                start as nat,
            ),
            next == start + expression_strings(expression_view(*old(self))).len(),
        decreases *old(self),
    {
        match self {
            Expression::Term(term) => term.hoist(name, start),
            Expression::FunctionCall(function_call) => function_call.hoist(name, start),
        }
    }
}

impl FunctionCall {
    /// Lists the string literals among the arguments of the call.
    pub fn add_heap_values<'a>(&'a self, list: &mut Vec<&'a Term>)
        ensures
            final(list)@ == old(list)@ + call_literals(self),
        decreases self,
    {
        match &self.params {
            Some(x) => {
                x.add_heap_values(list);
            },
            None => {
                assert(list@ =~= old(list)@ + call_literals(self));
            },
        }
    }

    /// Hoists the string literals among the arguments of the call, the first of them to
    /// position `start`. Returns the position of the next string literal.
    pub fn hoist(&mut self, name: &str, start: usize) -> (next: usize)
        requires
            start + call_strings(call_view(*old(self))).len() <= usize::MAX,
        ensures
            call_view(*final(self)) == hoisted_call(call_view(*old(self)), name@, start as nat),
            next == start + call_strings(call_view(*old(self))).len(),
        decreases *old(self),
    {
        match &mut self.params {
            Some(x) => x.hoist(name, start),
            None => start,
        }
    }
}

impl FunctionArguments {
    /// Lists the string literals of the arguments, one argument after the other.
    pub fn add_heap_values<'a>(&'a self, list: &mut Vec<&'a Term>)
        ensures
            final(list)@ == old(list)@ + arguments_literals(self),
        decreases self,
    {
        let mut i: usize = 0;
        assert(list@ =~= old(list)@ + expressions_literals(&self.arguments, 0));
        while i < self.arguments.len()
            invariant
                i <= self.arguments.len(),
                list@ == old(list)@ + expressions_literals(&self.arguments, i as nat),
            decreases self.arguments.len() - i,
        {
            let ghost listed = expressions_literals(&self.arguments, i as nat);
            self.arguments[i].add_heap_values(list);
            assert(old(list)@ + listed + expression_literals(&self.arguments[i as int]) =~= old(
                list,
            )@ + (listed + expression_literals(&self.arguments[i as int])));
            i = i + 1;
        }
    }

    /// Hoists the string literals of the arguments, one argument after the other, the
    /// first of them to position `start`. Returns the position of the next string
    /// literal.
    pub fn hoist(&mut self, name: &str, start: usize) -> (next: usize)
        requires
            start + expressions_strings(arguments_view(*old(self))).len() <= usize::MAX,
        ensures
            arguments_view(*final(self)) == hoisted_expressions(
                arguments_view(*old(self)),
                name@,
                start as nat,
            ),
            next == start + expressions_strings(arguments_view(*old(self))).len(),
        decreases *old(self),
    {
        let ghost given = old(self).arguments;
        let ghost views = arguments_view(*old(self));
        let mut next: usize = start;
        let mut i: usize = 0;
        proof {
            lemma_expressions_view(given, given.len() as nat);
        }
        while i < self.arguments.len()
            invariant
                i <= self.arguments.len(),
                self.arguments.len() == given.len(),
                given == old(self).arguments,
                views == expressions_view(given, given.len() as nat),
                views.len() == given.len(),
                start + expressions_strings(views).len() <= usize::MAX,
                forall|j: int| i <= j < given.len() ==> self.arguments[j] == given[j],
                expressions_view(given, i as nat) == views.take(i as int),
                expressions_view(self.arguments, i as nat) == hoisted_expressions(
                    views.take(i as int),
                    name@,
                    start as nat,
                ),
                next == start + expressions_strings(views.take(i as int)).len(),
            decreases self.arguments.len() - i,
        {
            let ghost before = self.arguments;
            let ghost done = views.take(i as int);
            assert(self.arguments[i as int] == given[i as int]);
            proof {
                lemma_expressions_view(given, given.len() as nat);
                lemma_expressions_view(given, (i + 1) as nat);
                let longer = views.take(i + 1);
                assert(longer.drop_last() == done);
                assert(longer.last() == expression_view(given[i as int]));
                assert(expressions_view(given, (i + 1) as nat) =~= longer);
                lemma_expressions_strings(views, i + 1);
            }
            next = self.arguments[i].hoist(name, next);
            proof {
                lemma_expressions_agree(self.arguments, before, i as nat);
            }
            i = i + 1;
        }
        assert(views.take(i as int) == views);
        next
    }
}

impl Statement {
    /// Lists the string literals of the statement.
    pub fn add_heap_values<'a>(&'a self, list: &mut Vec<&'a Term>)
        ensures
            final(list)@ == old(list)@ + statement_literals(self),
    {
        match self {
            Statement::Return(statement) => statement.item.add_heap_values(list),
            Statement::Expression(ex) => ex.add_heap_values(list),
        }
    }

    /// Hoists the string literals of the statement, the first of them to position
    /// `start`. Returns the position of the next string literal.
    pub fn hoist(&mut self, name: &str, start: usize) -> (next: usize)
        requires
            start + statement_strings(statement_view(*old(self))).len() <= usize::MAX,
        ensures
            statement_view(*final(self)) == hoisted_statement(
                statement_view(*old(self)),
                name@,
                start as nat,
            ),
            next == start + statement_strings(statement_view(*old(self))).len(),
    {
        match self {
            Statement::Return(statement) => statement.item.hoist(name, start),
            Statement::Expression(ex) => ex.hoist(name, start),
        }
    }
}

impl Block {
    /// Lists the string literals of the block, one statement after the other.
    pub fn add_heap_values<'a>(&'a self, list: &mut Vec<&'a Term>)
        ensures
            final(list)@ == old(list)@ + block_literals(self, self.statements.len() as nat),
    {
        let mut i: usize = 0;
        assert(list@ =~= old(list)@ + block_literals(self, 0));
        while i < self.statements.len()
            invariant
                i <= self.statements.len(),
                list@ == old(list)@ + block_literals(self, i as nat),
            decreases self.statements.len() - i,
        {
            let ghost listed = block_literals(self, i as nat);
            self.statements[i].add_heap_values(list);
            assert(old(list)@ + listed + statement_literals(&self.statements[i as int]) =~= old(
                list,
            )@ + (listed + statement_literals(&self.statements[i as int])));
            i = i + 1;
        }
    }

    /// Hoists the string literals of the block, one statement after the other, the first
    /// of them to position `start`. Returns the position of the next string literal.
    pub fn hoist(&mut self, name: &str, start: usize) -> (next: usize)
        requires
            start + block_strings(block_view(*old(self))).len() <= usize::MAX,
        ensures
            block_view(*final(self)) == hoisted_block(
                block_view(*old(self)),
                name@,
                start as nat,
            ),
            next == start + block_strings(block_view(*old(self))).len(),
    {
        let ghost given = block_view(*old(self));
        let mut next: usize = start;
        let mut i: usize = 0;
        assert(block_view(*self).take(0) =~= hoisted_block(given.take(0), name@, start as nat));
        while i < self.statements.len()
            invariant
                i <= self.statements.len(),
                self.statements.len() == given.len(),
                given == block_view(*old(self)),
                start + block_strings(given).len() <= usize::MAX,
                forall|j: int| i <= j < given.len() ==> statement_view(self.statements[j]) == given[j],
                block_view(*self).take(i as int) == hoisted_block(
                    given.take(i as int),
                    name@,
                    start as nat,
                ),
                next == start + block_strings(given.take(i as int)).len(),
            decreases self.statements.len() - i,
        {
            let ghost before = block_view(*self);
            let ghost done = given.take(i as int);
            proof {
                let longer = given.take(i + 1);
                assert(longer.drop_last() == done);
                assert(longer.last() == given[i as int]);
                lemma_block_strings(given, i + 1);
            }
            next = self.statements[i].hoist(name, next);
            proof {
                assert(block_view(*self).take(i + 1) =~= before.take(i as int).push(
                    statement_view(self.statements[i as int]),
                ));
            }
            i = i + 1;
        }
        assert(block_view(*self).take(i as int) == block_view(*self));
        assert(given.take(i as int) == given);
        next
    }
}

} // verus!
