//! An evaluator of arithmetic expressions over non-negative integer literals
//! with `+` and `*`: a parser built from combinators, a compiler from the
//! syntax tree to a linear program, and a stack machine that runs it.
//!
//! Multiplication binds tighter than addition, operators of one level group
//! to the left, and all arithmetic is that of 64-bit signed numbers, which
//! wraps round. Whatever is wrong with a text or a program is answered as a
//! [`fault::Fault`]; nothing here panics or ends the process.
use crate::ast::{value, well_formed, Expression, ExpressionView};
use crate::combinators::any;
use crate::compiler::{code_of, lemma_code_never_halts, theorem_program_runs};
use crate::fault::Fault;
use crate::input::Input;
use crate::parser::grammar::{
    is_term, lemma_term_ends, lemma_term_levels, lemma_term_well_formed, term_in,
};
use crate::vm::emitter::Emitter;
use crate::vm::instruction::Instruction;
use crate::vm::module::Module;
use crate::vm::state::{initial, run, State};
use vstd::prelude::*;

pub mod ast;
pub mod combinators;
pub mod compiler;
pub mod fault;
pub mod input;
pub mod lexical;
pub mod parser;
pub mod vm;

verus! {

/// The tree that the grammar makes of the whole of `text`, or the fault with
/// which parsing `text` ends: an expression is required at the start and
/// behind every operator, and nothing may follow the expression.
pub open spec fn tree_of(text: Seq<char>) -> Result<ExpressionView, Fault> {
    match term_in(text, 0) {
        Err(fault) => Err(fault),
        Ok(None) => Err(Fault::GrammarViolation { position: 0 }),
        Ok(Some((tree, end))) => if end < text.len() {
            Err(Fault::TrailingInput { position: end as usize, found: text[end] })
        } else {
            Ok(tree)
        },
    }
}

/// The program of an expression: its code and a `Halt` behind it.
pub open spec fn program_of(e: ExpressionView) -> Seq<Instruction> {
    code_of(e).push(Instruction::Halt)
}

/// The outcome of a parse with the expression as a tree.
pub open spec fn parse_view(r: Result<Expression, Fault>) -> Result<ExpressionView, Fault> {
    match r {
        Ok(e) => Ok(e@),
        Err(fault) => Err(fault),
    }
}

/// The characters of `code`.
fn characters(code: &str) -> (text: Vec<char>)
    ensures
        text@ == code@,
{
    let mut text: Vec<char> = Vec::new();
    for c in it: code.chars()
        invariant
            text@ == it.seq().take(it.index() as int),
    {
        text.push(c);
    }
    text
}

/// Parses `code` as one expression.
pub fn parse(code: &str) -> (r: Result<Expression, Fault>)
    ensures
        parse_view(r) == tree_of(code@),
{
    let text = characters(code);
    let parser = crate::parser::parser();
    let start = Input::new(&text);
    proof {
        lemma_term_ends(code@, 0);
        start.lemma_tail();
    }
    match parser(start) {
        Err(fault) => Err(fault),
        Ok(None) => Err(Fault::GrammarViolation { position: 0 }),
        Ok(Some((expression, rest))) => match any(rest) {
            Some((found, _)) => Err(Fault::TrailingInput { position: rest.pos, found }),
            None => Ok(expression),
        },
    }
}

/// Compiles `expression` to its program.
pub fn compile(expression: &Expression) -> (module: Module)
    ensures
        module@ == program_of(expression@),
{
    let mut emitter = Emitter::new();
    crate::compiler::compile(expression, &mut emitter);
    emitter.emit(Instruction::Halt);
    emitter.into()
}

/// Runs `module` on a fresh machine.
pub fn exec(module: &Module) -> (r: Result<i64, Fault>)
    ensures
        r == run(module@, initial()).0,
{
    let mut state = State::new();
    state.exec(module)
}

/// The outcome of a build with the module as a sequence of instructions.
pub open spec fn build_view(r: Result<Module, Fault>) -> Result<Seq<Instruction>, Fault> {
    match r {
        Ok(module) => Ok(module@),
        Err(fault) => Err(fault),
    }
}

/// The program of `text`, or the fault with which parsing it ends.
pub open spec fn build_of(text: Seq<char>) -> Result<Seq<Instruction>, Fault> {
    match tree_of(text) {
        Ok(tree) => Ok(program_of(tree)),
        Err(fault) => Err(fault),
    }
}

/// Parses `code` and compiles the expression.
pub fn build(code: &str) -> (r: Result<Module, Fault>)
    ensures
        build_view(r) == build_of(code@),
{
    match parse(code) {
        Ok(expression) => Ok(compile(&expression)),
        Err(fault) => Err(fault),
    }
}

/// The value of the expression that `text` spells, or the fault with which
/// parsing it ends.
pub open spec fn evaluation_of(text: Seq<char>) -> Result<i64, Fault> {
    match tree_of(text) {
        Ok(tree) => Ok(value(tree)),
        Err(fault) => Err(fault),
    }
}

/// Parses, compiles and runs `code`.
pub fn evaluate(code: &str) -> (r: Result<i64, Fault>)
    ensures
        r == evaluation_of(code@),
{
    match build(code) {
        Ok(module) => {
            proof {
                theorem_program_runs(tree_of(code@)->Ok_0);
            }
            exec(&module)
        },
        Err(fault) => Err(fault),
    }
}

/// What can be evaluated as an expression.
pub trait Eval {
    /// The value of the expression, or the fault that ends its evaluation.
    fn eval(&self) -> Result<i64, Fault>;
}

impl Eval for &str {
    /// The value of the expression that this text spells.
    fn eval(&self) -> (r: Result<i64, Fault>)
        ensures
            r == evaluation_of(self@),
    {
        evaluate(self)
    }
}

/// A text that parses compiles to a program that runs to the value of its
/// expression: the three stages, one behind the other, never end in a fault
/// of the machine, whatever the operands overflow.
pub proof fn theorem_pipeline(text: Seq<char>)
    requires
        tree_of(text) is Ok,
    ensures
        build_of(text) is Ok,
        evaluation_of(text) is Ok,
        run(build_of(text)->Ok_0, initial()).0 == evaluation_of(text),
{
    theorem_program_runs(tree_of(text)->Ok_0);
}

/// A program holds one `Halt`, which is its last instruction.
pub proof fn lemma_program_halts_once(e: ExpressionView, i: int)
    requires
        0 <= i < program_of(e).len(),
    ensures
        program_of(e)[i] == Instruction::Halt <==> i == program_of(e).len() - 1,
{
    if i < code_of(e).len() {
        lemma_code_never_halts(e, i);
    }
}

/// Multiplication binds tighter than addition: the tree of a text that
/// parses is a literal, a product of literals, or a sum of such.
pub proof fn lemma_tree_levels(text: Seq<char>)
    ensures
        tree_of(text) matches Ok(tree) ==> is_term(tree),
{
    lemma_term_levels(text, 0);
}

/// The tree of a text that parses holds no empty chain.
pub proof fn lemma_tree_well_formed(text: Seq<char>)
    ensures
        tree_of(text) matches Ok(tree) ==> well_formed(tree),
{
    lemma_term_well_formed(text, 0);
}

/// Evaluation is a function of the text: two evaluations of one text end
/// alike.
pub proof fn lemma_evaluate_deterministic(
    code: &str,
    once: Result<i64, Fault>,
    again: Result<i64, Fault>,
)
    requires
        call_ensures(evaluate, (code,), once),
        call_ensures(evaluate, (code,), again),
    ensures
        once == again,
{
}

/// The three stages, run one behind the other on a text that parses, come to
/// what `evaluate` comes to on that text.
pub proof fn lemma_stages_compose(
    code: &str,
    expression: Expression,
    module: Module,
    r: Result<i64, Fault>,
)
    requires
        call_ensures(parse, (code,), Ok(expression)),
        call_ensures(compile, (&expression,), module),
        call_ensures(exec, (&module,), r),
    ensures
        r == evaluation_of(code@),
        r is Ok,
{
    theorem_program_runs(expression@);
}

/// A run is a function of the module: two runs of one module end alike.
pub proof fn lemma_exec_deterministic(
    module: &Module,
    once: Result<i64, Fault>,
    again: Result<i64, Fault>,
)
    requires
        call_ensures(exec, (module,), once),
        call_ensures(exec, (module,), again),
    ensures
        once == again,
{
}

} // verus!
