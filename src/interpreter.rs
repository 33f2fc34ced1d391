use vstd::prelude::*;
use crate::evaluator::{eval, eval_program, initial_scopes};
use crate::ast::Node;
use crate::environment::Scopes;
use crate::lexer::Lexer;
use crate::object::{EvalError, Object, SpecEvalError, SpecValue};
use crate::parser::{parse_source, ParseError, Parser, SpecParseError};

verus! {

/// Why a source text produced no value: it did not parse, or evaluating it failed.
#[derive(Debug, PartialEq)]
pub enum InterpretError {
    Parse(ParseError),
    Eval(EvalError),
}

/// The model of an `InterpretError`.
pub enum SpecInterpretError {
    Parse(SpecParseError),
    Eval(SpecEvalError),
}

pub open spec fn interpret_view(r: Result<Object, InterpretError>) -> Result<
    SpecValue,
    SpecInterpretError,
> {
    match r {
        Ok(v) => Ok(v@),
        Err(InterpretError::Parse(e)) => Err(SpecInterpretError::Parse(e@)),
        Err(InterpretError::Eval(e)) => Err(SpecInterpretError::Eval(e@)),
    }
}

/// The value of a source text, run from scratch, or why it has none.
pub open spec fn interpret_source(src: Seq<char>) -> Result<SpecValue, SpecInterpretError> {
    match parse_source(src) {
        Err(e) => Err(SpecInterpretError::Parse(e)),
        Ok(program) => match eval_program(program) {
            Ok(v) => Ok(v),
            Err(e) => Err(SpecInterpretError::Eval(e)),
        },
    }
}

/// Scans, parses and evaluates `source` in a fresh global environment.
pub fn interpret(source: String) -> (r: Result<Object, InterpretError>)
    ensures
        interpret_view(r) == interpret_source(source@),
{
    let lexer = Lexer::new(source);
    let parser = Parser::new(lexer);
    let program = match parser.parse() {
        Ok(p) => p,
        Err(e) => {
            return Err(InterpretError::Parse(e));
        },
    };
    let mut scopes = Scopes::new();
    assert(scopes@ =~= initial_scopes());
    let node = Node::Program(program);
    match eval(&node, 0, &mut scopes) {
        Ok(v) => Ok(v),
        Err(e) => Err(InterpretError::Eval(e)),
    }
}

/// Running a text depends on the text alone: no state survives from one
/// run to the next, so the same text always gives the same result.
pub proof fn lemma_interpret_deterministic(a: Seq<char>, b: Seq<char>)
    requires
        a == b,
    ensures
        interpret_source(a) == interpret_source(b),
{
}

} // verus!
