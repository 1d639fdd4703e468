//! A tree-walking interpreter for a minimal eight-instruction language that
//! operates on a fixed-size byte tape.
//!
//! The pipeline has three stages, in strict dependency order: the lexer
//! classifies every source character into a [`lexer::Token`], the parser
//! builds a nested instruction tree of [`parser::AstNode`]s with matched
//! bracket pairs resolved into loop nodes, and the interpreter walks that
//! tree against a 30,000-cell byte tape. Data flows strictly forward:
//! text, then tokens, then tree, then tape effects. [`run`] is the one
//! entry point over the whole pipeline.

pub mod interpreter;
pub mod lexer;
pub mod parser;

use crate::interpreter::EvalError;
use crate::interpreter::Interpreter;
use crate::interpreter::IoBuffer;
use crate::interpreter::Machine;
use crate::interpreter::eval_nodes;
use crate::interpreter::initial_machine;
use crate::lexer::scan_spec;
use crate::lexer::tokenize;
use crate::parser::AstNode;
use crate::parser::ParseError;
use crate::parser::flatten;
use crate::parser::parse;
use crate::parser::structure_check;
use vstd::prelude::*;

verus! {

/// A fatal outcome of a whole run: either the source fails to structure, or
/// the evaluation aborts with the pointer off the tape.
#[derive(Clone, Copy, Debug, PartialEq, Eq, Structural)]
pub enum RunError {
    /// The source text failed to structure; nothing was evaluated.
    Parse(ParseError),
    /// Evaluation aborted with the data pointer off the tape.
    Eval(EvalError),
}

/// Run a source text: scan it, structure it, and evaluate it on a fresh
/// tape against the given input bytes, within a step budget.
///
/// Returns the emitted output bytes on completion, the structuring or
/// evaluation error on a fatal condition, and `None` when the walk did not
/// finish within `fuel` steps. Structuring failures surface before any
/// instruction runs, so a program that fails to parse produces no output
/// and touches no input.
pub fn run(source: &str, input: Vec<u8>, fuel: u64) -> (r: Option<Result<Vec<u8>, RunError>>)
    ensures
        ({
            let tokens = scan_spec(source@);
            match r {
                Some(Err(RunError::Parse(e))) => structure_check(tokens, 0, tokens.len() as int)
                    == Err::<(), ParseError>(e),
                Some(Err(RunError::Eval(e))) => structure_check(tokens, 0, tokens.len() as int)
                    is Ok && exists|nodes: Seq<AstNode>|
                    #[trigger] flatten(nodes) == tokens && eval_nodes(
                        nodes,
                        input@,
                        initial_machine(),
                        fuel as nat,
                    ) == Some(Err::<Machine, EvalError>(e)),
                Some(Ok(out)) => structure_check(tokens, 0, tokens.len() as int) is Ok && exists|
                    nodes: Seq<AstNode>,
                |
                    #[trigger] flatten(nodes) == tokens && (eval_nodes(
                        nodes,
                        input@,
                        initial_machine(),
                        fuel as nat,
                    ) matches Some(Ok(m)) && out@ == m.out),
                None => structure_check(tokens, 0, tokens.len() as int) is Ok && exists|
                    nodes: Seq<AstNode>,
                |
                    #[trigger] flatten(nodes) == tokens && eval_nodes(
                        nodes,
                        input@,
                        initial_machine(),
                        fuel as nat,
                    ) is None,
            }
        }),
{
    let tokens = tokenize(source);
    match parse(tokens) {
        Err(e) => Some(Err(RunError::Parse(e))),
        Ok(nodes) => {
            let mut interp = Interpreter::new();
            let mut io = IoBuffer::new(input);
            let r = interp.execute(&nodes, &mut io, fuel);
            proof {
                assert(flatten(nodes@) == scan_spec(source@));
            }
            match r {
                None => None,
                Some(Err(e)) => Some(Err(RunError::Eval(e))),
                Some(Ok(_)) => Some(Ok(io.output)),
            }
        },
    }
}

} // verus!
