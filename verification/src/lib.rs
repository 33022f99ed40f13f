//! A small ahead-of-time compiler from a strict subset of C to x86-64
//! assembly in Intel syntax.
//!
//! The pipeline has three phases: the lexer turns the source text into a
//! token vector (`tokenize`), the recursive-descent parser builds a typed
//! abstract syntax tree of functions with resolved locals (`parse`), and
//! the code generator lowers that tree to assembly text (`codegen`).
//! `compile` runs the three phases in order.

pub mod codegen;
pub mod errors;
pub mod laws;
pub mod tokenize;
pub mod parse;
pub mod types;

use vstd::prelude::*;

use crate::codegen::Generator;
use crate::errors::CompileError;
use crate::parse::Parser;
use crate::tokenize::{lex, tokenize};

verus! {

/// Compiles one source program to its assembly text: tokenize, parse,
/// generate.
///
/// The phases compose exactly: the lexer returns precisely the tokens
/// that `tokenize::lex` specifies, the parser builds precisely the
/// derivation that `parse::parse_program` specifies for those tokens,
/// and the generator's output is precisely the rendering of the line
/// sequence that `codegen::gen_output` specifies for the parsed
/// functions. Compilation fails when the lexer or the parser rejects;
/// it succeeds whenever, in addition, every function list carrying the
/// derivation's content satisfies the generator's conditions (every
/// assignment target an lvalue, at most six parameters and arguments,
/// frames and the label counter within machine bounds). A returned
/// text is the rendering for a function list carrying exactly the
/// derivation's content; the list is quantified because a spec-level
/// derivation fixes every field of every function except the abstract
/// identity of its `String` values, which the rendering reads only
/// through their character sequences.
pub fn compile(source: String) -> (r: Result<String, CompileError>)
    ensures
        lex(source@, 0) is None ==> r is Err,
        r is Ok ==> lex(source@, 0) is Some && crate::parse::parse_program(
            lex(source@, 0)->0,
            0,
        ) is Some,
        lex(source@, 0) matches Some(models) && crate::parse::parse_program(models, 0) is None
            ==> r is Err,
        r matches Ok(out) ==> ({
            let pr = crate::parse::parse_program(lex(source@, 0)->0, 0)->0;
            exists|funcs: Seq<crate::parse::Function>|
                {
                    &&& #[trigger] crate::parse::function_models(funcs) == pr.0
                    &&& crate::codegen::program_ok(funcs)
                    &&& crate::codegen::program_layout_fits(funcs)
                    &&& crate::codegen::gen_program(funcs, 0).1 <= u32::MAX
                    &&& out@ == crate::codegen::lines_str(crate::codegen::gen_output(funcs, 0))
                }
        }),
        (lex(source@, 0) matches Some(models) && crate::parse::parse_program(models, 0)
            matches Some(pr) && (forall|funcs: Seq<crate::parse::Function>|
            #[trigger] crate::parse::function_models(funcs) == pr.0
                ==> crate::codegen::program_ok(funcs) && crate::codegen::program_layout_fits(
                funcs,
            ) && crate::codegen::gen_program(funcs, 0).1 <= u32::MAX)) ==> r is Ok,
{
    let ghost src_chars = source@;
    let tokens = tokenize(source)?;
    proof {
        crate::parse::lemma_token_models(tokens@);
        assert(crate::parse::token_models(tokens@) =~= lex(src_chars, 0)->0);
    }
    let mut parser = Parser::new(tokens);
    parser.program()?;
    let ghost funcs = parser.functions@;
    let mut generator = Generator::new();
    let r = generator.codegen(parser);
    proof {
        if r is Ok {
            assert(crate::codegen::program_ok(funcs));
        }
    }
    r
}

} // verus!
