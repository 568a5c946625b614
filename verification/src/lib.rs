//! One step of normal-order (leftmost-outermost) beta reduction for the
//! untyped lambda calculus: parse a textual lambda expression, contract at
//! most one capture-avoiding redex, and render the result back to text.
//!
//! The whole pipeline is a pure function of its input string; the only
//! failure is a syntax error from the parser, whose message the boundary
//! function returns in place of a printed term.

pub mod lexer;
pub mod names;
pub mod parser;
pub mod printer;
pub mod reduce;
pub mod roundtrip;
pub mod subst;
pub mod term;
pub mod text;

use vstd::prelude::*;

verus! {

/// The whole pipeline on the model: tokenize, parse, take one reduction
/// step if a redex exists, and print; or the parser's error message.
pub open spec fn spec_pipeline(input: Seq<char>) -> Result<Seq<char>, Seq<char>> {
    match crate::parser::spec_parse(crate::lexer::spec_tokenize(input)) {
        Ok(t) => Ok(
            crate::printer::spec_print(
                match crate::reduce::spec_step(t) {
                    Some(stepped) => stepped,
                    None => t,
                },
            ),
        ),
        Err(m) => Err(m),
    }
}

/// Tokenize, parse, attempt one reduction step, print.
pub fn next_beta_reduction_internal(input: &str) -> (r: Result<String, String>)
    ensures
        match spec_pipeline(input@) {
            Ok(printed) => r matches Ok(s) && s@ == printed,
            Err(m) => r matches Err(e) && e@ == m,
        },
{
    let chars = crate::text::chars_of(input);
    let tokens = crate::lexer::tokenize(&chars);
    match crate::parser::parse(tokens) {
        Ok(ast) => {
            let (_reduced, reduced_ast) = crate::reduce::beta_reduce(&ast);
            Ok(crate::printer::ast_to_string(&reduced_ast))
        },
        Err(e) => Err(e),
    }
}

/// The boundary function: the printed form of the input after at most one
/// reduction step, or, on a syntax error, the error message itself.
pub fn next_beta_reduction_wasm(input: &str) -> (r: String)
    ensures
        r@ == (match spec_pipeline(input@) {
            Ok(printed) => printed,
            Err(m) => m,
        }),
{
    match next_beta_reduction_internal(input) {
        Ok(s) => s,
        Err(e) => e,
    }
}

} // verus!
