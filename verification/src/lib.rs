//! A compile-time template repetition engine.
//!
//! Given a loop variable, a numeric range, and a braced block of tokens,
//! the engine substitutes each integer of the range for the loop variable,
//! either over the whole block (implicit mode) or only inside an explicitly
//! marked `#( ... )*` repeat section (explicit mode).

use vstd::prelude::*;

pub mod decimal;
pub mod expand;
pub mod parse;
pub mod token;

use crate::parse::{spec_run, Error, Template};
use crate::token::{toks_view, Token};

verus! {

/// Runs one invocation end to end: parses
/// `<ident> in <from> .. [=] <to> { <tokens> }` and returns the produced
/// token sequence, or the diagnostic the parser stopped at.
pub fn run(input: &Vec<Token>) -> (r: Result<Vec<Token>, Error>)
    ensures
        match spec_run(toks_view(input@)) {
            Ok(o) => r matches Ok(v) && toks_view(v@) == o,
            Err(e) => r matches Err(e2) && e2 == e,
        },
{
    match Template::parse(input) {
        Ok(t) => Ok(t.expand()),
        Err(e) => Err(e),
    }
}

} // verus!
