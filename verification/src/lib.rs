//! Paddle: a small LISP interpreter whose lexer, parser, lowering, environment
//! and evaluator are verified with Verus.
use vstd::prelude::*;

pub mod builtins;
pub mod cursor;
pub mod env;
pub mod errors;
pub mod eval;
pub mod lexer;
pub mod lower;
pub mod numlog;
pub mod parser;
pub mod render;
pub mod span;
pub mod split_keeping_delimiter;
pub mod text;
pub mod value;

verus! {

/// The version of the interpreter core.
pub fn core_version() -> (v: &'static str)
    ensures
        v@ == "0.1.0"@,
{
    proof {
        reveal_strlit("0.1.0");
    }
    "0.1.0"
}

} // verus!
