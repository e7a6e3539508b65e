//! A small source-to-source transpiler front end: programs of a minimal
//! functional language — top-level value bindings, function declarations,
//! function applications and integer literals — are parsed into a typed
//! syntax tree and rendered back out in a different concrete syntax.
//!
//! The grammar lives in `parse`, stated positionally over sequences of
//! characters; the tree and its mathematical model live in `ast`; lexical
//! primitives (digit runs, hexadecimal bytes, whitespace) live in `lex`; the
//! rendering pass lives in `render`; `laws` holds the proved properties that
//! tie parsing and rendering together.

use vstd::prelude::*;

pub mod ast;
pub mod laws;
pub mod lex;
pub mod parse;
pub mod render;

verus! {

use crate::ast::SpecAst;
use crate::lex::{ParseError, SpecParse};
use crate::parse::{parse_ast, spec_parse_ast};
use crate::render::{pretty_print_ast, spec_render};

/// Parse one top-level form of the source language and render it in the
/// target syntax, returning the unconsumed suffix beside the rendered text.
pub fn transform_to_idris(input: &str) -> (r: Result<(&str, String), ParseError>)
    ensures
        match r {
            Ok((rem, out)) => spec_parse_ast(input@) matches SpecParse::Found { next, val }
                && out@ == spec_render(val) && rem@ == input@.subrange(next, input@.len() as int),
            Err(e) => spec_parse_ast(input@) == (SpecParse::<SpecAst>::Fail { err: e.view() }),
        },
{
    match parse_ast(input) {
        Ok((rem, tree)) => {
            let out = pretty_print_ast(&tree);
            Ok((rem, out))
        },
        Err(e) => Err(e),
    }
}

} // verus!
