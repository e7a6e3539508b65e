//! Proved properties that tie the grammar and the renderer together: the
//! round trip on integer literals, the delegation behaviour of the top-level
//! dispatcher, and the locality of a malformed-literal failure inside a
//! value binding. Idempotence of whitespace skipping is proved beside the
//! whitespace scanner itself, as `lex::lemma_ws_end_idempotent`.

use vstd::prelude::*;
use crate::ast::SpecAst;
use crate::lex::{
    SpecParse, SpecParseError, digits_end, dec_to_int, ident_end, int_to_dec, is_digit_char,
    is_ws_char, lemma_dec_round_trip, lemma_digits_end_props, lemma_int_to_dec_digits,
    spec_parse_int, word_end, ws_end,
};
use crate::parse::{
    application_shape_at, has_function_at, has_val_at, spec_parse_ast, spec_parse_expression,
    spec_parse_function, spec_parse_val_binding, top_level_forms,
};
use crate::render::spec_render;

verus! {

/// Rendering a non-negative integer literal and re-parsing the text as an
/// expression yields the same literal back, consuming the whole text.
pub proof fn lemma_literal_round_trip(n: i128)
    requires
        0 <= n,
    ensures
        ({
            let text = spec_render(SpecAst::IntegerLiteral { value: n as int });
            spec_parse_expression(text, 0) == (SpecParse::Found {
                next: text.len() as int,
                val: SpecAst::IntegerLiteral { value: n as int },
            })
        }),
{
    let text = spec_render(SpecAst::IntegerLiteral { value: n as int });
    assert(text == int_to_dec(n as nat));
    lemma_int_to_dec_digits(n as nat);
    lemma_dec_round_trip(n as nat);
    lemma_digits_end_props(text, 0);
    assert(digits_end(text, 0) == text.len()) by {
        if digits_end(text, 0) < text.len() {
            assert(is_digit_char(text[digits_end(text, 0)]));
        }
    }
    assert(is_digit_char(text[0]));
    assert(!is_ws_char(text[0]));
    assert(ws_end(text, 0) == 0);
    assert(text.subrange(0, text.len() as int) =~= text);
    assert(dec_to_int(text) == n as nat);
    assert(n as nat <= i128::MAX);
}

/// The dispatcher delegates by the leading keyword or shape: a `function`
/// prefix is read by the function-declaration rule and can only yield a
/// declaration node; a `val` prefix is read by the value-binding rule and
/// can only yield a binding node; the shape of an application is read by
/// the expression rule; and an input showing none of the three forms is
/// rejected with `NoMatchingForm` at the first position past leading
/// whitespace, carrying the attempted forms.
pub proof fn lemma_dispatcher_delegates(s: Seq<char>)
    ensures
        has_function_at(s, 0) ==> spec_parse_ast(s) == spec_parse_function(s),
        has_function_at(s, 0) && (spec_parse_ast(s) matches SpecParse::Found { next, val })
            ==> spec_parse_ast(s) matches SpecParse::Found { next, val: SpecAst::FunctionDecl { .. } },
        !has_function_at(s, 0) && has_val_at(s, 0) ==> spec_parse_ast(s)
            == spec_parse_val_binding(s),
        !has_function_at(s, 0) && has_val_at(s, 0) && (spec_parse_ast(s)
            matches SpecParse::Found { next, val }) ==> spec_parse_ast(s)
            matches SpecParse::Found { next, val: SpecAst::TopLevelValBinding { .. } },
        !has_function_at(s, 0) && !has_val_at(s, 0) && application_shape_at(s, 0)
            ==> spec_parse_ast(s) == spec_parse_expression(s, 0),
        !has_function_at(s, 0) && !has_val_at(s, 0) && !application_shape_at(s, 0)
            ==> spec_parse_ast(s) == (SpecParse::<SpecAst>::Fail {
            err: SpecParseError::NoMatchingForm {
                pos: ws_end(s, 0),
                attempted: top_level_forms(),
            },
        }),
{
}

/// The binding text up to and including `=` is well-formed: the `val`
/// keyword, a binding name, `:`, a type annotation, and `=`, with
/// insignificant whitespace between the tokens.
pub open spec fn val_binding_prefix_ok(s: Seq<char>) -> bool {
    let p1 = ws_end(s, 3);
    let q1 = ident_end(s, p1);
    let p2 = ws_end(s, q1);
    let p3 = ws_end(s, p2 + 1);
    let q2 = word_end(s, p3);
    let p4 = ws_end(s, q2);
    has_val_at(s, 0) && q1 != p1 && p2 < s.len() && s[p2] == ':' && q2 != p3 && p4 < s.len()
        && s[p4] == '='
}

/// The position where a well-formed binding's bound literal starts.
pub open spec fn val_binding_literal_pos(s: Seq<char>) -> int {
    let p1 = ws_end(s, 3);
    let q1 = ident_end(s, p1);
    let p2 = ws_end(s, q1);
    let p3 = ws_end(s, p2 + 1);
    let q2 = word_end(s, p3);
    let p4 = ws_end(s, q2);
    ws_end(s, p4 + 1)
}

/// Failure is local: when the bound literal of an otherwise well-formed
/// binding is malformed — an empty digit run, or a value too large for the
/// literal type — the whole parse fails with a malformed-number error
/// carrying the offending digit run and its position, and no partial tree
/// is produced.
pub proof fn lemma_failure_locality(s: Seq<char>)
    requires
        val_binding_prefix_ok(s),
        spec_parse_int(s, val_binding_literal_pos(s)) matches SpecParse::Fail { err },
    ensures
        spec_parse_ast(s) == (SpecParse::<SpecAst>::Fail {
            err: SpecParseError::MalformedNumber {
                pos: val_binding_literal_pos(s),
                token: s.subrange(
                    val_binding_literal_pos(s),
                    digits_end(s, val_binding_literal_pos(s)),
                ),
            },
        }),
{
    assert(!has_function_at(s, 0));
}

} // verus!
