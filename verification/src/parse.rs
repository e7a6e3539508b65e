//! The grammar: composable parsing rules for expressions, function
//! applications, value bindings and function declarations, together with the
//! top-level dispatcher.
//!
//! Each rule is stated first as a spec function from the input and a start
//! position to the position after the consumed prefix and the parsed node, or
//! to a structured failure; the executable parser beside it is proved to
//! return exactly that outcome. Whitespace between tokens is insignificant:
//! every rule skips it before matching the next token.

use vstd::prelude::*;
use crate::ast::{
    AST, Function, FunctionApplication, FunctionArgument, SpecArg, SpecAst, ValBinding,
    args_view, distinct_arg_names, lemma_view_ast_seq, lemma_wf_ast_seq, view_ast_seq, wf_ast,
    wf_ast_seq,
};
use crate::lex::{
    ParseError, SpecParse, SpecParseError, SyntaxForm, Token, ident_end, is_digit_char,
    lemma_digits_end_props, lemma_ident_end_props, lemma_word_end_props, lemma_ws_end_props,
    line_ws_end, parse_int_at, scan_ident, scan_word, skip_line_ws, skip_ws, spec_parse_int,
    word_end, ws_end, is_dec_digit,
};

verus! {

broadcast use vstd::std_specs::vec::group_vec_axioms, vstd::seq::group_seq_axioms;

/// The keyword `val` standing at position `p`.
pub open spec fn has_val_at(s: Seq<char>, p: int) -> bool {
    &&& p + 3 <= s.len()
    &&& s[p] == 'v'
    &&& s[p + 1] == 'a'
    &&& s[p + 2] == 'l'
}

/// The keyword `function` standing at position `p`.
pub open spec fn has_function_at(s: Seq<char>, p: int) -> bool {
    &&& p + 8 <= s.len()
    &&& s[p] == 'f'
    &&& s[p + 1] == 'u'
    &&& s[p + 2] == 'n'
    &&& s[p + 3] == 'c'
    &&& s[p + 4] == 't'
    &&& s[p + 5] == 'i'
    &&& s[p + 6] == 'o'
    &&& s[p + 7] == 'n'
}

/// `q` if it lies beyond `p`, else the position just after `p`. A parsed
/// item always ends beyond its start, so the guard changes nothing; it only
/// keeps the forward movement of the grammar evident.
pub open spec fn forward_from(p: int, q: int) -> int {
    if q > p {
        q
    } else {
        p + 1
    }
}

/// Whether some parameter in `args` is named `name`.
pub open spec fn has_arg_named(args: Seq<SpecArg>, name: Seq<char>) -> bool {
    exists|j: int| 0 <= j < args.len() && args[j].name == name
}

/// The alternatives the top-level dispatcher tries, in order.
pub open spec fn top_level_forms() -> Seq<SyntaxForm> {
    seq![SyntaxForm::FunctionDeclaration, SyntaxForm::ValBinding, SyntaxForm::FunctionApplication]
}

/// The alternatives the expression rule tries.
pub open spec fn expression_forms() -> Seq<SyntaxForm> {
    seq![SyntaxForm::IntegerLiteral, SyntaxForm::FunctionApplication, SyntaxForm::ArgumentReference]
}

/// A function application stands at `p`: after leading whitespace, a
/// nonempty identifier run that does not start with a digit, immediately
/// followed by `(`.
pub open spec fn application_shape_at(s: Seq<char>, p: int) -> bool {
    let p1 = ws_end(s, p);
    let q = ident_end(s, p1);
    &&& !(p1 < s.len() && is_digit_char(s[p1]))
    &&& q != p1
    &&& q < s.len()
    &&& s[q] == '('
}

/// The expression rule: an integer literal, a function application
/// `name(arguments)`, or a bare identifier used as an argument reference.
pub open spec fn spec_parse_expression(s: Seq<char>, p: int) -> SpecParse<SpecAst>
    decreases s.len() - p, 0int,
{
    let p1 = ws_end(s, p);
    if p1 < s.len() && is_digit_char(s[p1]) {
        match spec_parse_int(s, p1) {
            SpecParse::Found { next, val } => SpecParse::Found {
                next,
                val: SpecAst::IntegerLiteral { value: val },
            },
            SpecParse::Fail { err } => SpecParse::Fail { err },
        }
    } else {
        let q = ident_end(s, p1);
        if q == p1 {
            SpecParse::Fail {
                err: SpecParseError::NoMatchingForm { pos: p1, attempted: expression_forms() },
            }
        } else {
            let name = s.subrange(p1, q);
            if q < s.len() && s[q] == '(' {
                proof {
                    if 0 <= p <= s.len() {
                        lemma_ws_end_props(s, p);
                        lemma_ident_end_props(s, ws_end(s, p));
                    }
                }
                match spec_parse_app_args(s, q + 1) {
                    SpecParse::Found { next, val } => SpecParse::Found {
                        next,
                        val: SpecAst::App { name, args: val },
                    },
                    SpecParse::Fail { err } => SpecParse::Fail { err },
                }
            } else {
                SpecParse::Found { next: q, val: SpecAst::AppArg { name } }
            }
        }
    }
}

/// The argument-list rule, entered just after `(`: either a closing `)` at
/// once, or a non-empty comma-separated list of expressions.
pub open spec fn spec_parse_app_args(s: Seq<char>, p: int) -> SpecParse<Seq<SpecAst>>
    decreases s.len() - p, 2int,
{
    let p1 = ws_end(s, p);
    if p1 < s.len() && s[p1] == ')' {
        SpecParse::Found { next: p1 + 1, val: Seq::empty() }
    } else {
        spec_parse_app_args1(s, p)
    }
}

/// One or more comma-separated argument expressions, then `)`.
pub open spec fn spec_parse_app_args1(s: Seq<char>, p: int) -> SpecParse<Seq<SpecAst>>
    decreases s.len() - p, 1int,
{
    match spec_parse_expression(s, p) {
        SpecParse::Fail { err } => SpecParse::Fail { err },
        SpecParse::Found { next, val } => {
            let p2 = ws_end(s, forward_from(p, next));
            if p2 < s.len() && s[p2] == ',' {
                proof {
                    if 0 <= forward_from(p, next) <= s.len() {
                        lemma_ws_end_props(s, forward_from(p, next));
                    }
                }
                match spec_parse_app_args1(s, p2 + 1) {
                    SpecParse::Fail { err } => SpecParse::Fail { err },
                    SpecParse::Found { next: r, val: rest } => SpecParse::Found {
                        next: r,
                        val: seq![val] + rest,
                    },
                }
            } else if p2 < s.len() && s[p2] == ')' {
                SpecParse::Found { next: p2 + 1, val: seq![val] }
            } else {
                SpecParse::Fail {
                    err: SpecParseError::UnexpectedToken {
                        expected: Token::RParen,
                        pos: p2,
                    },
                }
            }
        },
    }
}

/// The parameter-list rule, entered just after `(`: either a closing `)` at
/// once, or a non-empty comma-separated list of `name: Type` pairs.
pub open spec fn spec_parse_params(s: Seq<char>, p: int) -> SpecParse<Seq<SpecArg>> {
    let p1 = ws_end(s, p);
    if p1 < s.len() && s[p1] == ')' {
        SpecParse::Found { next: p1 + 1, val: Seq::empty() }
    } else {
        spec_parse_params1(s, p)
    }
}

/// One or more comma-separated `name: Type` pairs, then `)`. A parameter
/// whose name recurs later in the list is rejected as an unexpected token at
/// its own position: a declaration never carries two parameters of one name.
pub open spec fn spec_parse_params1(s: Seq<char>, p: int) -> SpecParse<Seq<SpecArg>>
    decreases s.len() - p,
{
    let p1 = ws_end(s, p);
    let q1 = ident_end(s, p1);
    if q1 == p1 {
        SpecParse::Fail {
            err: SpecParseError::UnexpectedToken { expected: Token::Identifier, pos: p1 },
        }
    } else {
        let pname = s.subrange(p1, q1);
        let p2 = ws_end(s, q1);
        if !(p2 < s.len() && s[p2] == ':') {
            SpecParse::Fail {
                err: SpecParseError::UnexpectedToken { expected: Token::Colon, pos: p2 },
            }
        } else {
            let p3 = ws_end(s, p2 + 1);
            let q2 = ident_end(s, p3);
            if q2 == p3 {
                SpecParse::Fail {
                    err: SpecParseError::UnexpectedToken {
                        expected: Token::Identifier,
                        pos: p3,
                    },
                }
            } else {
                let ptype = s.subrange(p3, q2);
                let p4 = ws_end(s, q2);
                let head = SpecArg { name: pname, ty: ptype };
                if p4 < s.len() && s[p4] == ',' {
                    proof {
                        if 0 <= p <= s.len() {
                            lemma_ws_end_props(s, p);
                            lemma_ident_end_props(s, ws_end(s, p));
                            lemma_ws_end_props(s, q1);
                            if 0 <= p2 + 1 <= s.len() {
                                lemma_ws_end_props(s, p2 + 1);
                                lemma_ident_end_props(s, ws_end(s, p2 + 1));
                                lemma_ws_end_props(s, q2);
                            }
                        }
                    }
                    match spec_parse_params1(s, p4 + 1) {
                        SpecParse::Fail { err } => SpecParse::Fail { err },
                        SpecParse::Found { next, val: rest } => {
                            if has_arg_named(rest, pname) {
                                SpecParse::Fail {
                                    err: SpecParseError::UnexpectedToken {
                                        expected: Token::Identifier,
                                        pos: p1,
                                    },
                                }
                            } else {
                                SpecParse::Found { next, val: seq![head] + rest }
                            }
                        },
                    }
                } else if p4 < s.len() && s[p4] == ')' {
                    SpecParse::Found { next: p4 + 1, val: seq![head] }
                } else {
                    SpecParse::Fail {
                        err: SpecParseError::UnexpectedToken {
                            expected: Token::RParen,
                            pos: p4,
                        },
                    }
                }
            }
        }
    }
}

/// The value-binding rule: `val name: Type = literal` ending at a line
/// terminator, which is left unconsumed. The type annotation is read and
/// discarded; the bound expression is restricted to an integer literal.
pub open spec fn spec_parse_val_binding(s: Seq<char>) -> SpecParse<SpecAst> {
    if !has_val_at(s, 0) {
        SpecParse::Fail {
            err: SpecParseError::UnexpectedToken { expected: Token::KwVal, pos: 0 },
        }
    } else {
        let p1 = ws_end(s, 3);
        let q1 = ident_end(s, p1);
        if q1 == p1 {
            SpecParse::Fail {
                err: SpecParseError::UnexpectedToken { expected: Token::Identifier, pos: p1 },
            }
        } else {
            let name = s.subrange(p1, q1);
            let p2 = ws_end(s, q1);
            if !(p2 < s.len() && s[p2] == ':') {
                SpecParse::Fail {
                    err: SpecParseError::UnexpectedToken { expected: Token::Colon, pos: p2 },
                }
            } else {
                let p3 = ws_end(s, p2 + 1);
                let q2 = word_end(s, p3);
                if q2 == p3 {
                    SpecParse::Fail {
                        err: SpecParseError::UnexpectedToken {
                            expected: Token::Identifier,
                            pos: p3,
                        },
                    }
                } else {
                    let p4 = ws_end(s, q2);
                    if !(p4 < s.len() && s[p4] == '=') {
                        SpecParse::Fail {
                            err: SpecParseError::UnexpectedToken {
                                expected: Token::Equals,
                                pos: p4,
                            },
                        }
                    } else {
                        let p5 = ws_end(s, p4 + 1);
                        match spec_parse_int(s, p5) {
                            SpecParse::Fail { err } => SpecParse::Fail { err },
                            SpecParse::Found { next, val } => {
                                let p6 = line_ws_end(s, next);
                                if !(p6 < s.len() && s[p6] == '\n') {
                                    SpecParse::Fail {
                                        err: SpecParseError::UnexpectedToken {
                                            expected: Token::Newline,
                                            pos: p6,
                                        },
                                    }
                                } else {
                                    SpecParse::Found {
                                        next: p6,
                                        val: SpecAst::TopLevelValBinding {
                                            name,
                                            value: Box::new(
                                                SpecAst::IntegerLiteral { value: val },
                                            ),
                                        },
                                    }
                                }
                            },
                        }
                    }
                }
            }
        }
    }
}

/// The function-declaration rule: `function name(parameters): Type { body }`,
/// where the body is empty or a single expression.
pub open spec fn spec_parse_function(s: Seq<char>) -> SpecParse<SpecAst> {
    if !has_function_at(s, 0) {
        SpecParse::Fail {
            err: SpecParseError::UnexpectedToken { expected: Token::KwFunction, pos: 0 },
        }
    } else {
        let p1 = ws_end(s, 8);
        let q1 = ident_end(s, p1);
        if q1 == p1 {
            SpecParse::Fail {
                err: SpecParseError::UnexpectedToken { expected: Token::Identifier, pos: p1 },
            }
        } else {
            let name = s.subrange(p1, q1);
            let p2 = ws_end(s, q1);
            if !(p2 < s.len() && s[p2] == '(') {
                SpecParse::Fail {
                    err: SpecParseError::UnexpectedToken { expected: Token::LParen, pos: p2 },
                }
            } else {
                match spec_parse_params(s, p2 + 1) {
                    SpecParse::Fail { err } => SpecParse::Fail { err },
                    SpecParse::Found { next: q2, val: params } => {
                        let p3 = ws_end(s, q2);
                        if !(p3 < s.len() && s[p3] == ':') {
                            SpecParse::Fail {
                                err: SpecParseError::UnexpectedToken {
                                    expected: Token::Colon,
                                    pos: p3,
                                },
                            }
                        } else {
                            let p4 = ws_end(s, p3 + 1);
                            let q3 = word_end(s, p4);
                            if q3 == p4 {
                                SpecParse::Fail {
                                    err: SpecParseError::UnexpectedToken {
                                        expected: Token::Identifier,
                                        pos: p4,
                                    },
                                }
                            } else {
                                let ret = s.subrange(p4, q3);
                                let p5 = ws_end(s, q3);
                                if !(p5 < s.len() && s[p5] == '{') {
                                    SpecParse::Fail {
                                        err: SpecParseError::UnexpectedToken {
                                            expected: Token::LBrace,
                                            pos: p5,
                                        },
                                    }
                                } else {
                                    let p6 = ws_end(s, p5 + 1);
                                    if p6 < s.len() && s[p6] == '}' {
                                        SpecParse::Found {
                                            next: p6 + 1,
                                            val: SpecAst::FunctionDecl {
                                                name,
                                                args: params,
                                                return_type: ret,
                                                body: Box::new(SpecAst::Empty),
                                            },
                                        }
                                    } else {
                                        match spec_parse_expression(s, p5 + 1) {
                                            SpecParse::Fail { err } => SpecParse::Fail { err },
                                            SpecParse::Found { next: q4, val: body } => {
                                                let p7 = ws_end(s, q4);
                                                if !(p7 < s.len() && s[p7] == '}') {
                                                    SpecParse::Fail {
                                                        err: SpecParseError::UnexpectedToken {
                                                            expected: Token::RBrace,
                                                            pos: p7,
                                                        },
                                                    }
                                                } else {
                                                    SpecParse::Found {
                                                        next: p7 + 1,
                                                        val: SpecAst::FunctionDecl {
                                                            name,
                                                            args: params,
                                                            return_type: ret,
                                                            body: Box::new(body),
                                                        },
                                                    }
                                                }
                                            },
                                        }
                                    }
                                }
                            }
                        }
                    },
                }
            }
        }
    }
}

/// The top-level dispatcher: the alternative whose leading keyword or shape
/// matches consumes the input. A leading `function` keyword selects the
/// function-declaration rule, a leading `val` keyword the value-binding
/// rule, and the shape of a function application selects the expression
/// rule; when no alternative matches, the parse fails with `NoMatchingForm`
/// at the first position past leading whitespace, carrying the attempted
/// forms.
pub open spec fn spec_parse_ast(s: Seq<char>) -> SpecParse<SpecAst> {
    if has_function_at(s, 0) {
        spec_parse_function(s)
    } else if has_val_at(s, 0) {
        spec_parse_val_binding(s)
    } else if application_shape_at(s, 0) {
        spec_parse_expression(s, 0)
    } else {
        SpecParse::Fail {
            err: SpecParseError::NoMatchingForm {
                pos: ws_end(s, 0),
                attempted: top_level_forms(),
            },
        }
    }
}

/// A parsed expression is well-formed and ends beyond its start, within
/// the input.
pub proof fn lemma_expression_wf(s: Seq<char>, p: int)
    requires
        0 <= p <= s.len(),
    ensures
        spec_parse_expression(s, p) matches SpecParse::Found { next, val } ==> wf_ast(val) && p
            < next <= s.len(),
    decreases s.len() - p, 0int,
{
    lemma_ws_end_props(s, p);
    let p1 = ws_end(s, p);
    if p1 < s.len() && is_digit_char(s[p1]) {
        lemma_digits_end_props(s, p1);
        match spec_parse_int(s, p1) {
            SpecParse::Found { next, val } => {
                assert(wf_ast(SpecAst::IntegerLiteral { value: val }));
                assert(p < next <= s.len());
            },
            SpecParse::Fail { err } => {},
        }
    } else {
        lemma_ident_end_props(s, p1);
        let q = ident_end(s, p1);
        if q != p1 {
            let name = s.subrange(p1, q);
            if q < s.len() && s[q] == '(' {
                lemma_app_args_wf(s, q + 1);
                match spec_parse_app_args(s, q + 1) {
                    SpecParse::Found { next, val } => {
                        assert(wf_ast(SpecAst::App { name, args: val }));
                        assert(p < next <= s.len());
                    },
                    SpecParse::Fail { err } => {},
                }
            } else {
                assert(wf_ast(SpecAst::AppArg { name }));
            }
        }
    }
}

/// A parsed argument list holds only well-formed expressions and ends
/// beyond its start, within the input.
pub proof fn lemma_app_args_wf(s: Seq<char>, p: int)
    requires
        0 <= p <= s.len(),
    ensures
        spec_parse_app_args(s, p) matches SpecParse::Found { next, val } ==> wf_ast_seq(val) && p
            < next <= s.len(),
    decreases s.len() - p, 2int,
{
    lemma_ws_end_props(s, p);
    let p1 = ws_end(s, p);
    if !(p1 < s.len() && s[p1] == ')') {
        lemma_app_args1_wf(s, p);
    } else {
        assert(wf_ast_seq(Seq::<SpecAst>::empty()));
    }
}

/// A parsed non-empty argument list holds only well-formed expressions and
/// ends beyond its start, within the input.
pub proof fn lemma_app_args1_wf(s: Seq<char>, p: int)
    requires
        0 <= p <= s.len(),
    ensures
        spec_parse_app_args1(s, p) matches SpecParse::Found { next, val } ==> wf_ast_seq(val) && p
            < next <= s.len(),
    decreases s.len() - p, 1int,
{
    lemma_expression_wf(s, p);
    match spec_parse_expression(s, p) {
        SpecParse::Found { next, val } => {
            lemma_ws_end_props(s, forward_from(p, next));
            let p2 = ws_end(s, forward_from(p, next));
            if p2 < s.len() && s[p2] == ',' {
                lemma_app_args1_wf(s, p2 + 1);
                match spec_parse_app_args1(s, p2 + 1) {
                    SpecParse::Found { next: r, val: rest } => {
                        let whole = seq![val] + rest;
                        lemma_wf_ast_seq(rest);
                        lemma_wf_ast_seq(whole);
                        assert forall|i: int| 0 <= i < whole.len() implies #[trigger] wf_ast(
                            whole[i],
                        ) by {
                            if i > 0 {
                                assert(whole[i] == rest[i - 1]);
                                assert(wf_ast(rest[i - 1]));
                            } else {
                                assert(whole[0] == val);
                            }
                        }
                    },
                    SpecParse::Fail { err } => {},
                }
            } else if p2 < s.len() && s[p2] == ')' {
                let single = seq![val];
                lemma_wf_ast_seq(single);
                assert(single[0] == val);
            }
        },
        SpecParse::Fail { err } => {},
    }
}

/// A parsed parameter list carries pairwise-distinct parameter names and
/// ends beyond its start, within the input.
pub proof fn lemma_params1_distinct(s: Seq<char>, p: int)
    requires
        0 <= p <= s.len(),
    ensures
        spec_parse_params1(s, p) matches SpecParse::Found { next, val } ==> distinct_arg_names(
            val,
        ) && p < next <= s.len(),
    decreases s.len() - p,
{
    lemma_ws_end_props(s, p);
    let p1 = ws_end(s, p);
    lemma_ident_end_props(s, p1);
    let q1 = ident_end(s, p1);
    if q1 != p1 {
        lemma_ws_end_props(s, q1);
        let p2 = ws_end(s, q1);
        if p2 < s.len() && s[p2] == ':' {
            lemma_ws_end_props(s, p2 + 1);
            let p3 = ws_end(s, p2 + 1);
            lemma_ident_end_props(s, p3);
            let q2 = ident_end(s, p3);
            if q2 != p3 {
                lemma_ws_end_props(s, q2);
                let p4 = ws_end(s, q2);
                let pname = s.subrange(p1, q1);
                if p4 < s.len() && s[p4] == ',' {
                    lemma_params1_distinct(s, p4 + 1);
                    match spec_parse_params1(s, p4 + 1) {
                        SpecParse::Fail { err } => {},
                        SpecParse::Found { next, val: rest } => if !has_arg_named(rest, pname) {
                            let whole = seq![SpecArg { name: pname, ty: s.subrange(p3, q2) }]
                                + rest;
                            assert forall|i: int, j: int| 0 <= i < j < whole.len() implies whole[i].name
                                != whole[j].name by {
                                if i == 0 {
                                    assert(whole[j] == rest[j - 1]);
                                    assert(!(exists|k: int|
                                        0 <= k < rest.len() && rest[k].name == pname));
                                } else {
                                    assert(whole[i] == rest[i - 1]);
                                    assert(whole[j] == rest[j - 1]);
                                }
                            }
                        },
                    }
                }
            }
        }
    }
}

/// A parsed parameter list, possibly empty, carries pairwise-distinct
/// parameter names and ends beyond its start, within the input.
pub proof fn lemma_params_distinct(s: Seq<char>, p: int)
    requires
        0 <= p <= s.len(),
    ensures
        spec_parse_params(s, p) matches SpecParse::Found { next, val } ==> distinct_arg_names(
            val,
        ) && p < next <= s.len(),
{
    lemma_ws_end_props(s, p);
    let p1 = ws_end(s, p);
    if !(p1 < s.len() && s[p1] == ')') {
        lemma_params1_distinct(s, p);
    }
}

/// Every tree the dispatcher hands out is well-formed: a declaration's
/// parameter names are pairwise distinct, recursively in every child. A
/// malformed tree cannot be produced by parsing.
pub proof fn lemma_parse_ast_wf(s: Seq<char>)
    ensures
        spec_parse_ast(s) matches SpecParse::Found { next, val } ==> wf_ast(val),
{
    if has_function_at(s, 0) {
        lemma_ws_end_props(s, 8);
        let p1 = ws_end(s, 8);
        lemma_ident_end_props(s, p1);
        let q1 = ident_end(s, p1);
        if q1 != p1 {
            lemma_ws_end_props(s, q1);
            let p2 = ws_end(s, q1);
            if p2 < s.len() && s[p2] == '(' {
                lemma_params_distinct(s, p2 + 1);
                match spec_parse_params(s, p2 + 1) {
                    SpecParse::Fail { err } => {},
                    SpecParse::Found { next: q2, val } => {
                        lemma_ws_end_props(s, q2);
                        let p3 = ws_end(s, q2);
                        if p3 < s.len() && s[p3] == ':' {
                            lemma_ws_end_props(s, p3 + 1);
                            let p4 = ws_end(s, p3 + 1);
                            lemma_word_end_props(s, p4);
                            let q3 = word_end(s, p4);
                            if q3 != p4 {
                                lemma_ws_end_props(s, q3);
                                let p5 = ws_end(s, q3);
                                if p5 < s.len() && s[p5] == '{' {
                                    lemma_expression_wf(s, p5 + 1);
                                    assert(wf_ast(SpecAst::Empty));
                                }
                            }
                        }
                    },
                }
            }
        }
    } else if has_val_at(s, 0) {
        match spec_parse_val_binding(s) {
            SpecParse::Found { next, val } => match val {
                SpecAst::TopLevelValBinding { name, value } => {
                    assert(wf_ast(*value));
                },
                _ => {},
            },
            SpecParse::Fail { err } => {},
        }
    } else if application_shape_at(s, 0) {
        lemma_expression_wf(s, 0);
    }
}

/// The attempted-forms payload of a top-level dispatch failure.
fn top_level_forms_vec() -> (v: Vec<SyntaxForm>)
    ensures
        v@ == top_level_forms(),
{
    let mut v: Vec<SyntaxForm> = Vec::new();
    v.push(SyntaxForm::FunctionDeclaration);
    v.push(SyntaxForm::ValBinding);
    v.push(SyntaxForm::FunctionApplication);
    proof {
        assert(v@ =~= top_level_forms());
    }
    v
}

/// The attempted-forms payload of an expression-rule failure.
fn expression_forms_vec() -> (v: Vec<SyntaxForm>)
    ensures
        v@ == expression_forms(),
{
    let mut v: Vec<SyntaxForm> = Vec::new();
    v.push(SyntaxForm::IntegerLiteral);
    v.push(SyntaxForm::FunctionApplication);
    v.push(SyntaxForm::ArgumentReference);
    proof {
        assert(v@ =~= expression_forms());
    }
    v
}

/// Whether the keyword `val` stands at `pos`.
pub fn has_val_keyword(s: &str, pos: usize) -> (r: bool)
    requires
        pos <= s@.len(),
    ensures
        r == has_val_at(s@, pos as int),
{
    let n = s.unicode_len();
    if n - pos < 3 {
        return false;
    }
    s.get_char(pos) == 'v' && s.get_char(pos + 1) == 'a' && s.get_char(pos + 2) == 'l'
}

/// Whether the keyword `function` stands at `pos`.
pub fn has_function_keyword(s: &str, pos: usize) -> (r: bool)
    requires
        pos <= s@.len(),
    ensures
        r == has_function_at(s@, pos as int),
{
    let n = s.unicode_len();
    if n - pos < 8 {
        return false;
    }
    s.get_char(pos) == 'f' && s.get_char(pos + 1) == 'u' && s.get_char(pos + 2) == 'n'
        && s.get_char(pos + 3) == 'c' && s.get_char(pos + 4) == 't' && s.get_char(pos + 5) == 'i'
        && s.get_char(pos + 6) == 'o' && s.get_char(pos + 7) == 'n'
}

/// Parse one expression starting at `pos`.
pub fn parse_expression_at(s: &str, pos: usize) -> (r: Result<(usize, AST), ParseError>)
    requires
        pos <= s@.len(),
    ensures
        match r {
            Ok((next, a)) => spec_parse_expression(s@, pos as int) == (SpecParse::Found {
                next: next as int,
                val: a.view(),
            }) && pos < next <= s@.len(),
            Err(e) => spec_parse_expression(s@, pos as int) == (SpecParse::<SpecAst>::Fail {
                err: e.view(),
            }),
        },
    decreases s@.len() - pos, 0int,
{
    let n = s.unicode_len();
    let p1 = skip_ws(s, pos);
    if p1 < n && is_dec_digit(s.get_char(p1)) {
        match parse_int_at(s, p1) {
            Ok((next, v)) => Ok((next, AST::IntegerLiteral(v))),
            Err(e) => Err(e),
        }
    } else {
        let q = scan_ident(s, p1);
        if q == p1 {
            return Err(ParseError::NoMatchingForm { pos: p1, attempted: expression_forms_vec() });
        }
        let name = s.substring_char(p1, q);
        if q < n && s.get_char(q) == '(' {
            match parse_app_args_at(s, q + 1) {
                Ok((next, args)) => Ok(
                    (
                        next,
                        AST::App(
                            FunctionApplication { function_name: name.to_owned(), args },
                        ),
                    ),
                ),
                Err(e) => Err(e),
            }
        } else {
            Ok((q, AST::AppArg(name.to_owned())))
        }
    }
}

/// Parse an application's argument list, entered just after `(`.
pub fn parse_app_args_at(s: &str, pos: usize) -> (r: Result<(usize, Vec<AST>), ParseError>)
    requires
        pos <= s@.len(),
    ensures
        match r {
            Ok((next, args)) => spec_parse_app_args(s@, pos as int) == (SpecParse::Found {
                next: next as int,
                val: view_ast_seq(args@),
            }) && pos < next <= s@.len(),
            Err(e) => spec_parse_app_args(s@, pos as int) == (SpecParse::<Seq<SpecAst>>::Fail {
                err: e.view(),
            }),
        },
    decreases s@.len() - pos, 2int,
{
    let n = s.unicode_len();
    let p1 = skip_ws(s, pos);
    if p1 < n && s.get_char(p1) == ')' {
        let args: Vec<AST> = Vec::new();
        proof {
            assert(view_ast_seq(args@) =~= Seq::<SpecAst>::empty());
        }
        Ok((p1 + 1, args))
    } else {
        parse_app_args1_at(s, pos)
    }
}

/// Parse one or more comma-separated argument expressions, then `)`.
pub fn parse_app_args1_at(s: &str, pos: usize) -> (r: Result<(usize, Vec<AST>), ParseError>)
    requires
        pos <= s@.len(),
    ensures
        match r {
            Ok((next, args)) => spec_parse_app_args1(s@, pos as int) == (SpecParse::Found {
                next: next as int,
                val: view_ast_seq(args@),
            }) && pos < next <= s@.len(),
            Err(e) => spec_parse_app_args1(s@, pos as int) == (SpecParse::<Seq<SpecAst>>::Fail {
                err: e.view(),
            }),
        },
    decreases s@.len() - pos, 1int,
{
    let n = s.unicode_len();
    let (q, head) = match parse_expression_at(s, pos) {
        Ok(x) => x,
        Err(e) => {
            return Err(e);
        },
    };
    proof {
        assert(forward_from(pos as int, q as int) == q as int);
    }
    let p2 = skip_ws(s, q);
    if p2 < n && s.get_char(p2) == ',' {
        match parse_app_args1_at(s, p2 + 1) {
            Err(e) => Err(e),
            Ok((next, mut args)) => {
                let ghost rest = args@;
                args.insert(0, head);
                proof {
                    lemma_view_ast_seq(args@);
                    lemma_view_ast_seq(rest);
                    assert(args@ =~= seq![head] + rest);
                    assert forall|i: int| 0 <= i < args@.len() implies view_ast_seq(args@)[i] == (
                    seq![head.view()] + view_ast_seq(rest))[i] by {
                        assert(view_ast_seq(args@)[i] == args@[i].view());
                        if i > 0 {
                            assert(args@[i] == rest[i - 1]);
                            assert(view_ast_seq(rest)[i - 1] == rest[i - 1].view());
                        }
                    }
                    assert(view_ast_seq(args@) =~= seq![head.view()] + view_ast_seq(rest));
                }
                Ok((next, args))
            },
        }
    } else if p2 < n && s.get_char(p2) == ')' {
        let mut args: Vec<AST> = Vec::new();
        args.push(head);
        proof {
            lemma_view_ast_seq(args@);
            assert(view_ast_seq(args@) =~= seq![head.view()]);
        }
        Ok((p2 + 1, args))
    } else {
        Err(ParseError::UnexpectedToken { expected: Token::RParen, pos: p2 })
    }
}

/// Whether some parameter already parsed carries the name `name`.
fn params_contain_name(args: &Vec<FunctionArgument>, name: &String) -> (r: bool)
    ensures
        r == has_arg_named(args_view(args@), name@),
{
    let mut i: usize = 0;
    while i < args.len()
        invariant
            i <= args@.len(),
            forall|j: int| 0 <= j < i ==> args_view(args@)[j].name != name@,
        decreases args@.len() - i,
    {
        if args[i].arg_name == *name {
            proof {
                assert(args_view(args@)[i as int].name == name@);
            }
            return true;
        }
        i = i + 1;
    }
    false
}

/// Parse one or more comma-separated `name: Type` parameters, then `)`.
pub fn parse_params1_at(s: &str, pos: usize) -> (r: Result<
    (usize, Vec<FunctionArgument>),
    ParseError,
>)
    requires
        pos <= s@.len(),
    ensures
        match r {
            Ok((next, ps)) => spec_parse_params1(s@, pos as int) == (SpecParse::Found {
                next: next as int,
                val: args_view(ps@),
            }) && pos < next <= s@.len(),
            Err(e) => spec_parse_params1(s@, pos as int) == (SpecParse::<Seq<SpecArg>>::Fail {
                err: e.view(),
            }),
        },
    decreases s@.len() - pos,
{
    let n = s.unicode_len();
    let p1 = skip_ws(s, pos);
    let q1 = scan_ident(s, p1);
    if q1 == p1 {
        return Err(ParseError::UnexpectedToken { expected: Token::Identifier, pos: p1 });
    }
    let pname = s.substring_char(p1, q1).to_owned();
    let p2 = skip_ws(s, q1);
    if !(p2 < n && s.get_char(p2) == ':') {
        return Err(ParseError::UnexpectedToken { expected: Token::Colon, pos: p2 });
    }
    let p3 = skip_ws(s, p2 + 1);
    let q2 = scan_ident(s, p3);
    if q2 == p3 {
        return Err(ParseError::UnexpectedToken { expected: Token::Identifier, pos: p3 });
    }
    let ptype = s.substring_char(p3, q2).to_owned();
    let p4 = skip_ws(s, q2);
    let head = FunctionArgument { arg_name: pname, arg_type: ptype };
    let ghost gh = head;
    if p4 < n && s.get_char(p4) == ',' {
        match parse_params1_at(s, p4 + 1) {
            Err(e) => Err(e),
            Ok((next, mut ps)) => {
                if params_contain_name(&ps, &head.arg_name) {
                    return Err(
                        ParseError::UnexpectedToken { expected: Token::Identifier, pos: p1 },
                    );
                }
                let ghost rest = ps@;
                ps.insert(0, head);
                proof {
                    assert(ps@ =~= seq![gh] + rest);
                    assert forall|i: int|
                        0 <= i < ps@.len() implies args_view(ps@)[i] == (seq![gh.view()]
                        + args_view(rest))[i] by {
                        if i > 0 {
                            assert(args_view(rest)[i - 1] == rest[i - 1].view());
                        }
                    }
                    assert(args_view(ps@) =~= seq![gh.view()] + args_view(rest));
                }
                Ok((next, ps))
            },
        }
    } else if p4 < n && s.get_char(p4) == ')' {
        let mut ps: Vec<FunctionArgument> = Vec::new();
        ps.push(head);
        proof {
            assert(args_view(ps@) =~= seq![gh.view()]);
        }
        Ok((p4 + 1, ps))
    } else {
        Err(ParseError::UnexpectedToken { expected: Token::RParen, pos: p4 })
    }
}

/// Parse a declaration's parameter list, entered just after `(`.
pub fn parse_params_at(s: &str, pos: usize) -> (r: Result<
    (usize, Vec<FunctionArgument>),
    ParseError,
>)
    requires
        pos <= s@.len(),
    ensures
        match r {
            Ok((next, ps)) => spec_parse_params(s@, pos as int) == (SpecParse::Found {
                next: next as int,
                val: args_view(ps@),
            }) && pos < next <= s@.len(),
            Err(e) => spec_parse_params(s@, pos as int) == (SpecParse::<Seq<SpecArg>>::Fail {
                err: e.view(),
            }),
        },
{
    let n = s.unicode_len();
    let p1 = skip_ws(s, pos);
    if p1 < n && s.get_char(p1) == ')' {
        let ps: Vec<FunctionArgument> = Vec::new();
        proof {
            assert(args_view(ps@) =~= Seq::<SpecArg>::empty());
        }
        Ok((p1 + 1, ps))
    } else {
        parse_params1_at(s, pos)
    }
}

/// Parse a top-level value binding standing at the start of `input`,
/// returning the unconsumed suffix beside the binding. The line terminator
/// that ends the binding is left unconsumed.
pub fn parse_val_binding(input: &str) -> (r: Result<(&str, ValBinding), ParseError>)
    ensures
        match r {
            Ok((rem, vb)) => spec_parse_val_binding(input@) == (SpecParse::Found {
                next: input@.len() - rem@.len(),
                val: vb.view(),
            }) && rem@ == input@.subrange(input@.len() - rem@.len(), input@.len() as int),
            Err(e) => spec_parse_val_binding(input@) == (SpecParse::<SpecAst>::Fail {
                err: e.view(),
            }),
        },
{
    let s = input;
    let n = s.unicode_len();
    if !has_val_keyword(s, 0) {
        return Err(ParseError::UnexpectedToken { expected: Token::KwVal, pos: 0 });
    }
    let p1 = skip_ws(s, 3);
    let q1 = scan_ident(s, p1);
    if q1 == p1 {
        return Err(ParseError::UnexpectedToken { expected: Token::Identifier, pos: p1 });
    }
    let name = s.substring_char(p1, q1).to_owned();
    let p2 = skip_ws(s, q1);
    if !(p2 < n && s.get_char(p2) == ':') {
        return Err(ParseError::UnexpectedToken { expected: Token::Colon, pos: p2 });
    }
    let p3 = skip_ws(s, p2 + 1);
    let q2 = scan_word(s, p3);
    if q2 == p3 {
        return Err(ParseError::UnexpectedToken { expected: Token::Identifier, pos: p3 });
    }
    let p4 = skip_ws(s, q2);
    if !(p4 < n && s.get_char(p4) == '=') {
        return Err(ParseError::UnexpectedToken { expected: Token::Equals, pos: p4 });
    }
    let p5 = skip_ws(s, p4 + 1);
    let (q3, v) = match parse_int_at(s, p5) {
        Ok(x) => x,
        Err(e) => {
            return Err(e);
        },
    };
    let p6 = skip_line_ws(s, q3);
    if !(p6 < n && s.get_char(p6) == '\n') {
        return Err(ParseError::UnexpectedToken { expected: Token::Newline, pos: p6 });
    }
    let vb = ValBinding { val_name: name, val_value: Box::new(AST::IntegerLiteral(v)) };
    let rem = s.substring_char(p6, n);
    Ok((rem, vb))
}

/// Parse a function declaration standing at the start of `input`, returning
/// the unconsumed suffix beside the declaration.
pub fn parse_function(input: &str) -> (r: Result<(&str, Function), ParseError>)
    ensures
        match r {
            Ok((rem, f)) => spec_parse_function(input@) == (SpecParse::Found {
                next: input@.len() - rem@.len(),
                val: f.view(),
            }) && rem@ == input@.subrange(input@.len() - rem@.len(), input@.len() as int),
            Err(e) => spec_parse_function(input@) == (SpecParse::<SpecAst>::Fail {
                err: e.view(),
            }),
        },
{
    let s = input;
    let n = s.unicode_len();
    if !has_function_keyword(s, 0) {
        return Err(ParseError::UnexpectedToken { expected: Token::KwFunction, pos: 0 });
    }
    let p1 = skip_ws(s, 8);
    let q1 = scan_ident(s, p1);
    if q1 == p1 {
        return Err(ParseError::UnexpectedToken { expected: Token::Identifier, pos: p1 });
    }
    let name = s.substring_char(p1, q1).to_owned();
    let p2 = skip_ws(s, q1);
    if !(p2 < n && s.get_char(p2) == '(') {
        return Err(ParseError::UnexpectedToken { expected: Token::LParen, pos: p2 });
    }
    let (q2, ps) = match parse_params_at(s, p2 + 1) {
        Ok(x) => x,
        Err(e) => {
            return Err(e);
        },
    };
    let p3 = skip_ws(s, q2);
    if !(p3 < n && s.get_char(p3) == ':') {
        return Err(ParseError::UnexpectedToken { expected: Token::Colon, pos: p3 });
    }
    let p4 = skip_ws(s, p3 + 1);
    let q3 = scan_word(s, p4);
    if q3 == p4 {
        return Err(ParseError::UnexpectedToken { expected: Token::Identifier, pos: p4 });
    }
    let ret = s.substring_char(p4, q3).to_owned();
    let p5 = skip_ws(s, q3);
    if !(p5 < n && s.get_char(p5) == '{') {
        return Err(ParseError::UnexpectedToken { expected: Token::LBrace, pos: p5 });
    }
    let p6 = skip_ws(s, p5 + 1);
    if p6 < n && s.get_char(p6) == '}' {
        let f = Function { name, args: ps, return_type: ret, body: Box::new(AST::Empty) };
        let rem = s.substring_char(p6 + 1, n);
        return Ok((rem, f));
    }
    let (q4, body) = match parse_expression_at(s, p5 + 1) {
        Ok(x) => x,
        Err(e) => {
            return Err(e);
        },
    };
    let p7 = skip_ws(s, q4);
    if !(p7 < n && s.get_char(p7) == '}') {
        return Err(ParseError::UnexpectedToken { expected: Token::RBrace, pos: p7 });
    }
    let f = Function { name, args: ps, return_type: ret, body: Box::new(body) };
    let rem = s.substring_char(p7 + 1, n);
    Ok((rem, f))
}

/// Parse one expression standing at the start of `input`, returning the
/// unconsumed suffix beside the node.
pub fn parse_expression(input: &str) -> (r: Result<(&str, AST), ParseError>)
    ensures
        match r {
            Ok((rem, a)) => spec_parse_expression(input@, 0) == (SpecParse::Found {
                next: input@.len() - rem@.len(),
                val: a.view(),
            }) && rem@ == input@.subrange(input@.len() - rem@.len(), input@.len() as int),
            Err(e) => spec_parse_expression(input@, 0) == (SpecParse::<SpecAst>::Fail {
                err: e.view(),
            }),
        },
{
    let n = input.unicode_len();
    match parse_expression_at(input, 0) {
        Ok((next, a)) => {
            let rem = input.substring_char(next, n);
            Ok((rem, a))
        },
        Err(e) => Err(e),
    }
}

/// The top-level dispatcher: try the alternative whose leading keyword or
/// shape matches, and return the first successful parse as a syntax-tree
/// node beside the unconsumed suffix. An input that shows none of the
/// top-level shapes — a function declaration, a value binding, or a
/// function application — is rejected with `NoMatchingForm`.
pub fn parse_ast(input: &str) -> (r: Result<(&str, AST), ParseError>)
    ensures
        match r {
            Ok((rem, a)) => spec_parse_ast(input@) == (SpecParse::Found {
                next: input@.len() - rem@.len(),
                val: a.view(),
            }) && rem@ == input@.subrange(input@.len() - rem@.len(), input@.len() as int)
                && wf_ast(a.view()),
            Err(e) => spec_parse_ast(input@) == (SpecParse::<SpecAst>::Fail { err: e.view() }),
        },
{
    proof {
        lemma_parse_ast_wf(input@);
    }
    if has_function_keyword(input, 0) {
        match parse_function(input) {
            Ok((rem, f)) => Ok((rem, AST::FunctionAST(f))),
            Err(e) => Err(e),
        }
    } else if has_val_keyword(input, 0) {
        match parse_val_binding(input) {
            Ok((rem, vb)) => Ok((rem, AST::TopLevelValBinding(vb))),
            Err(e) => Err(e),
        }
    } else {
        let n = input.unicode_len();
        let p1 = skip_ws(input, 0);
        let digit_led = p1 < n && is_dec_digit(input.get_char(p1));
        if !digit_led {
            let q = scan_ident(input, p1);
            if q != p1 && q < n && input.get_char(q) == '(' {
                return parse_expression(input);
            }
        }
        Err(ParseError::NoMatchingForm { pos: p1, attempted: top_level_forms_vec() })
    }
}

} // verus!
