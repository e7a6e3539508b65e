//! The renderer: a structural, recursive pass from a syntax tree to its
//! target-syntax text, with no failure path. The target form of every node
//! is fixed by `spec_render`; the executable functions are proved to emit
//! exactly that text.
//!
//! Chosen target forms: an application is the function name with each
//! argument rendered in parentheses after a space; a binding is
//! `name = value`; a declaration is a type signature line `name : A -> R`
//! followed by a defining equation `name a = body`; an intentionally absent
//! body renders as the unit marker `()`.

use vstd::prelude::*;
use crate::ast::{AST, SpecArg, SpecAst, lemma_view_ast_seq, view_ast_seq};
use crate::lex::{digit_char_of, int_to_dec};

verus! {

broadcast use vstd::std_specs::vec::group_vec_axioms, vstd::seq::group_seq_axioms;

/// The decimal text of an integer, with a leading minus sign when negative.
pub open spec fn spec_render_int(v: int) -> Seq<char> {
    if v < 0 {
        seq!['-'] + int_to_dec((-v) as nat)
    } else {
        int_to_dec(v as nat)
    }
}

/// The target text of one node.
pub open spec fn spec_render(a: SpecAst) -> Seq<char>
    decreases a, 1int,
{
    match a {
        SpecAst::IntegerLiteral { value } => spec_render_int(value),
        SpecAst::AppArg { name } => name,
        SpecAst::App { name, args } => name + spec_render_args(args),
        SpecAst::TopLevelValBinding { name, value } => name + " = "@ + spec_render(*value)
            + "\n"@,
        SpecAst::FunctionDecl { name, args, return_type, body } => name + " : "@
            + spec_render_arg_types(args) + return_type + "\n"@ + name + spec_render_arg_names(
            args,
        ) + " = "@ + spec_render(*body) + "\n"@,
        SpecAst::Empty => "()"@,
        SpecAst::Block { lines, final_result } => spec_render_lines(lines) + match final_result {
            Some(b) => spec_render(*b),
            None => Seq::empty(),
        },
    }
}

/// The target text of an application's argument list: each argument in
/// parentheses, after a space.
pub open spec fn spec_render_args(args: Seq<SpecAst>) -> Seq<char>
    decreases args, 0int,
{
    if args.len() == 0 {
        Seq::empty()
    } else {
        spec_render_args(args.drop_last()) + " ("@ + spec_render(args.last()) + ")"@
    }
}

/// The target text of a block's statement lines: each on a line of its own.
pub open spec fn spec_render_lines(lines: Seq<SpecAst>) -> Seq<char>
    decreases lines, 0int,
{
    if lines.len() == 0 {
        Seq::empty()
    } else {
        spec_render_lines(lines.drop_last()) + spec_render(lines.last()) + "\n"@
    }
}

/// The parameter types of a signature line, each followed by an arrow.
pub open spec fn spec_render_arg_types(args: Seq<SpecArg>) -> Seq<char>
    decreases args,
{
    if args.len() == 0 {
        Seq::empty()
    } else {
        spec_render_arg_types(args.drop_last()) + args.last().ty + " -> "@
    }
}

/// The parameter names of a defining equation, each after a space.
pub open spec fn spec_render_arg_names(args: Seq<SpecArg>) -> Seq<char>
    decreases args,
{
    if args.len() == 0 {
        Seq::empty()
    } else {
        spec_render_arg_names(args.drop_last()) + " "@ + args.last().name
    }
}

/// The one-character text of a decimal digit value.
fn digit_str(d: u128) -> (r: &'static str)
    requires
        d < 10,
    ensures
        r@ =~= seq![digit_char_of(d as nat)],
{
    if d == 0 {
        proof {
            reveal_strlit("0");
        }
        "0"
    } else if d == 1 {
        proof {
            reveal_strlit("1");
        }
        "1"
    } else if d == 2 {
        proof {
            reveal_strlit("2");
        }
        "2"
    } else if d == 3 {
        proof {
            reveal_strlit("3");
        }
        "3"
    } else if d == 4 {
        proof {
            reveal_strlit("4");
        }
        "4"
    } else if d == 5 {
        proof {
            reveal_strlit("5");
        }
        "5"
    } else if d == 6 {
        proof {
            reveal_strlit("6");
        }
        "6"
    } else if d == 7 {
        proof {
            reveal_strlit("7");
        }
        "7"
    } else if d == 8 {
        proof {
            reveal_strlit("8");
        }
        "8"
    } else {
        proof {
            reveal_strlit("9");
        }
        "9"
    }
}

/// The decimal text of a natural number.
fn render_nat(m: u128) -> (r: String)
    ensures
        r@ == int_to_dec(m as nat),
    decreases m,
{
    if m < 10 {
        digit_str(m).to_owned()
    } else {
        let mut r = render_nat(m / 10);
        r.append(digit_str(m % 10));
        proof {
            assert(r@ =~= int_to_dec((m / 10) as nat).push(digit_char_of((m % 10) as nat)));
        }
        r
    }
}

/// The decimal text of an integer literal's value.
pub fn render_integer(n: i128) -> (r: String)
    ensures
        r@ == spec_render_int(n as int),
{
    if n >= 0 {
        let r = render_nat(n as u128);
        r
    } else {
        let m: u128 = ((-(n + 1)) as u128) + 1;
        proof {
            assert(m as int == -(n as int));
        }
        let mut r = String::new();
        proof {
            reveal_strlit("-");
        }
        r.append("-");
        let digits = render_nat(m);
        r.append(digits.as_str());
        proof {
            assert("-"@ =~= seq!['-']);
            assert(r@ =~= seq!['-'] + int_to_dec((-(n as int)) as nat));
        }
        r
    }
}

/// Render a function application: the function name followed by each
/// argument's rendering in parentheses.
pub fn pretty_print_function_application_as_idris(function_name: &str, arguments: &[AST]) -> (r:
    String)
    ensures
        r@ == function_name@ + spec_render_args(view_ast_seq(arguments@)),
    decreases arguments@, 0int,
{
    let mut result_str = function_name.to_owned();
    let n = arguments.len();
    let mut i: usize = 0;
    proof {
        lemma_view_ast_seq(arguments@);
        assert(view_ast_seq(arguments@).subrange(0, 0) =~= Seq::<SpecAst>::empty());
        assert(result_str@ =~= function_name@ + spec_render_args(Seq::<SpecAst>::empty()));
    }
    while i < n
        invariant
            i <= n,
            n == arguments@.len(),
            result_str@ == function_name@ + spec_render_args(
                view_ast_seq(arguments@).subrange(0, i as int),
            ),
        decreases n - i,
    {
        proof {
            lemma_view_ast_seq(arguments@);
        }
        result_str.append(" (");
        let rendered = pretty_print_ast(&arguments[i]);
        result_str.append(rendered.as_str());
        result_str.append(")");
        proof {
            let vs = view_ast_seq(arguments@);
            assert(vs.subrange(0, i as int + 1).drop_last() =~= vs.subrange(0, i as int));
            assert(vs.subrange(0, i as int + 1).last() == vs[i as int]);
            assert(result_str@ =~= function_name@ + spec_render_args(
                vs.subrange(0, i as int + 1),
            ));
        }
        i = i + 1;
    }
    proof {
        assert(view_ast_seq(arguments@).subrange(0, n as int) =~= view_ast_seq(arguments@));
    }
    result_str
}

/// Render one syntax-tree node, recursively, into its target-syntax text.
#[verifier::loop_isolation(false)]
pub fn pretty_print_ast(ast: &AST) -> (r: String)
    ensures
        r@ == spec_render(ast.view()),
    decreases ast, 1int,
{
    match ast {
        AST::IntegerLiteral(n) => render_integer(*n),
        AST::AppArg(name) => name.clone(),
        AST::App(app) => pretty_print_function_application_as_idris(
            app.function_name.as_str(),
            app.args.as_slice(),
        ),
        AST::TopLevelValBinding(vb) => {
            let mut r = vb.val_name.clone();
            r.append(" = ");
            let value_text = pretty_print_ast(&vb.val_value);
            r.append(value_text.as_str());
            r.append("\n");
            proof {
                assert(value_text@ == spec_render(vb.val_value.view()));
                assert(ast.view() == vb.view());
                assert(vb.view() == (SpecAst::TopLevelValBinding {
                    name: vb.val_name@,
                    value: Box::new(vb.val_value.view()),
                }));
                assert(r@ =~= spec_render(ast.view()));
            }
            r
        },
        AST::FunctionAST(f) => {
            let mut r = f.name.clone();
            r.append(" : ");
            let mut k: usize = 0;
            let na = f.args.len();
            proof {
                assert(crate::ast::args_view(f.args@).subrange(0, 0) =~= Seq::<SpecArg>::empty());
                assert(r@ =~= f.name@ + " : "@ + spec_render_arg_types(
                    Seq::<SpecArg>::empty(),
                ));
            }
            while k < na
                invariant
                    k <= na,
                    na == f.args@.len(),
                    r@ == f.name@ + " : "@ + spec_render_arg_types(
                        crate::ast::args_view(f.args@).subrange(0, k as int),
                    ),
                decreases na - k,
            {
                r.append(f.args[k].arg_type.as_str());
                r.append(" -> ");
                proof {
                    let vs = crate::ast::args_view(f.args@);
                    assert(vs.subrange(0, k as int + 1).drop_last() =~= vs.subrange(0, k as int));
                    assert(vs.subrange(0, k as int + 1).last() == vs[k as int]);
                    assert(r@ =~= f.name@ + " : "@ + spec_render_arg_types(
                        vs.subrange(0, k as int + 1),
                    ));
                }
                k = k + 1;
            }
            proof {
                let vs = crate::ast::args_view(f.args@);
                assert(vs.subrange(0, na as int) =~= vs);
            }
            r.append(f.return_type.as_str());
            r.append("\n");
            r.append(f.name.as_str());
            let mut k2: usize = 0;
            let ghost mid = r@;
            proof {
                assert(crate::ast::args_view(f.args@).subrange(0, 0) =~= Seq::<SpecArg>::empty());
                assert(r@ =~= mid + spec_render_arg_names(Seq::<SpecArg>::empty()));
            }
            while k2 < na
                invariant
                    k2 <= na,
                    na == f.args@.len(),
                    r@ == mid + spec_render_arg_names(
                        crate::ast::args_view(f.args@).subrange(0, k2 as int),
                    ),
                decreases na - k2,
            {
                r.append(" ");
                r.append(f.args[k2].arg_name.as_str());
                proof {
                    let vs = crate::ast::args_view(f.args@);
                    assert(vs.subrange(0, k2 as int + 1).drop_last() =~= vs.subrange(
                        0,
                        k2 as int,
                    ));
                    assert(vs.subrange(0, k2 as int + 1).last() == vs[k2 as int]);
                    assert(r@ =~= mid + spec_render_arg_names(vs.subrange(0, k2 as int + 1)));
                }
                k2 = k2 + 1;
            }
            proof {
                let vs = crate::ast::args_view(f.args@);
                assert(vs.subrange(0, na as int) =~= vs);
            }
            r.append(" = ");
            let body_text = pretty_print_ast(&f.body);
            r.append(body_text.as_str());
            r.append("\n");
            proof {
                let vs = crate::ast::args_view(f.args@);
                assert(r@ =~= mid + spec_render_arg_names(vs) + " = "@ + body_text@ + "\n"@);
                assert(spec_render(f.view()) == f.name@ + " : "@ + spec_render_arg_types(vs)
                    + f.return_type@ + "\n"@ + f.name@ + spec_render_arg_names(vs) + " = "@
                    + spec_render(f.body.view()) + "\n"@);
                assert(r@ =~= spec_render(f.view()));
            }
            r
        },
        AST::Empty => "()".to_owned(),
        AST::ExpressionAST(b) => {
            let mut r = String::new();
            let n = b.lines.len();
            let mut i: usize = 0;
            proof {
                lemma_view_ast_seq(b.lines@);
                assert(view_ast_seq(b.lines@).subrange(0, 0) =~= Seq::<SpecAst>::empty());
                assert(r@ =~= spec_render_lines(Seq::<SpecAst>::empty()));
            }
            while i < n
                invariant
                    i <= n,
                    n == b.lines@.len(),
                    r@ == spec_render_lines(view_ast_seq(b.lines@).subrange(0, i as int)),
                decreases n - i,
            {
                proof {
                    lemma_view_ast_seq(b.lines@);
                    assert(decreases_to!(*ast => *b));
                    assert(decreases_to!(*b => b.lines));
                    assert(decreases_to!(b.lines => b.lines[i as int]));
                }
                let line_text = pretty_print_ast(&b.lines[i]);
                r.append(line_text.as_str());
                r.append("\n");
                proof {
                    let vs = view_ast_seq(b.lines@);
                    assert(vs.subrange(0, i as int + 1).drop_last() =~= vs.subrange(0, i as int));
                    assert(vs.subrange(0, i as int + 1).last() == vs[i as int]);
                    assert(r@ =~= spec_render_lines(vs.subrange(0, i as int + 1)));
                }
                i = i + 1;
            }
            proof {
                assert(view_ast_seq(b.lines@).subrange(0, n as int) =~= view_ast_seq(b.lines@));
            }
            match &*b.final_result {
                Some(tail) => {
                    let tail_text = pretty_print_ast(tail);
                    r.append(tail_text.as_str());
                    proof {
                        assert(r@ == spec_render(ast.view()));
                    }
                    r
                },
                None => {
                    proof {
                        assert(r@ =~= spec_render(ast.view()));
                    }
                    r
                },
            }
        },
    }
}

} // verus!
