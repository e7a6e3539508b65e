//! The abstract syntax tree produced by the grammar and consumed by the
//! renderer, together with its mathematical model.
//!
//! Every executable node type has a spec-level mirror built from `Seq<char>`
//! and `int`, reached through `view` functions; contracts throughout the
//! crate speak of those mirrors.

use vstd::prelude::*;

verus! {

broadcast use vstd::std_specs::vec::group_vec_axioms, vstd::seq::group_seq_axioms;

/// An RGB color decoded from a `#RRGGBB` hexadecimal triple.
#[derive(Debug, PartialEq, Eq, Structural, Clone, Copy)]
pub struct Color {
    pub red: u8,
    pub green: u8,
    pub blue: u8,
}

/// The primitive types the language knows of.
#[derive(Debug, PartialEq, Eq, Structural, Clone, Copy)]
pub enum Type {
    PrimitiveInt,
    PrimitiveNat,
    PrimitiveString,
    PrimitiveBool,
}

/// A parameter name paired with the text of its type annotation.
#[derive(Debug, PartialEq, Eq, Clone)]
pub struct ArgTypePair {
    pub arg_name: String,
    pub arg_type: String,
}

/// One declared parameter of a function: its name and its type annotation.
#[derive(Debug, PartialEq, Eq, Clone)]
pub struct FunctionArgument {
    pub arg_name: String,
    pub arg_type: String,
}

/// A function declaration: name, parameters, return type and body.
#[derive(Debug, PartialEq, Eq)]
pub struct Function {
    pub name: String,
    pub args: Vec<FunctionArgument>,
    pub return_type: String,
    pub body: Box<AST>,
}

/// A call of a named function on an ordered list of argument expressions.
#[derive(Debug, PartialEq, Eq)]
pub struct FunctionApplication {
    pub function_name: String,
    pub args: Vec<AST>,
}

/// A top-level value binding: `val name: Type = expression`.
#[derive(Debug, PartialEq, Eq)]
pub struct ValBinding {
    pub val_name: String,
    pub val_value: Box<AST>,
}

/// A block of statement-level nodes with an optional trailing result.
#[derive(Debug, PartialEq, Eq)]
pub struct ExpressionBlock {
    pub lines: Vec<AST>,
    pub final_result: Box<Option<AST>>,
}

/// The closed set of syntax-tree node forms.
#[derive(Debug, PartialEq, Eq)]
pub enum AST {
    App(FunctionApplication),
    AppArg(String),
    TopLevelValBinding(ValBinding),
    FunctionAST(Function),
    IntegerLiteral(i128),
    Empty,
    ExpressionAST(ExpressionBlock),
}

/// Spec-level mirror of one function parameter.
pub struct SpecArg {
    pub name: Seq<char>,
    pub ty: Seq<char>,
}

/// Spec-level mirror of the syntax tree, over `Seq<char>` and `int`.
pub enum SpecAst {
    App { name: Seq<char>, args: Seq<SpecAst> },
    AppArg { name: Seq<char> },
    TopLevelValBinding { name: Seq<char>, value: Box<SpecAst> },
    FunctionDecl {
        name: Seq<char>,
        args: Seq<SpecArg>,
        return_type: Seq<char>,
        body: Box<SpecAst>,
    },
    IntegerLiteral { value: int },
    Empty,
    Block { lines: Seq<SpecAst>, final_result: Option<Box<SpecAst>> },
}

impl FunctionArgument {
    pub open spec fn view(&self) -> SpecArg {
        SpecArg { name: self.arg_name@, ty: self.arg_type@ }
    }
}

/// The mathematical values of a sequence of parameters, in order.
pub open spec fn args_view(s: Seq<FunctionArgument>) -> Seq<SpecArg> {
    Seq::new(s.len(), |i: int| s[i].view())
}

/// The mathematical values of a sequence of nodes, in order.
pub open spec fn view_ast_seq(s: Seq<AST>) -> Seq<SpecAst>
    decreases s,
{
    if s.len() == 0 {
        Seq::empty()
    } else {
        view_ast_seq(s.drop_last()).push(s.last().view())
    }
}

/// `view_ast_seq` maps each node of a sequence to its value.
pub proof fn lemma_view_ast_seq(s: Seq<AST>)
    ensures
        view_ast_seq(s).len() == s.len(),
        forall|i: int| 0 <= i < s.len() ==> view_ast_seq(s)[i] == #[trigger] s[i].view(),
    decreases s.len(),
{
    if s.len() > 0 {
        lemma_view_ast_seq(s.drop_last());
        assert forall|i: int| 0 <= i < s.len() implies view_ast_seq(s)[i] == #[trigger] s[i].view() by {
            if i < s.len() - 1 {
                assert(view_ast_seq(s)[i] == view_ast_seq(s.drop_last())[i]);
                assert(s.drop_last()[i] == s[i]);
            } else {
                assert(view_ast_seq(s)[i] == s.last().view());
            }
        }
    }
}

impl AST {
    /// The mathematical value of this node.
    pub open spec fn view(&self) -> SpecAst
        decreases self,
    {
        match self {
            AST::App(app) => SpecAst::App {
                name: app.function_name@,
                args: view_ast_seq(app.args@),
            },
            AST::AppArg(name) => SpecAst::AppArg { name: name@ },
            AST::TopLevelValBinding(vb) => vb.view(),
            AST::FunctionAST(f) => f.view(),
            AST::IntegerLiteral(n) => SpecAst::IntegerLiteral { value: *n as int },
            AST::Empty => SpecAst::Empty,
            AST::ExpressionAST(b) => SpecAst::Block {
                lines: view_ast_seq(b.lines@),
                final_result: match *b.final_result {
                    Some(a) => Some(Box::new(a.view())),
                    None => None,
                },
            },
        }
    }
}

impl Function {
    /// The mathematical value of this declaration, as a syntax-tree node.
    pub open spec fn view(&self) -> SpecAst
        decreases self,
    {
        SpecAst::FunctionDecl {
            name: self.name@,
            args: args_view(self.args@),
            return_type: self.return_type@,
            body: Box::new(self.body.view()),
        }
    }
}

impl ValBinding {
    /// The mathematical value of this binding, as a syntax-tree node.
    pub open spec fn view(&self) -> SpecAst
        decreases self,
    {
        SpecAst::TopLevelValBinding {
            name: self.val_name@,
            value: Box::new(self.val_value.view()),
        }
    }
}

/// No two parameters of a declaration may share a name.
pub open spec fn distinct_arg_names(args: Seq<SpecArg>) -> bool {
    forall|i: int, j: int| 0 <= i < j < args.len() ==> args[i].name != args[j].name
}

/// Well-formedness of a syntax tree: parameter names of a declaration are
/// pairwise distinct, recursively in every child.
pub open spec fn wf_ast(a: SpecAst) -> bool
    decreases a,
{
    match a {
        SpecAst::App { name, args } => wf_ast_seq(args),
        SpecAst::AppArg { name } => true,
        SpecAst::TopLevelValBinding { name, value } => wf_ast(*value),
        SpecAst::FunctionDecl { name, args, return_type, body } => distinct_arg_names(args)
            && wf_ast(*body),
        SpecAst::IntegerLiteral { value } => true,
        SpecAst::Empty => true,
        SpecAst::Block { lines, final_result } => wf_ast_seq(lines) && match final_result {
            Some(b) => wf_ast(*b),
            None => true,
        },
    }
}

/// Well-formedness of every node of a sequence.
pub open spec fn wf_ast_seq(s: Seq<SpecAst>) -> bool
    decreases s,
{
    s.len() == 0 || (wf_ast_seq(s.drop_last()) && wf_ast(s.last()))
}

/// A sequence of nodes is well-formed exactly when each of its nodes is.
pub proof fn lemma_wf_ast_seq(s: Seq<SpecAst>)
    ensures
        wf_ast_seq(s) <==> (forall|i: int| 0 <= i < s.len() ==> #[trigger] wf_ast(s[i])),
    decreases s.len(),
{
    if s.len() > 0 {
        lemma_wf_ast_seq(s.drop_last());
        if wf_ast_seq(s) {
            assert forall|i: int| 0 <= i < s.len() implies #[trigger] wf_ast(s[i]) by {
                if i < s.len() - 1 {
                    assert(wf_ast(s.drop_last()[i]));
                    assert(s.drop_last()[i] == s[i]);
                } else {
                    assert(wf_ast(s.last()));
                }
            }
        }
        if forall|i: int| 0 <= i < s.len() ==> #[trigger] wf_ast(s[i]) {
            assert forall|i: int|
                0 <= i < s.drop_last().len() implies #[trigger] wf_ast(s.drop_last()[i]) by {
                assert(s.drop_last()[i] == s[i]);
                assert(wf_ast(s[i]));
            }
            assert(wf_ast_seq(s.drop_last()));
            assert(wf_ast(s[s.len() - 1]));
            assert(wf_ast(s.last()));
        }
    }
}

} // verus!
