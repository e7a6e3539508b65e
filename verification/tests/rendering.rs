use idris_transpiler::ast::{
    AST, ExpressionBlock, Function, FunctionApplication, FunctionArgument, ValBinding,
};
use idris_transpiler::parse::parse_expression;
use idris_transpiler::render::{
    pretty_print_ast, pretty_print_function_application_as_idris, render_integer,
};
use idris_transpiler::transform_to_idris;

#[test]
fn integer_literals_render_as_decimal_text() {
    assert_eq!(render_integer(0), "0");
    assert_eq!(render_integer(12345), "12345");
    assert_eq!(render_integer(-7), "-7");
    assert_eq!(render_integer(i128::MAX), "170141183460469231731687303715884105727");
    assert_eq!(render_integer(i128::MIN), "-170141183460469231731687303715884105728");
}

#[test]
fn literal_round_trips_through_render_and_parse() {
    for n in [0i128, 1, 9, 10, 15, 4096, 170141183460469231731687303715884105727] {
        let text = pretty_print_ast(&AST::IntegerLiteral(n));
        assert_eq!(parse_expression(&text), Ok(("", AST::IntegerLiteral(n))));
    }
}

#[test]
fn application_renders_name_then_arguments() {
    let args = vec![AST::IntegerLiteral(5), AST::IntegerLiteral(1)];
    assert_eq!(
        pretty_print_function_application_as_idris("myFunction", &args),
        "myFunction (5) (1)"
    );
}

#[test]
fn argument_reference_renders_verbatim() {
    assert_eq!(pretty_print_ast(&AST::AppArg("x".to_string())), "x");
}

#[test]
fn binding_renders_as_equation() {
    let tree = AST::TopLevelValBinding(ValBinding {
        val_name: "x".to_string(),
        val_value: Box::new(AST::IntegerLiteral(5)),
    });
    assert_eq!(pretty_print_ast(&tree), "x = 5\n");
}

#[test]
fn declaration_renders_signature_and_equation() {
    let tree = AST::FunctionAST(Function {
        name: "f".to_string(),
        args: vec![FunctionArgument {
            arg_name: "x".to_string(),
            arg_type: "Integer".to_string(),
        }],
        return_type: "Integer".to_string(),
        body: Box::new(AST::Empty),
    });
    assert_eq!(pretty_print_ast(&tree), "f : Integer -> Integer\nf x = ()\n");
}

#[test]
fn block_renders_lines_then_result() {
    let tree = AST::ExpressionAST(ExpressionBlock {
        lines: vec![AST::IntegerLiteral(1)],
        final_result: Box::new(Some(AST::AppArg("x".to_string()))),
    });
    assert_eq!(pretty_print_ast(&tree), "1\nx");
}

#[test]
fn transform_parses_then_renders() {
    assert_eq!(
        transform_to_idris("val x: Integer = 5\n"),
        Ok(("\n", "x = 5\n".to_string()))
    );
    assert_eq!(
        transform_to_idris("function myFunction(): Unit {}"),
        Ok(("", "myFunction : Unit\nmyFunction = ()\n".to_string()))
    );
    assert_eq!(
        transform_to_idris("myFunction(5, 1)"),
        Ok(("", "myFunction (5) (1)".to_string()))
    );
    assert!(transform_to_idris("val x: Integer = \n").is_err());
    assert!(transform_to_idris("5").is_err());
    assert!(transform_to_idris("someName").is_err());
}
