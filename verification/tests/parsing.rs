use idris_transpiler::ast::{AST, Color, Function, FunctionApplication, FunctionArgument, ValBinding};
use idris_transpiler::lex::{
    from_dec, from_hex, hex_color, hex_primary, parse_dec, ParseError, SyntaxForm, Token,
};
use idris_transpiler::parse::{parse_ast, parse_expression, parse_function, parse_val_binding};

#[test]
fn parse_color() {
    assert_eq!(
        hex_color("#2F14DF"),
        Ok((
            "",
            Color {
                red: 47,
                green: 20,
                blue: 223,
            }
        ))
    );
}

#[test]
fn parse_function_test_simple() {
    assert_eq!(
        parse_function("function myFunction(): Unit {}"),
        Ok((
            "",
            Function {
                name: "myFunction".to_string(),
                args: vec![],
                return_type: "Unit".to_string(),
                body: Box::new(AST::Empty),
            }
        ))
    )
}

#[test]
fn parse_ast_test_simple() {
    assert_eq!(
        parse_ast("function myFunction(): Unit {}"),
        Ok((
            "",
            AST::FunctionAST(Function {
                name: "myFunction".to_string(),
                args: vec![],
                return_type: "Unit".to_string(),
                body: Box::new(AST::Empty),
            })
        ))
    )
}

#[test]
fn parse_top_level_val_binding_test() {
    assert_eq!(
        parse_val_binding("val x: Integer = 5\n"),
        Ok((
            "\n",
            ValBinding {
                val_name: "x".to_string(),
                val_value: Box::new(AST::IntegerLiteral(5)),
            }
        ))
    )
}

#[test]
fn parse_integer_literal_test_simple() {
    assert_eq!(parse_dec("15"), Ok(("", 15)))
}

#[test]
fn parse_function_application_simple() {
    assert_eq!(
        parse_ast("myFunction(5, 1)"),
        Ok((
            "",
            AST::App(FunctionApplication {
                function_name: "myFunction".to_string(),
                args: vec![AST::IntegerLiteral(5), AST::IntegerLiteral(1)],
            })
        ))
    )
}

#[test]
fn hex_color_rejects_short_input() {
    assert!(hex_color("#2F14D").is_err());
}

#[test]
fn hex_color_rejects_missing_hash() {
    assert_eq!(
        hex_color("2F14DF"),
        Err(ParseError::UnexpectedToken { expected: Token::Hash, pos: 0 })
    );
}

#[test]
fn hex_color_rejects_bad_digit() {
    assert_eq!(
        hex_color("#2G14DF"),
        Err(ParseError::MalformedHex { pos: 1, token: "2G".to_string() })
    );
}

#[test]
fn hex_primary_leaves_suffix() {
    assert_eq!(hex_primary("2F14DF"), Ok(("14DF", 47)));
}

#[test]
fn from_hex_reads_byte_values() {
    assert_eq!(from_hex("ff"), Ok(255));
    assert_eq!(from_hex("2F"), Ok(47));
    assert_eq!(from_hex("0FF"), Ok(255));
    assert!(from_hex("").is_err());
    assert!(from_hex("100").is_err());
    assert!(from_hex("2x").is_err());
}

#[test]
fn from_dec_reads_whole_text() {
    assert_eq!(from_dec("15"), Ok(15));
    assert_eq!(from_dec("0"), Ok(0));
    assert_eq!(
        from_dec("170141183460469231731687303715884105727"),
        Ok(i128::MAX)
    );
    assert!(from_dec("").is_err());
    assert!(from_dec("1a").is_err());
    assert!(from_dec("170141183460469231731687303715884105728").is_err());
}

#[test]
fn parse_dec_overflow_is_malformed_number() {
    assert_eq!(
        parse_dec("170141183460469231731687303715884105728"),
        Err(ParseError::MalformedNumber {
            pos: 0,
            token: "170141183460469231731687303715884105728".to_string(),
        })
    );
}

#[test]
fn dispatcher_reads_val_prefix_as_binding() {
    assert_eq!(
        parse_ast("val x: Integer = 5\n"),
        Ok((
            "\n",
            AST::TopLevelValBinding(ValBinding {
                val_name: "x".to_string(),
                val_value: Box::new(AST::IntegerLiteral(5)),
            })
        ))
    );
}

#[test]
fn dispatcher_rejects_unknown_form() {
    assert_eq!(
        parse_ast("???"),
        Err(ParseError::NoMatchingForm {
            pos: 0,
            attempted: vec![
                SyntaxForm::FunctionDeclaration,
                SyntaxForm::ValBinding,
                SyntaxForm::FunctionApplication,
            ],
        })
    );
}

#[test]
fn dispatcher_rejects_bare_literal() {
    assert!(matches!(parse_ast("5"), Err(ParseError::NoMatchingForm { .. })));
}

#[test]
fn dispatcher_rejects_bare_identifier() {
    assert!(matches!(
        parse_ast("  someName  "),
        Err(ParseError::NoMatchingForm { pos: 2, attempted: _ })
    ));
}

#[test]
fn binding_annotation_may_be_any_word() {
    assert_eq!(
        parse_val_binding("val x: Maybe[Int] = 5\n"),
        Ok((
            "\n",
            ValBinding {
                val_name: "x".to_string(),
                val_value: Box::new(AST::IntegerLiteral(5)),
            }
        ))
    );
}

#[test]
fn return_type_may_be_any_word() {
    assert_eq!(
        parse_function("function f(): IO() {}"),
        Ok((
            "",
            Function {
                name: "f".to_string(),
                args: vec![],
                return_type: "IO()".to_string(),
                body: Box::new(AST::Empty),
            }
        ))
    );
}

#[test]
fn function_with_parameters_parses_pairs() {
    assert_eq!(
        parse_function("function add(x: Integer, y: Integer): Integer { plus(x, y) }"),
        Ok((
            "",
            Function {
                name: "add".to_string(),
                args: vec![
                    FunctionArgument {
                        arg_name: "x".to_string(),
                        arg_type: "Integer".to_string(),
                    },
                    FunctionArgument {
                        arg_name: "y".to_string(),
                        arg_type: "Integer".to_string(),
                    },
                ],
                return_type: "Integer".to_string(),
                body: Box::new(AST::App(FunctionApplication {
                    function_name: "plus".to_string(),
                    args: vec![AST::AppArg("x".to_string()), AST::AppArg("y".to_string())],
                })),
            }
        ))
    );
}

#[test]
fn function_with_duplicate_parameter_names_is_rejected() {
    assert!(matches!(
        parse_function("function f(x: A, x: B): C {}"),
        Err(ParseError::UnexpectedToken { expected: Token::Identifier, pos: _ })
    ));
}

#[test]
fn function_missing_closing_brace_is_rejected() {
    assert!(matches!(
        parse_function("function f(): Unit { 5 "),
        Err(ParseError::UnexpectedToken { expected: Token::RBrace, pos: _ })
    ));
}

#[test]
fn extra_whitespace_leaves_the_tree_unchanged() {
    let compact = parse_ast("function myFunction(): Unit {}").unwrap().1;
    let spaced = parse_ast("function  myFunction (  ) :  Unit  { }").unwrap().1;
    assert_eq!(compact, spaced);

    let compact_binding = parse_val_binding("val x: Integer = 5\n").unwrap().1;
    let spaced_binding = parse_val_binding("val  x :  Integer  =  5 \n").unwrap().1;
    assert_eq!(compact_binding, spaced_binding);

    let compact_app = parse_expression("plus(1, 2)").unwrap().1;
    let spaced_app = parse_expression("plus( 1 ,  2 )").unwrap().1;
    assert_eq!(compact_app, spaced_app);
}

#[test]
fn malformed_literal_fails_binding_with_malformed_number() {
    assert_eq!(
        parse_val_binding("val x: Integer = \n"),
        Err(ParseError::MalformedNumber { pos: 18, token: String::new() })
    );
    assert!(matches!(
        parse_ast("val x: Integer = 99999999999999999999999999999999999999999\n"),
        Err(ParseError::MalformedNumber { .. })
    ));
}

#[test]
fn binding_without_terminator_is_rejected() {
    assert!(matches!(
        parse_val_binding("val x: Integer = 5"),
        Err(ParseError::UnexpectedToken { expected: Token::Newline, pos: _ })
    ));
}

#[test]
fn empty_argument_list_parses_as_no_arguments() {
    assert_eq!(
        parse_expression("f()"),
        Ok((
            "",
            AST::App(FunctionApplication {
                function_name: "f".to_string(),
                args: vec![],
            })
        ))
    );
}

#[test]
fn bare_identifier_parses_as_argument_reference() {
    assert_eq!(parse_expression("someName"), Ok(("", AST::AppArg("someName".to_string()))));
}

#[test]
fn nested_applications_parse_recursively() {
    assert_eq!(
        parse_expression("f(g(1), x)"),
        Ok((
            "",
            AST::App(FunctionApplication {
                function_name: "f".to_string(),
                args: vec![
                    AST::App(FunctionApplication {
                        function_name: "g".to_string(),
                        args: vec![AST::IntegerLiteral(1)],
                    }),
                    AST::AppArg("x".to_string()),
                ],
            })
        ))
    );
}
