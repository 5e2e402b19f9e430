use piko::ast::BinaryOp;
use piko::ast::Expression;
use piko::ast::Parseable;
use piko::ast::PikoAst;
use piko::error::VMError;
use piko::parser::Parser;
use piko::vm::EVAL_FUEL;
use piko::vm::VM;

fn parse_err(line: &str) -> String {
    match Parser::parse_expression(line) {
        Err(e) => e.message(),
        Ok(_) => panic!("expected a parse error for {:?}", line),
    }
}

#[test]
fn empty_input_is_a_parse_error() {
    assert_eq!(parse_err(""), "Parse error: Empty input");
    assert_eq!(parse_err("   "), "Parse error: Empty input");
    assert_eq!(parse_err("# only a comment"), "Parse error: Empty input");
}

#[test]
fn quoted_text_is_a_literal_unconditionally() {
    let e = Parser::parse_expression("\"x\"").unwrap();
    assert!(matches!(e, Expression::Literal(ref s) if s == "x"));
    let e = Parser::parse_expression("\"Hello there\"").unwrap();
    assert!(matches!(e, Expression::Literal(ref s) if s == "Hello there"));
}

#[test]
fn lowercase_run_is_a_variable() {
    let e = Parser::parse_expression("xyz").unwrap();
    assert!(matches!(e, Expression::Variable(ref s) if s == "xyz"));
}

#[test]
fn unrecognised_bare_text_is_a_literal() {
    let e = Parser::parse_expression("Hello42!").unwrap();
    assert!(matches!(e, Expression::Literal(ref s) if s == "Hello42!"));
}

#[test]
fn quoted_atom_in_a_list_follows_the_variable_rule() {
    // a lowercase quoted atom inside a list reads as a variable, which
    // unbound evaluates to its own text
    let e = Parser::parse_expression("(o \"hello\")").unwrap();
    match e {
        Expression::Output(inner) => {
            assert!(matches!(*inner, Expression::Variable(ref s) if s == "hello"))
        }
        other => panic!("expected an output node, got {:?}", other),
    }
}

#[test]
fn binary_operators_parse_with_their_symbols() {
    let e = Parser::parse_expression("(+ \"a\" \"b\")").unwrap();
    match e {
        Expression::BinaryOp(_, op, _) => assert_eq!(op, BinaryOp::Add),
        other => panic!("expected a binary node, got {:?}", other),
    }
    let e = Parser::parse_expression("(<= x y)").unwrap();
    match e {
        Expression::BinaryOp(_, op, _) => assert_eq!(op, BinaryOp::Le),
        other => panic!("expected a binary node, got {:?}", other),
    }
}

#[test]
fn operator_arities_are_enforced() {
    assert_eq!(parse_err("(o)"), "Parse error: o expects 1 argument");
    assert_eq!(parse_err("(i)"), "Parse error: i expects 1 argument");
    assert_eq!(parse_err("(a x)"), "Parse error: a expects 2 arguments");
    assert_eq!(parse_err("(r)"), "Parse error: r expects 1 argument");
    assert_eq!(parse_err("(c)"), "Parse error: c expects at least 1 argument");
    assert_eq!(parse_err("(f g x)"), "Parse error: f expects at least 3 arguments");
    assert_eq!(parse_err("(l)"), "Parse error: l expects at least 1 argument");
    assert_eq!(parse_err("(b x)"), "Parse error: b expects no arguments");
    assert_eq!(
        parse_err("(+ \"a\")"),
        "Parse error: Binary operator expects 2 arguments"
    );
}

#[test]
fn name_positions_demand_symbols() {
    assert_eq!(parse_err("(i \"x\")"), "Parse error: i expects a variable name");
    assert_eq!(parse_err("(a \"x\" y)"), "Parse error: a expects a variable name");
    assert_eq!(parse_err("(c \"g\")"), "Parse error: c expects a function name");
    assert_eq!(parse_err("(f \"g\" x y)"), "Parse error: f expects a function name");
}

#[test]
fn unknown_operators_are_reported() {
    assert_eq!(parse_err("(q x)"), "Parse error: Unknown operator: q");
    assert_eq!(parse_err("(ox x)"), "Parse error: Unknown operator: ox");
}

#[test]
fn chain_cursor_errors_are_reported() {
    assert_eq!(
        parse_err("(ia x)"),
        "Parse error: Missing arguments for a in chain"
    );
    assert_eq!(parse_err("(oi)"), "Parse error: Missing argument for i in chain");
    assert_eq!(
        parse_err("(ol x)"),
        "Parse error: Invalid chain operator: l"
    );
}

#[test]
fn unbalanced_expressions_are_reported() {
    assert_eq!(
        parse_err("(o (a x \"y\")"),
        "Parse error: Invalid S-expression: unbalanced parentheses"
    );
    assert_eq!(
        parse_err("(o \"unclosed)"),
        "Parse error: Invalid S-expression: unterminated string literal"
    );
}

#[test]
fn comments_are_stripped_outside_strings() {
    let mut vm = VM::new();
    let e = Parser::parse_expression("(o \"a#b\") # trailing note").unwrap();
    assert_eq!(vm.evaluate_expression(&e, EVAL_FUEL).unwrap(), "a#b");
}

#[test]
fn loop_with_multiple_body_expressions_wraps_a_block() {
    let e = Parser::parse_expression("(l (< x \"c\") (a x (+ x \"a\")) (o x))").unwrap();
    match e {
        Expression::Loop(Some(_), body) => assert!(matches!(*body, Expression::Block(_))),
        other => panic!("expected a conditional loop, got {:?}", other),
    }
}

#[test]
fn function_parses_name_params_and_body() {
    let e = Parser::parse_expression("(f add x y (+ x y))").unwrap();
    match e {
        Expression::Function(name, params, _) => {
            assert_eq!(name, "add");
            assert_eq!(params, vec![String::from("x"), String::from("y")]);
        }
        other => panic!("expected a function definition, got {:?}", other),
    }
}

#[test]
fn statements_split_on_balanced_parens_and_newlines() {
    let pieces = VM::split_statements("(o \"a\")(o \"b\")\nplain\n(a x (+ x \"a\"))");
    assert_eq!(
        pieces,
        vec![
            String::from("(o \"a\")"),
            String::from("(o \"b\")"),
            String::from("plain"),
            String::from("(a x (+ x \"a\"))"),
        ]
    );
}

#[test]
fn statements_ignore_parens_inside_strings() {
    let pieces = VM::split_statements("(o \")\")");
    assert_eq!(pieces, vec![String::from("(o \")\")")]);
}

#[test]
fn error_messages_name_their_kind() {
    assert_eq!(
        VMError::CompileError(String::from("x")).message(),
        "Compile error: x"
    );
    assert_eq!(
        VMError::ExecutionError(String::from("x")).message(),
        "Execution error: x"
    );
    assert_eq!(VMError::StackUnderflow.message(), "Stack underflow");
    assert_eq!(
        VMError::UnknownFunction(String::from("g")).message(),
        "Unknown function: g"
    );
}

#[test]
fn blank_lines_are_skipped_in_programs() {
    let mut vm = VM::new();
    let ast = PikoAst::parse("(o \"a\")\n\n(o \"b\")").unwrap();
    assert!(vm.execute(ast).is_ok());
    assert_eq!(vm.get_output(), "a\nb\n");
}

#[test]
fn comment_only_lines_fail_inside_programs() {
    // a comment-only line strips to nothing and is rejected as a line
    let err = PikoAst::parse("(o \"a\")\n# note").unwrap_err();
    assert_eq!(err.message(), "Parse error: Empty input");
}

#[test]
fn text_after_the_closing_paren_is_a_literal() {
    let e = Parser::parse_expression("(o x) y").unwrap();
    assert!(matches!(e, Expression::Literal(ref s) if s == "(o x) y"));
}

#[test]
fn trailing_paren_is_reported() {
    assert_eq!(
        parse_err("(o x))"),
        "Parse error: Invalid S-expression: unexpected text after expression"
    );
}
