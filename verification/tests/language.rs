use piko::ast::Atom;
use piko::ast::Expression;
use piko::ast::Parseable;
use piko::ast::PikoAst;
use piko::ast::Statement;
use piko::error::VMError;
use piko::parser::Parser;
use piko::vm::EVAL_FUEL;
use piko::vm::VM;

fn eval_line(vm: &mut VM, line: &str) -> Result<String, VMError> {
    let expr = Parser::parse_expression(line)?;
    vm.evaluate_expression(&expr, EVAL_FUEL)
}

#[test]
fn output_writes_line_and_returns_value() {
    let mut vm = VM::new();
    let value = eval_line(&mut vm, "(o \"hello\")").unwrap();
    assert_eq!(value, "hello");
    assert_eq!(vm.get_output(), "hello\n");
    // the buffer is drained
    assert_eq!(vm.get_output(), "");
}

#[test]
fn assignment_binds_and_output_reads_it() {
    let mut vm = VM::new();
    assert_eq!(eval_line(&mut vm, "(a x \"world\")").unwrap(), "world");
    assert_eq!(eval_line(&mut vm, "(o x)").unwrap(), "world");
    assert_eq!(vm.get_output(), "world\n");
}

#[test]
fn function_call_returns_and_leaves_no_binding() {
    let mut vm = VM::new();
    let defined = eval_line(&mut vm, "(f test x (r x))").unwrap();
    assert_eq!(defined, "function_test");
    assert_eq!(eval_line(&mut vm, "(c test \"hi\")").unwrap(), "hi");
    // x is unbound again afterwards: it evaluates to its own name
    assert_eq!(eval_line(&mut vm, "x").unwrap(), "x");
}

#[test]
fn call_scope_is_copy_on_call() {
    let mut vm = VM::new();
    eval_line(&mut vm, "(a x \"outer\")").unwrap();
    eval_line(&mut vm, "(f clobber y (a x y))").unwrap();
    assert_eq!(eval_line(&mut vm, "(c clobber \"inner\")").unwrap(), "inner");
    // the caller's binding is restored
    assert_eq!(eval_line(&mut vm, "x").unwrap(), "outer");
}

#[test]
fn functions_resolve_at_call_time() {
    let mut vm = VM::new();
    // `down` names `helper`, which is only defined afterwards
    eval_line(&mut vm, "(f down n (c helper n))").unwrap();
    eval_line(&mut vm, "(f helper n (r n))").unwrap();
    assert_eq!(eval_line(&mut vm, "(c down \"c\")").unwrap(), "c");
}

#[test]
fn conditional_loop_terminates() {
    let mut vm = VM::new();
    eval_line(&mut vm, "(a x \"a\")").unwrap();
    let done = eval_line(&mut vm, "(l (< x \"c\") (a x (+ x \"a\")))").unwrap();
    assert_eq!(done, "loop_completed");
    assert_eq!(eval_line(&mut vm, "x").unwrap(), "c");
}

#[test]
fn unconditional_loop_stops_on_break() {
    let mut vm = VM::new();
    let done = eval_line(&mut vm, "(l (b))").unwrap();
    assert_eq!(done, "loop_completed");
}

#[test]
fn unbound_variable_evaluates_to_its_name() {
    let mut vm = VM::new();
    assert_eq!(eval_line(&mut vm, "zz").unwrap(), "zz");
}

#[test]
fn unknown_function_is_a_runtime_error_naming_it() {
    let mut vm = VM::new();
    let err = eval_line(&mut vm, "(c nosuch)").unwrap_err();
    assert_eq!(err.message(), "Runtime error: Unknown function: nosuch");
}

#[test]
fn arity_mismatch_states_expected_and_actual() {
    let mut vm = VM::new();
    eval_line(&mut vm, "(f test x (r x))").unwrap();
    let err = eval_line(&mut vm, "(c test \"p\" \"q\")").unwrap_err();
    assert_eq!(
        err.message(),
        "Runtime error: Function test expects 1 arguments, got 2"
    );
}

#[test]
fn comparisons_encode_booleans() {
    let mut vm = VM::new();
    assert_eq!(eval_line(&mut vm, "(< \"a\" \"b\")").unwrap(), "b");
    assert_eq!(eval_line(&mut vm, "(> \"a\" \"b\")").unwrap(), "a");
    assert_eq!(eval_line(&mut vm, "(== \"aa\" \"aa\")").unwrap(), "b");
    assert_eq!(eval_line(&mut vm, "(!= \"aa\" \"aa\")").unwrap(), "a");
    assert_eq!(eval_line(&mut vm, "(<= \"z\" \"z\")").unwrap(), "b");
    assert_eq!(eval_line(&mut vm, "(>= \"y\" \"z\")").unwrap(), "a");
}

#[test]
fn arithmetic_through_the_language() {
    let mut vm = VM::new();
    assert_eq!(eval_line(&mut vm, "(+ \"a\" \"b\")").unwrap(), "c");
    assert_eq!(eval_line(&mut vm, "(- \"c\" \"c\")").unwrap(), "a");
    assert_eq!(eval_line(&mut vm, "(* \"b\" \"c\")").unwrap(), "f");
    assert_eq!(eval_line(&mut vm, "(/ \"f\" \"c\")").unwrap(), "b");
}

#[test]
fn arithmetic_on_non_numeral_is_invalid_operation() {
    let mut vm = VM::new();
    let err = eval_line(&mut vm, "(+ \"A B\" \"a\")").unwrap_err();
    assert_eq!(
        err.message(),
        "Invalid operation: operands must be lowercase strings"
    );
}

#[test]
fn input_reads_queued_line() {
    let mut vm = VM::new();
    vm.push_input(String::from("hello"));
    assert_eq!(eval_line(&mut vm, "(i x)").unwrap(), "hello");
    assert_eq!(eval_line(&mut vm, "x").unwrap(), "hello");
}

#[test]
fn input_trims_and_reads_empty_on_exhausted_queue() {
    let mut vm = VM::new();
    vm.push_input(String::from("  padded \n"));
    assert_eq!(eval_line(&mut vm, "(i x)").unwrap(), "padded");
    assert_eq!(eval_line(&mut vm, "(i y)").unwrap(), "");
}

#[test]
fn chain_assigns_then_outputs() {
    let mut vm = VM::new();
    let value = eval_line(&mut vm, "(ao x \"test\")").unwrap();
    assert_eq!(value, "test");
    assert_eq!(vm.get_output(), "test\n");
    assert_eq!(eval_line(&mut vm, "x").unwrap(), "test");
}

#[test]
fn chain_return_feeds_accumulator() {
    let mut vm = VM::new();
    assert_eq!(eval_line(&mut vm, "(ro \"ping\")").unwrap(), "ping");
    assert_eq!(vm.get_output(), "ping\n");
}

#[test]
fn break_is_a_plain_value_outside_loops() {
    let mut vm = VM::new();
    assert_eq!(eval_line(&mut vm, "(b)").unwrap(), "break");
}

#[test]
fn multi_line_program_runs_in_order() {
    let mut vm = VM::new();
    let ast = PikoAst::parse("(a x \"q\")\n(o x)").unwrap();
    assert!(vm.execute(ast).is_ok());
    assert_eq!(vm.get_output(), "q\n");
}

#[test]
fn statement_parses_like_an_expression() {
    let stmt = Statement::parse("(o \"hi\")").unwrap();
    let Statement::Expression(e) = stmt;
    assert!(matches!(e, Expression::Output(_)));
}

#[test]
fn single_letter_atoms_are_recognised() {
    let e = Expression::parse("x").unwrap();
    assert!(e.is_single_letter());
    let e = Expression::parse("\"q\"").unwrap();
    assert!(e.is_single_letter());
    let e = Expression::parse("xy").unwrap();
    assert!(!e.is_single_letter());
    let ast = PikoAst::parse("x").unwrap();
    assert!(ast.is_single_letter());
}

#[test]
fn script_blob_runs_statement_by_statement() {
    let mut vm = VM::new();
    vm.execute_script("(a x \"world\")(o x)\n# note\n(o \"bye\")")
        .unwrap();
    assert_eq!(vm.get_output(), "world\nbye\n");
}

#[test]
fn script_stops_at_the_first_error() {
    let mut vm = VM::new();
    let err = vm
        .execute_script("(o \"one\")\n(c missing)\n(o \"two\")")
        .unwrap_err();
    assert_eq!(err.message(), "Runtime error: Unknown function: missing");
    assert_eq!(vm.get_output(), "one\n");
}
