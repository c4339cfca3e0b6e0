use marie_compiler::error::{CompileError, Field};
use marie_compiler::expr::assign;
use marie_compiler::parser::Global;
use marie_compiler::statements::functions::{
    create_function, function, function_call, returns_value,
};
use marie_compiler::statements::variable::variable;
use marie_compiler::tree::{Node, Rule};

fn leaf(rule: Rule, text: &str) -> Node {
    Node { rule, text: text.to_string(), children: Vec::new() }
}

fn node(rule: Rule, children: Vec<Node>) -> Node {
    Node { rule, text: String::new(), children }
}

fn ident(text: &str) -> Node {
    leaf(Rule::Ident, text)
}

fn expr(tokens: Vec<Node>) -> Node {
    node(Rule::Expr, tokens)
}

fn literal(text: &str) -> Node {
    expr(vec![leaf(Rule::Integer, text)])
}

fn declare(name: &str, tag: &str, value: Node) -> Node {
    node(Rule::Statement, vec![ident(name), leaf(Rule::Other, tag), value])
}

fn cell(global: &Global, name: &str) -> Option<(String, u16)> {
    global.variables.get(name).cloned()
}

fn names(global: &Global) -> Vec<String> {
    (0..global.variables.len()).map(|i| global.variables.name(i).clone()).collect()
}

#[test]
fn a_typed_declaration_lowers_its_value_and_registers_the_cell() {
    let mut global = Global::new();
    let mut output = String::new();
    let pair = declare("x", "HEX", literal("2"));
    assert_eq!(variable(&pair, &mut global, &mut output), Ok(()));
    assert_eq!(output, "LOAD N2\nSTORE x\n\n");
    assert_eq!(cell(&global, "N2"), Some(("HEX".to_string(), 2)));
    assert_eq!(cell(&global, "x"), Some(("HEX".to_string(), 0)));
    assert_eq!(names(&global), vec!["COUNT", "ONE", "A", "B", "C", "R", "N2", "x"]);
}

#[test]
fn an_untyped_declaration_is_decimal() {
    let mut global = Global::new();
    let mut output = String::new();
    let pair = node(Rule::Statement, vec![ident("y"), expr(vec![leaf(Rule::Deref, "*p")])]);
    assert_eq!(variable(&pair, &mut global, &mut output), Ok(()));
    assert_eq!(output, "LOADI p\nSTORE p_value\nLOAD p_value\nSTORE y\n");
    assert_eq!(cell(&global, "p_value"), Some(("DEC".to_string(), 0)));
    assert_eq!(cell(&global, "y"), Some(("DEC".to_string(), 0)));
    let at = |name: &str| names(&global).iter().position(|n| n == name);
    assert!(at("p_value") < at("y"));
}

#[test]
fn a_declaration_with_four_parts_takes_the_second_as_value() {
    let mut global = Global::new();
    let mut output = String::new();
    let pair = node(
        Rule::Statement,
        vec![ident("x"), literal("1"), literal("2"), literal("3")],
    );
    assert_eq!(variable(&pair, &mut global, &mut output), Ok(()));
    assert_eq!(output, "LOAD N1\nSTORE x\n\n");
    assert_eq!(cell(&global, "x"), Some(("DEC".to_string(), 0)));
}

#[test]
fn a_declaration_reads_input() {
    let mut global = Global::new();
    let mut output = String::new();
    let pair = declare("n", "DEC", leaf(Rule::FunctionCall, "input()"));
    assert_eq!(variable(&pair, &mut global, &mut output), Ok(()));
    assert_eq!(output, "INPUT\nSTORE n\nCLEAR\n");
    assert_eq!(cell(&global, "n"), Some(("DEC".to_string(), 0)));
}

#[test]
fn an_unknown_builtin_is_unsupported() {
    let mut global = Global::new();
    let mut output = String::new();
    let pair = declare("n", "DEC", leaf(Rule::FunctionCall, "read()"));
    assert_eq!(
        variable(&pair, &mut global, &mut output),
        Err(CompileError::UnsupportedBuiltin("read()".to_string()))
    );
    assert_eq!(output, "");
    let mut out = String::new();
    assert_eq!(
        returns_value(&leaf(Rule::FunctionCall, "input(x)"), &"n".to_string(), &mut out),
        Err(CompileError::UnsupportedBuiltin("input(x)".to_string()))
    );
    assert_eq!(returns_value(&leaf(Rule::FunctionCall, "input()"), &"n".to_string(), &mut out), Ok(()));
    assert_eq!(out, "INPUT\nSTORE n\nCLEAR\n");
}

#[test]
fn a_declaration_rejects_other_kinds_of_value() {
    let mut global = Global::new();
    let mut output = String::new();
    let pair = declare("n", "DEC", ident("m"));
    assert_eq!(variable(&pair, &mut global, &mut output), Err(CompileError::InvalidValueAssignment));
    assert_eq!(output, "");
    assert_eq!(cell(&global, "n"), None);
    assert_eq!(global.variables.len(), 6);
    let pair = declare("n", "DEC", leaf(Rule::Deref, "*p"));
    assert_eq!(variable(&pair, &mut global, &mut output), Err(CompileError::InvalidValueAssignment));
}

#[test]
fn a_declaration_needs_identifier_and_value() {
    let mut global = Global::new();
    let mut output = String::new();
    assert_eq!(
        variable(&node(Rule::Statement, vec![]), &mut global, &mut output),
        Err(CompileError::MissingField(Field::Identifier))
    );
    assert_eq!(
        variable(&node(Rule::Statement, vec![ident("x")]), &mut global, &mut output),
        Err(CompileError::MissingField(Field::Value))
    );
}

#[test]
fn a_malformed_expression_fails_the_declaration() {
    let mut global = Global::new();
    let mut output = String::new();
    let pair = declare("x", "DEC", expr(vec![leaf(Rule::Integer, "1"), leaf(Rule::Add, "+")]));
    assert_eq!(
        variable(&pair, &mut global, &mut output),
        Err(CompileError::ParseError(String::new()))
    );
    assert_eq!(cell(&global, "x"), None);
}

#[test]
fn a_reassignment_lowers_under_the_declared_type() {
    let mut global = Global::new();
    let mut output = String::new();
    assert_eq!(variable(&declare("x", "HEX", literal("2")), &mut global, &mut output), Ok(()));
    let mut output = String::new();
    let pair = node(
        Rule::Reassignment,
        vec![
            ident("x"),
            expr(vec![ident("x"), leaf(Rule::Add, "+"), leaf(Rule::Integer, "1")]),
        ],
    );
    assert_eq!(assign(&pair, &mut global, &mut output, "STORE"), Ok(()));
    assert_eq!(output, "CLEAR\nSTORE R\n\nLOAD x\nADD N1\n\nSTORE x\n");
    assert_eq!(cell(&global, "N1"), Some(("HEX".to_string(), 1)));
}

#[test]
fn an_expression_assigned_to_an_undeclared_name_fails() {
    let mut global = Global::new();
    let mut output = String::new();
    let pair = node(Rule::Reassignment, vec![ident("ghost"), literal("1")]);
    assert_eq!(
        assign(&pair, &mut global, &mut output, "STORE"),
        Err(CompileError::UndeclaredVariable("ghost".to_string()))
    );
    assert_eq!(output, "");
    assert_eq!(cell(&global, "N1"), None);
    assert_eq!(cell(&global, "ghost"), None);
    assert_eq!(global.variables.len(), 6);
}

#[test]
fn a_dereference_assigned_loads_through_the_pointer() {
    let mut global = Global::new();
    let mut output = String::new();
    let value = Node { rule: Rule::Deref, text: "*p".to_string(), children: vec![ident("p")] };
    let pair = node(Rule::Reassignment, vec![ident("x"), value]);
    assert_eq!(assign(&pair, &mut global, &mut output, "STORE"), Ok(()));
    assert_eq!(output, "CLEAR\nLOADI p\nSTORE x\n\n");
    assert_eq!(global.variables.len(), 6);
    let bare = node(Rule::Reassignment, vec![ident("x"), leaf(Rule::Deref, "*p")]);
    assert_eq!(
        assign(&bare, &mut global, &mut output, "STORE"),
        Err(CompileError::MissingField(Field::Identifier))
    );
}

#[test]
fn a_store_through_a_pointer_uses_the_indirect_store() {
    let mut global = Global::new();
    let mut output = String::new();
    assert_eq!(variable(&declare("p", "DEC", literal("5")), &mut global, &mut output), Ok(()));
    let mut output = String::new();
    let pair = node(Rule::Dereference, vec![ident("p"), literal("9")]);
    assert_eq!(assign(&pair, &mut global, &mut output, "STOREI"), Ok(()));
    assert_eq!(output, "CLEAR\nSTORE R\nLOAD N9\nSTOREI p\n\n");
}

#[test]
fn an_assignment_reads_input_or_rejects_the_value() {
    let mut global = Global::new();
    let mut output = String::new();
    let pair = node(Rule::Reassignment, vec![ident("x"), leaf(Rule::FunctionCall, "input()")]);
    assert_eq!(assign(&pair, &mut global, &mut output, "STORE"), Ok(()));
    assert_eq!(output, "INPUT\nSTORE x\nCLEAR\n");
    let pair = node(Rule::Reassignment, vec![ident("x"), leaf(Rule::Integer, "1")]);
    assert_eq!(
        assign(&pair, &mut global, &mut output, "STORE"),
        Err(CompileError::InvalidValueAssignment)
    );
    assert_eq!(
        assign(&node(Rule::Reassignment, vec![]), &mut global, &mut output, "STORE"),
        Err(CompileError::MissingField(Field::Identifier))
    );
    assert_eq!(
        assign(&node(Rule::Reassignment, vec![ident("x")]), &mut global, &mut output, "STORE"),
        Err(CompileError::MissingField(Field::Value))
    );
}

#[test]
fn print_loads_its_parameter_and_puts_it_out() {
    let mut output = String::new();
    let pair = node(Rule::FunctionCall, vec![ident("print"), ident("x")]);
    assert_eq!(function_call(&pair, &mut output), Ok(()));
    assert_eq!(output, "LOAD x\nOUTPUT\n");
}

#[test]
fn any_other_call_jumps_to_the_subroutine_of_that_name() {
    let mut output = String::new();
    let pair = node(Rule::FunctionCall, vec![ident("show")]);
    assert_eq!(function_call(&pair, &mut output), Ok(()));
    assert_eq!(output, "JNS FN_show\n");
    let pair = node(Rule::FunctionCall, vec![ident("add"), ident("ignored")]);
    assert_eq!(function_call(&pair, &mut output), Ok(()));
    assert_eq!(output, "JNS FN_show\nJNS FN_add\n");
}

#[test]
fn a_call_needs_its_identifier_and_print_its_parameter() {
    let mut output = String::new();
    assert_eq!(
        function_call(&node(Rule::FunctionCall, vec![]), &mut output),
        Err(CompileError::MissingField(Field::Identifier))
    );
    assert_eq!(
        function_call(&node(Rule::FunctionCall, vec![ident("print")]), &mut output),
        Err(CompileError::MissingField(Field::Parameters))
    );
    assert_eq!(output, "");
    let mut output = String::from("kept\n");
    assert_eq!(
        function_call(&node(Rule::FunctionCall, vec![ident("print")]), &mut output),
        Err(CompileError::MissingField(Field::Parameters))
    );
    assert_eq!(output, "kept\n");
}

#[test]
fn a_definition_wraps_its_body_between_header_and_return() {
    let mut global = Global::new();
    let body = vec![
        declare("x", "DEC", literal("1")),
        node(Rule::FunctionCall, vec![ident("print"), ident("x")]),
    ];
    let mut children = vec![ident("show")];
    children.extend(body);
    let pair = node(Rule::Function, children);
    assert_eq!(function(&pair, &mut global), Ok(()));
    assert_eq!(global.functions.len(), 1);
    assert_eq!(global.functions.name(0), "show");
    assert_eq!(
        global.functions.get("show"),
        Some(&"FN_show,\tHEX 000\n\nLOAD N1\nSTORE x\n\nLOAD x\nOUTPUT\n\nJUMPI FN_show\n".to_string())
    );
    assert_eq!(cell(&global, "x"), Some(("DEC".to_string(), 0)));
}

#[test]
fn create_function_enters_the_text_under_the_name() {
    let mut global = Global::new();
    assert_eq!(create_function("empty".to_string(), &[], &mut global), Ok(()));
    assert_eq!(
        global.functions.get("empty"),
        Some(&"FN_empty,\tHEX 000\n\n\nJUMPI FN_empty\n".to_string())
    );
    let failing = vec![node(Rule::Statement, vec![])];
    assert_eq!(
        create_function("broken".to_string(), &failing, &mut global),
        Err(CompileError::MissingField(Field::Identifier))
    );
    assert_eq!(global.functions.get("broken"), None);
    assert_eq!(
        function(&node(Rule::Function, vec![]), &mut global),
        Err(CompileError::MissingField(Field::Identifier))
    );
}

#[test]
fn a_redefinition_replaces_the_text_in_place() {
    let mut global = Global::new();
    assert_eq!(create_function("f".to_string(), &[], &mut global), Ok(()));
    assert_eq!(create_function("g".to_string(), &[], &mut global), Ok(()));
    let body = vec![node(Rule::FunctionCall, vec![ident("print"), ident("x")])];
    assert_eq!(create_function("f".to_string(), &body, &mut global), Ok(()));
    assert_eq!(global.functions.len(), 2);
    assert_eq!(global.functions.name(0), "f");
    assert_eq!(global.functions.name(1), "g");
    assert_eq!(
        global.functions.get("f"),
        Some(&"FN_f,\tHEX 000\n\nLOAD x\nOUTPUT\n\nJUMPI FN_f\n".to_string())
    );
}
