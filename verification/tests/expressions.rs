use marie_compiler::error::CompileError;
use marie_compiler::expr::{parse_expr, resolve_expr, resolve_sub_expr, set_number};
use marie_compiler::parser::{Expr, Global, Op};
use marie_compiler::table::Table;
use marie_compiler::tree::{Node, Rule};

fn leaf(rule: Rule, text: &str) -> Node {
    Node { rule, text: text.to_string(), children: Vec::new() }
}

fn integer(text: &str) -> Node {
    leaf(Rule::Integer, text)
}

fn ident(text: &str) -> Node {
    leaf(Rule::Ident, text)
}

fn value(v: u16) -> Box<Expr> {
    Box::new(Expr::Value(v))
}

fn variable(name: &str) -> Box<Expr> {
    Box::new(Expr::Variable(name.to_string()))
}

fn cell(global: &Global, name: &str) -> Option<(String, u16)> {
    global.variables.get(name).cloned()
}

fn names(global: &Global) -> Vec<String> {
    (0..global.variables.len()).map(|i| global.variables.name(i).clone()).collect()
}

#[test]
fn multiplication_binds_tighter_than_addition() {
    let tokens = vec![integer("2"), leaf(Rule::Add, "+"), integer("3"), leaf(Rule::Multiply, "*"), integer("4")];
    let expected = Expr::BinOp {
        lhs: value(2),
        op: Op::Add,
        rhs: Box::new(Expr::BinOp { lhs: value(3), op: Op::Multiply, rhs: value(4) }),
    };
    assert_eq!(parse_expr(&tokens), Ok(expected));
}

#[test]
fn multiplication_before_addition_keeps_the_product_on_the_left() {
    let tokens = vec![integer("2"), leaf(Rule::Multiply, "*"), integer("3"), leaf(Rule::Add, "+"), integer("4")];
    let expected = Expr::BinOp {
        lhs: Box::new(Expr::BinOp { lhs: value(2), op: Op::Multiply, rhs: value(3) }),
        op: Op::Add,
        rhs: value(4),
    };
    assert_eq!(parse_expr(&tokens), Ok(expected));
}

#[test]
fn subtraction_associates_to_the_left() {
    let tokens = vec![
        ident("a"),
        leaf(Rule::Subtract, "-"),
        ident("b"),
        leaf(Rule::Subtract, "-"),
        ident("c"),
    ];
    let expected = Expr::BinOp {
        lhs: Box::new(Expr::BinOp { lhs: variable("a"), op: Op::Subtract, rhs: variable("b") }),
        op: Op::Subtract,
        rhs: variable("c"),
    };
    assert_eq!(parse_expr(&tokens), Ok(expected));
}

#[test]
fn division_and_multiplication_associate_to_the_left() {
    let tokens = vec![
        ident("a"),
        leaf(Rule::Divide, "/"),
        ident("b"),
        leaf(Rule::Multiply, "*"),
        ident("c"),
    ];
    let expected = Expr::BinOp {
        lhs: Box::new(Expr::BinOp { lhs: variable("a"), op: Op::Divide, rhs: variable("b") }),
        op: Op::Multiply,
        rhs: variable("c"),
    };
    assert_eq!(parse_expr(&tokens), Ok(expected));
}

#[test]
fn a_long_stream_splits_at_the_last_addition() {
    // a + b * c - d / e  ==  (a + (b * c)) - (d / e)
    let tokens = vec![
        ident("a"),
        leaf(Rule::Add, "+"),
        ident("b"),
        leaf(Rule::Multiply, "*"),
        ident("c"),
        leaf(Rule::Subtract, "-"),
        ident("d"),
        leaf(Rule::Divide, "/"),
        ident("e"),
    ];
    let expected = Expr::BinOp {
        lhs: Box::new(Expr::BinOp {
            lhs: variable("a"),
            op: Op::Add,
            rhs: Box::new(Expr::BinOp { lhs: variable("b"), op: Op::Multiply, rhs: variable("c") }),
        }),
        op: Op::Subtract,
        rhs: Box::new(Expr::BinOp { lhs: variable("d"), op: Op::Divide, rhs: variable("e") }),
    };
    assert_eq!(parse_expr(&tokens), Ok(expected));
}

#[test]
fn single_tokens_become_operands() {
    assert_eq!(parse_expr(&[integer("65535")]), Ok(Expr::Value(65535)));
    assert_eq!(parse_expr(&[integer("007")]), Ok(Expr::Value(7)));
    assert_eq!(parse_expr(&[integer("+5")]), Ok(Expr::Value(5)));
    assert_eq!(parse_expr(&[ident("total")]), Ok(Expr::Variable("total".to_string())));
    assert_eq!(parse_expr(&[leaf(Rule::Deref, "*p")]), Ok(Expr::Deref("p".to_string())));
}

#[test]
fn an_empty_stream_is_a_parse_error() {
    assert_eq!(parse_expr(&[]), Err(CompileError::ParseError(String::new())));
}

#[test]
fn a_stream_that_ends_on_an_operator_is_a_parse_error() {
    let tokens = vec![integer("2"), leaf(Rule::Add, "+")];
    assert_eq!(parse_expr(&tokens), Err(CompileError::ParseError(String::new())));
}

#[test]
fn an_operand_in_place_of_an_operator_is_named() {
    let tokens = vec![integer("2"), integer("3")];
    assert_eq!(parse_expr(&tokens), Err(CompileError::ParseError("3".to_string())));
}

#[test]
fn an_operator_in_place_of_an_operand_is_named() {
    let tokens = vec![leaf(Rule::Add, "+"), integer("2")];
    assert_eq!(parse_expr(&tokens), Err(CompileError::ParseError("+".to_string())));
    let tokens = vec![integer("2"), leaf(Rule::Add, "+"), leaf(Rule::Multiply, "*"), integer("3")];
    assert_eq!(parse_expr(&tokens), Err(CompileError::ParseError("*".to_string())));
}

#[test]
fn a_literal_beyond_sixteen_bits_is_a_parse_error() {
    assert_eq!(parse_expr(&[integer("65536")]), Err(CompileError::ParseError("65536".to_string())));
    assert_eq!(parse_expr(&[integer("12a")]), Err(CompileError::ParseError("12a".to_string())));
    assert_eq!(parse_expr(&[integer("")]), Err(CompileError::ParseError(String::new())));
}

#[test]
fn the_first_fault_is_the_one_reported() {
    let tokens = vec![integer("1"), leaf(Rule::Other, "?"), integer("99999"), integer("x")];
    assert_eq!(parse_expr(&tokens), Err(CompileError::ParseError("?".to_string())));
}

#[test]
fn set_number_names_the_cell_after_the_value() {
    let mut variables: Table<(String, u16)> = Table::new();
    let name = set_number(&42, &"DEC".to_string(), &mut variables);
    assert_eq!(name, "N42");
    assert_eq!(variables.len(), 1);
    assert_eq!(variables.get("N42"), Some(&("DEC".to_string(), 42)));
    let zero = set_number(&0, &"HEX".to_string(), &mut variables);
    assert_eq!(zero, "N0");
    let again = set_number(&42, &"HEX".to_string(), &mut variables);
    assert_eq!(again, "N42");
    assert_eq!(variables.len(), 2);
    assert_eq!(variables.get("N42"), Some(&("HEX".to_string(), 42)));
    assert_eq!(variables.name(0), "N42");
    assert_eq!(variables.name(1), "N0");
}

#[test]
fn a_literal_is_copied_from_its_constant_cell() {
    let mut global = Global::new();
    let mut output = String::new();
    let result = resolve_expr(
        Expr::Value(5),
        &"x".to_string(),
        &"DEC".to_string(),
        &mut global,
        &mut output,
        "STORE",
    );
    assert_eq!(result, Ok(()));
    assert_eq!(output, "LOAD N5\nSTORE x\n\n");
    assert_eq!(cell(&global, "N5"), Some(("DEC".to_string(), 5)));
    assert_eq!(cell(&global, "x"), None);
}

#[test]
fn a_variable_is_copied_and_the_destination_registered() {
    let mut global = Global::new();
    let mut output = String::from("before\n");
    let result = resolve_expr(
        Expr::Variable("a".to_string()),
        &"b".to_string(),
        &"HEX".to_string(),
        &mut global,
        &mut output,
        "STOREI",
    );
    assert_eq!(result, Ok(()));
    assert_eq!(output, "before\nLOAD a\nSTOREI b\n");
    assert_eq!(cell(&global, "b"), Some(("HEX".to_string(), 0)));
}

#[test]
fn a_dereference_loads_through_the_pointer_into_its_value_cell() {
    let mut global = Global::new();
    let mut output = String::new();
    let result = resolve_expr(
        Expr::Deref("p".to_string()),
        &"y".to_string(),
        &"DEC".to_string(),
        &mut global,
        &mut output,
        "STORE",
    );
    assert_eq!(result, Ok(()));
    assert_eq!(output, "LOADI p\nSTORE p_value\nLOAD p_value\nSTORE y\n");
    assert_eq!(cell(&global, "p_value"), Some(("DEC".to_string(), 0)));
}

#[test]
fn a_nested_product_is_lowered_into_the_scratch_cell_first() {
    let mut global = Global::new();
    let mut output = String::new();
    let expr = Expr::BinOp {
        lhs: value(2),
        op: Op::Add,
        rhs: Box::new(Expr::BinOp { lhs: value(3), op: Op::Multiply, rhs: value(4) }),
    };
    let result =
        resolve_expr(expr, &"x".to_string(), &"DEC".to_string(), &mut global, &mut output, "STORE");
    assert_eq!(result, Ok(()));
    assert_eq!(
        output,
        "\nLOAD N3\nSTORE A\nLOAD N4\nSTORE B\nJNS MUL\n\nSTORE R\n\nLOAD N2\nADD R\n\nSTORE x\n"
    );
    assert_eq!(global.counts.mul, 1);
    assert_eq!(global.counts.div, 0);
    assert_eq!(
        names(&global),
        vec!["COUNT", "ONE", "A", "B", "C", "R", "N2", "N3", "N4"]
    );
    assert_eq!(cell(&global, "N2"), Some(("DEC".to_string(), 2)));
    assert_eq!(cell(&global, "N3"), Some(("DEC".to_string(), 3)));
    assert_eq!(cell(&global, "N4"), Some(("DEC".to_string(), 4)));
}

#[test]
fn operands_are_resolved_left_before_right() {
    let mut global = Global::new();
    let mut output = String::new();
    let expr = Expr::BinOp {
        lhs: Box::new(Expr::Deref("p".to_string())),
        op: Op::Divide,
        rhs: Box::new(Expr::Deref("q".to_string())),
    };
    let result =
        resolve_expr(expr, &"z".to_string(), &"DEC".to_string(), &mut global, &mut output, "STORE");
    assert_eq!(result, Ok(()));
    assert_eq!(
        output,
        "LOADI p\nSTORE p_value\nLOADI q\nSTORE q_value\n\nLOAD p_value\nSTORE A\nLOAD q_value\nSTORE B\nJNS DIV\n\nSTORE z\n"
    );
    assert_eq!(global.counts.div, 1);
    assert_eq!(global.counts.mul, 0);
}

#[test]
fn subtraction_of_variables_emits_load_and_subt() {
    let mut global = Global::new();
    let mut output = String::new();
    let expr = Expr::BinOp { lhs: variable("a"), op: Op::Subtract, rhs: variable("b") };
    let result =
        resolve_expr(expr, &"c".to_string(), &"DEC".to_string(), &mut global, &mut output, "STORE");
    assert_eq!(result, Ok(()));
    assert_eq!(output, "\nLOAD a\nSUBT b\n\nSTORE c\n");
    assert_eq!(global.variables.len(), 6);
}

#[test]
fn an_operand_resolves_to_the_name_of_its_cell() {
    let mut global = Global::new();
    let mut output = String::new();
    let tag = "DEC".to_string();
    assert_eq!(
        resolve_sub_expr(Expr::Value(9), &tag, &mut global, &mut output, "STORE"),
        Ok("N9".to_string())
    );
    assert_eq!(output, "");
    assert_eq!(
        resolve_sub_expr(Expr::Variable("v".to_string()), &tag, &mut global, &mut output, "STORE"),
        Ok("v".to_string())
    );
    assert_eq!(output, "");
    assert_eq!(cell(&global, "v"), None);
    assert_eq!(
        resolve_sub_expr(Expr::Deref("p".to_string()), &tag, &mut global, &mut output, "STORE"),
        Ok("p_value".to_string())
    );
    assert_eq!(output, "LOADI p\nSTORE p_value\n");
    let nested = Expr::BinOp { lhs: variable("a"), op: Op::Add, rhs: value(1) };
    let mut nested_output = String::new();
    assert_eq!(
        resolve_sub_expr(nested, &tag, &mut global, &mut nested_output, "STORE"),
        Ok("R".to_string())
    );
    assert_eq!(nested_output, "\nLOAD a\nADD N1\n\nSTORE R\n");
}

#[test]
fn a_literal_used_twice_has_one_cell() {
    let mut global = Global::new();
    let mut output = String::new();
    let expr = Expr::BinOp { lhs: value(7), op: Op::Add, rhs: value(7) };
    let result =
        resolve_expr(expr, &"x".to_string(), &"DEC".to_string(), &mut global, &mut output, "STORE");
    assert_eq!(result, Ok(()));
    let all = names(&global);
    assert_eq!(all.iter().filter(|name| name.as_str() == "N7").count(), 1);
    assert_eq!(cell(&global, "N7"), Some(("DEC".to_string(), 7)));
}
