use marie_compiler::error::{CompileError, Field};
use marie_compiler::parser::{resolve_instructions, Global};
use marie_compiler::sentences::iff::iff;
use marie_compiler::sentences::loops::{loopp, while_loop};
use marie_compiler::tree::{Node, Rule};

fn leaf(rule: Rule, text: &str) -> Node {
    Node { rule, text: text.to_string(), children: Vec::new() }
}

fn node(rule: Rule, children: Vec<Node>) -> Node {
    Node { rule, text: String::new(), children }
}

fn ident(text: &str) -> Node {
    leaf(Rule::Ident, text)
}

fn print(name: &str) -> Node {
    node(Rule::FunctionCall, vec![ident("print"), ident(name)])
}

fn compare(rule: Rule, a: &str, operator: &str, b: &str, body: Vec<Node>) -> Node {
    let mut children = vec![ident(a), leaf(Rule::Other, operator), ident(b)];
    children.extend(body);
    node(rule, children)
}

fn occurrences(text: &str, part: &str) -> usize {
    text.matches(part).count()
}

#[test]
fn a_while_loop_tests_after_its_body_and_jumps_back_once() {
    let mut global = Global::new();
    let mut output = String::new();
    let pair = compare(Rule::WhileLoop, "a", "<", "b", vec![print("a")]);
    assert_eq!(while_loop(&pair, &mut global, &mut output), Ok(()));
    assert_eq!(
        output,
        "CLEAR\nSTORE R\n\nBEGIN_1, JUMP NEXT_1\nINIT_1,\tCLEAR\n\nLOAD a\nOUTPUT\n\nNEXT_1,\tLOAD a\n\tSUBT b\n\tSKIPCOND 800\n\tJUMP INIT_1\n"
    );
    assert_eq!(occurrences(&output, "JUMP INIT_1"), 1);
    assert_eq!(occurrences(&output, "INIT_1,"), 1);
    assert_eq!(global.counts.whiles, 2);
    assert_eq!(global.counts.ifs, 1);
    assert_eq!(global.counts.loops, 1);
}

#[test]
fn each_while_comparison_has_its_skip_code() {
    for (operator, code) in [("<", "800"), ("!=", "400"), (">", "000")] {
        let mut global = Global::new();
        let mut output = String::new();
        let pair = compare(Rule::WhileLoop, "a", operator, "b", vec![]);
        assert_eq!(while_loop(&pair, &mut global, &mut output), Ok(()));
        assert!(output.contains(&format!("\tSKIPCOND {}\n", code)));
    }
}

#[test]
fn an_unknown_while_comparison_is_an_invalid_condition() {
    for operator in ["<=", "==", ">=", "", "<<"] {
        let mut global = Global::new();
        let mut output = String::new();
        let pair = compare(Rule::WhileLoop, "a", operator, "b", vec![print("a")]);
        assert_eq!(
            while_loop(&pair, &mut global, &mut output),
            Err(CompileError::InvalidCondition(operator.to_string()))
        );
        assert_eq!(output, "");
    }
}

#[test]
fn a_while_loop_needs_both_terms_and_the_comparison() {
    let mut global = Global::new();
    let mut output = String::new();
    assert_eq!(
        while_loop(&node(Rule::WhileLoop, vec![]), &mut global, &mut output),
        Err(CompileError::MissingField(Field::ValueA))
    );
    assert_eq!(
        while_loop(&node(Rule::WhileLoop, vec![ident("a")]), &mut global, &mut output),
        Err(CompileError::MissingField(Field::Condition))
    );
    assert_eq!(
        while_loop(
            &node(Rule::WhileLoop, vec![ident("a"), leaf(Rule::Other, "<")]),
            &mut global,
            &mut output
        ),
        Err(CompileError::MissingField(Field::ValueB))
    );
    assert_eq!(
        iff(&node(Rule::Iff, vec![]), &mut global, &mut output),
        Err(CompileError::MissingField(Field::ValueA))
    );
    assert_eq!(
        iff(&node(Rule::Iff, vec![ident("a")]), &mut global, &mut output),
        Err(CompileError::MissingField(Field::Condition))
    );
    assert_eq!(
        iff(&node(Rule::Iff, vec![ident("a"), leaf(Rule::Other, "<")]), &mut global, &mut output),
        Err(CompileError::MissingField(Field::ValueB))
    );
}

#[test]
fn a_failure_in_the_body_comes_before_the_invalid_condition() {
    let mut global = Global::new();
    let mut output = String::new();
    let broken = node(Rule::FunctionCall, vec![]);
    let pair = compare(Rule::WhileLoop, "a", "<=", "b", vec![broken]);
    assert_eq!(
        while_loop(&pair, &mut global, &mut output),
        Err(CompileError::MissingField(Field::Identifier))
    );
}

#[test]
fn a_conditional_jumps_over_its_body_to_the_break_label() {
    let mut global = Global::new();
    let mut output = String::new();
    let pair = compare(Rule::Iff, "a", "==", "b", vec![print("a")]);
    assert_eq!(iff(&pair, &mut global, &mut output), Ok(()));
    assert_eq!(
        output,
        "LOAD a\nSUBT b\nSKIPCOND 400\nJUMP BREAK_1\n\nLOAD a\nOUTPUT\nBREAK_1,\tCLEAR\n\n"
    );
    assert_eq!(global.counts.ifs, 2);
    assert_eq!(global.counts.whiles, 1);
}

#[test]
fn each_conditional_comparison_has_its_skip_code() {
    for (operator, code) in [("<", "000"), ("==", "400"), (">", "800")] {
        let mut global = Global::new();
        let mut output = String::new();
        let pair = compare(Rule::Iff, "a", operator, "b", vec![]);
        assert_eq!(iff(&pair, &mut global, &mut output), Ok(()));
        assert!(output.contains(&format!("\nSKIPCOND {}\n", code)));
    }
}

#[test]
fn an_unknown_conditional_comparison_is_an_invalid_condition() {
    for operator in ["<=", "!=", "=<"] {
        let mut global = Global::new();
        let mut output = String::new();
        let pair = compare(Rule::Iff, "a", operator, "b", vec![]);
        assert_eq!(
            iff(&pair, &mut global, &mut output),
            Err(CompileError::InvalidCondition(operator.to_string()))
        );
        assert_eq!(output, "");
    }
}

#[test]
fn an_unconditional_loop_jumps_back_to_its_label() {
    let mut global = Global::new();
    let mut output = String::new();
    let pair = node(Rule::Loopp, vec![print("x")]);
    assert_eq!(loopp(&pair, &mut global, &mut output), Ok(()));
    assert_eq!(output, "LOOP_1,\tCLEAR\n\nLOAD x\nOUTPUT\n\nJUMP LOOP_1\n");
    assert_eq!(global.counts.loops, 2);
    let mut output = String::new();
    assert_eq!(loopp(&node(Rule::Loopp, vec![]), &mut global, &mut output), Ok(()));
    assert_eq!(output, "LOOP_2,\tCLEAR\n\n\nJUMP LOOP_2\n");
    assert_eq!(global.counts.loops, 3);
}

#[test]
fn nested_and_sibling_constructs_never_share_a_label() {
    let mut global = Global::new();
    let mut output = String::new();
    let inner = compare(Rule::WhileLoop, "c", ">", "d", vec![]);
    let outer = compare(Rule::WhileLoop, "a", "<", "b", vec![inner]);
    let sibling = compare(Rule::WhileLoop, "e", "!=", "f", vec![]);
    let choice = compare(Rule::Iff, "a", "<", "b", vec![compare(Rule::Iff, "c", ">", "d", vec![])]);
    let forever = node(Rule::Loopp, vec![node(Rule::Loopp, vec![])]);
    let program = vec![outer, sibling, choice, forever];
    assert_eq!(resolve_instructions(&program, &mut global, &mut output), Ok(()));
    for label in [
        "BEGIN_1,", "BEGIN_2,", "BEGIN_3,", "INIT_1,", "INIT_2,", "INIT_3,", "NEXT_1,", "NEXT_2,",
        "NEXT_3,", "BREAK_1,", "BREAK_2,", "LOOP_1,", "LOOP_2,",
    ] {
        assert_eq!(occurrences(&output, label), 1, "{}", label);
    }
    assert_eq!(occurrences(&output, "BEGIN_4"), 0);
    // The inner loop is numbered before the loop around it.
    let inner_test = output.find("NEXT_1,\tLOAD c").unwrap();
    let outer_test = output.find("NEXT_2,\tLOAD a").unwrap();
    assert!(inner_test < outer_test);
    assert_eq!(global.counts.whiles, 4);
    assert_eq!(global.counts.ifs, 3);
    assert_eq!(global.counts.loops, 3);
}

#[test]
fn statements_are_lowered_in_source_order() {
    let mut global = Global::new();
    let mut output = String::from("start\n");
    let program = vec![
        print("a"),
        leaf(Rule::Other, "ignored"),
        node(Rule::FunctionCall, vec![ident("show")]),
        print("b"),
    ];
    assert_eq!(resolve_instructions(&program, &mut global, &mut output), Ok(()));
    assert_eq!(output, "start\nLOAD a\nOUTPUT\nJNS FN_show\nLOAD b\nOUTPUT\n");
}

#[test]
fn the_first_failure_ends_the_lowering() {
    let mut global = Global::new();
    let mut output = String::new();
    let program = vec![
        print("a"),
        node(Rule::FunctionCall, vec![ident("print")]),
        node(Rule::Statement, vec![]),
    ];
    assert_eq!(
        resolve_instructions(&program, &mut global, &mut output),
        Err(CompileError::MissingField(Field::Parameters))
    );
}

#[test]
fn a_failing_construct_appends_nothing_and_keeps_what_its_body_declared() {
    let declaration = node(
        Rule::Statement,
        vec![ident("x"), node(Rule::Expr, vec![leaf(Rule::Integer, "1")])],
    );
    let inner = compare(Rule::WhileLoop, "c", ">", "d", vec![]);
    for rule in [Rule::WhileLoop, Rule::Iff] {
        let mut global = Global::new();
        let mut output = String::from("kept\n");
        let pair = compare(rule, "a", "<=", "b", vec![
            node(Rule::Statement, vec![ident("x"), node(Rule::Expr, vec![leaf(Rule::Integer, "1")])]),
            compare(Rule::WhileLoop, "c", ">", "d", vec![]),
        ]);
        let result = if rule == Rule::WhileLoop {
            while_loop(&pair, &mut global, &mut output)
        } else {
            iff(&pair, &mut global, &mut output)
        };
        assert_eq!(result, Err(CompileError::InvalidCondition("<=".to_string())));
        assert_eq!(output, "kept\n");
        assert_eq!(global.variables.get("N1"), Some(&("DEC".to_string(), 1)));
        assert_eq!(global.variables.get("x"), Some(&("DEC".to_string(), 0)));
        assert_eq!(global.counts.whiles, 2);
        assert_eq!(global.counts.ifs, 1);
    }
    let mut global = Global::new();
    let mut output = String::from("kept\n");
    let broken = node(Rule::Loopp, vec![declaration, inner, node(Rule::FunctionCall, vec![])]);
    assert_eq!(
        loopp(&broken, &mut global, &mut output),
        Err(CompileError::MissingField(Field::Identifier))
    );
    assert_eq!(output, "kept\n");
    assert_eq!(global.variables.get("x"), Some(&("DEC".to_string(), 0)));
    assert_eq!(global.counts.whiles, 2);
    assert_eq!(global.counts.loops, 1);
}

#[test]
fn a_failure_leaves_what_the_statements_before_it_gave() {
    let mut global = Global::new();
    let mut output = String::from("start\n");
    let program = vec![
        print("a"),
        compare(Rule::WhileLoop, "a", "<", "b", vec![]),
        node(Rule::FunctionCall, vec![ident("print")]),
        compare(Rule::WhileLoop, "a", "<", "b", vec![]),
        print("never"),
    ];
    assert_eq!(
        resolve_instructions(&program, &mut global, &mut output),
        Err(CompileError::MissingField(Field::Parameters))
    );
    assert_eq!(
        output,
        "start\nLOAD a\nOUTPUT\nCLEAR\nSTORE R\n\nBEGIN_1, JUMP NEXT_1\nINIT_1,\tCLEAR\n\n\nNEXT_1,\tLOAD a\n\tSUBT b\n\tSKIPCOND 800\n\tJUMP INIT_1\n"
    );
    assert_eq!(global.counts.whiles, 2);
    assert_eq!(global.variables.len(), 6);
    assert_eq!(global.functions.len(), 0);
}
