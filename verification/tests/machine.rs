use std::collections::HashMap;

use marie_compiler::parser::generate;
use marie_compiler::tree::{Node, Rule};

/// One word of the target machine's memory.
#[derive(Clone, Debug)]
enum Word {
    Data(u16),
    Code(String, String),
}

/// What a run leaves: the cells by label, and what was put out.
struct Run {
    labels: HashMap<String, usize>,
    memory: Vec<Word>,
    printed: Vec<u16>,
}

impl Run {
    fn cell(&self, name: &str) -> u16 {
        match &self.memory[self.labels[name]] {
            Word::Data(value) => *value,
            word => panic!("{} holds {:?}", name, word),
        }
    }
}

fn data(memory: &[Word], at: usize) -> u16 {
    match &memory[at] {
        Word::Data(value) => *value,
        word => panic!("address {} holds {:?}", at, word),
    }
}

/// Assembles the text and runs it from its first word until it halts.
fn run(program: &str, input: &[u16]) -> Run {
    let mut labels: HashMap<String, usize> = HashMap::new();
    let mut memory: Vec<Word> = Vec::new();
    for line in program.lines() {
        let mut rest = line.trim();
        if rest.is_empty() {
            continue;
        }
        if let Some(comma) = rest.find(',') {
            let previous = labels.insert(rest[..comma].to_string(), memory.len());
            assert!(previous.is_none(), "label {} declared twice", &rest[..comma]);
            rest = rest[comma + 1..].trim();
        }
        let mut words = rest.split_whitespace();
        let mnemonic = words.next().unwrap().to_string();
        let operand = words.next().unwrap_or("").to_string();
        assert!(words.next().is_none(), "{}", line);
        memory.push(match mnemonic.as_str() {
            "DEC" => Word::Data(operand.parse().unwrap()),
            "HEX" => Word::Data(u16::from_str_radix(&operand, 16).unwrap()),
            _ => Word::Code(mnemonic, operand),
        });
    }
    let mut printed = Vec::new();
    let mut pending = input.iter();
    let mut accumulator: u16 = 0;
    let mut counter: usize = 0;
    for _ in 0..1_000_000 {
        let (mnemonic, operand) = match memory[counter].clone() {
            Word::Code(mnemonic, operand) => (mnemonic, operand),
            word => panic!("ran into {:?} at {}", word, counter),
        };
        counter += 1;
        let at = |labels: &HashMap<String, usize>| match labels.get(&operand) {
            Some(address) => *address,
            None => panic!("{} {} names no label", mnemonic, operand),
        };
        match mnemonic.as_str() {
            "LOAD" => accumulator = data(&memory, at(&labels)),
            "STORE" => memory[at(&labels)] = Word::Data(accumulator),
            "LOADI" => accumulator = data(&memory, data(&memory, at(&labels)) as usize),
            "STOREI" => {
                let target = data(&memory, at(&labels)) as usize;
                memory[target] = Word::Data(accumulator);
            }
            "ADD" => accumulator = accumulator.wrapping_add(data(&memory, at(&labels))),
            "SUBT" => accumulator = accumulator.wrapping_sub(data(&memory, at(&labels))),
            "CLEAR" => accumulator = 0,
            "INPUT" => accumulator = *pending.next().unwrap(),
            "OUTPUT" => printed.push(accumulator),
            "SKIPCOND" => {
                let signed = accumulator as i16;
                let skip = match operand.as_str() {
                    "000" => signed < 0,
                    "400" => signed == 0,
                    "800" => signed > 0,
                    other => panic!("SKIPCOND {}", other),
                };
                if skip {
                    counter += 1;
                }
            }
            "JUMP" => counter = at(&labels),
            "JUMPI" => counter = data(&memory, at(&labels)) as usize,
            "JNS" => {
                let entry = at(&labels);
                memory[entry] = Word::Data(counter as u16);
                counter = entry + 1;
            }
            "HALT" => return Run { labels, memory, printed },
            other => panic!("unknown instruction {}", other),
        }
    }
    panic!("the program did not halt");
}

fn leaf(rule: Rule, text: &str) -> Node {
    Node { rule, text: text.to_string(), children: Vec::new() }
}

fn node(rule: Rule, children: Vec<Node>) -> Node {
    Node { rule, text: String::new(), children }
}

fn ident(text: &str) -> Node {
    leaf(Rule::Ident, text)
}

/// The tokens of an expression written with spaces between them.
fn expr(source: &str) -> Node {
    let tokens = source
        .split_whitespace()
        .map(|token| match token {
            "+" => leaf(Rule::Add, token),
            "-" => leaf(Rule::Subtract, token),
            "*" => leaf(Rule::Multiply, token),
            "/" => leaf(Rule::Divide, token),
            _ if token.chars().all(|c| c.is_ascii_digit()) => leaf(Rule::Integer, token),
            _ => ident(token),
        })
        .collect();
    node(Rule::Expr, tokens)
}

fn declare(name: &str, value: &str) -> Node {
    node(Rule::Statement, vec![ident(name), leaf(Rule::Other, "DEC"), expr(value)])
}

fn set(name: &str, value: &str) -> Node {
    node(Rule::Reassignment, vec![ident(name), expr(value)])
}

fn compare(rule: Rule, a: &str, operator: &str, b: &str, body: Vec<Node>) -> Node {
    let mut children = vec![ident(a), leaf(Rule::Other, operator), ident(b)];
    children.extend(body);
    node(rule, children)
}

fn call(name: &str, parameter: Option<&str>) -> Node {
    let mut children = vec![ident(name)];
    children.extend(parameter.map(ident));
    node(Rule::FunctionCall, children)
}

fn compiled(tree: Vec<Node>, input: &[u16]) -> Run {
    run(&generate(&tree).unwrap(), input)
}

#[test]
fn two_plus_three_times_four_is_fourteen() {
    let done = compiled(vec![declare("x", "2 + 3 * 4")], &[]);
    assert_eq!(done.cell("x"), 14);
}

#[test]
fn a_product_on_the_left_of_a_sum_is_kept() {
    let done = compiled(vec![declare("x", "3 * 4 + 2"), declare("y", "3 * 4 - 2")], &[]);
    assert_eq!(done.cell("x"), 14);
    assert_eq!(done.cell("y"), 10);
}

#[test]
fn products_are_computed_by_the_subroutine() {
    for (a, b) in [(0u16, 5u16), (5, 0), (1, 1), (7, 6), (6, 7), (255, 255), (3, 1000)] {
        let tree = vec![
            declare("a", &a.to_string()),
            declare("b", &b.to_string()),
            declare("x", "a * b"),
        ];
        assert_eq!(compiled(tree, &[]).cell("x"), a * b, "{} * {}", a, b);
    }
}

#[test]
fn a_second_product_does_not_add_to_the_first() {
    let done = compiled(vec![declare("x", "2 * 3"), declare("y", "4 * 5")], &[]);
    assert_eq!(done.cell("x"), 6);
    assert_eq!(done.cell("y"), 20);
}

#[test]
fn products_associate_to_the_left() {
    let done = compiled(vec![declare("x", "2 * 3 * 4"), declare("y", "24 / 4 / 3")], &[]);
    assert_eq!(done.cell("x"), 24);
    assert_eq!(done.cell("y"), 2);
}

#[test]
fn quotients_are_computed_by_the_subroutine() {
    for (a, b) in [
        (0u16, 3u16),
        (1, 3),
        (2, 3),
        (3, 3),
        (5, 3),
        (6, 3),
        (7, 3),
        (100, 7),
        (5, 5),
        (9, 1),
        (32767, 2),
    ] {
        let tree = vec![
            declare("a", &a.to_string()),
            declare("b", &b.to_string()),
            declare("x", "a / b"),
        ];
        assert_eq!(compiled(tree, &[]).cell("x"), a / b, "{} / {}", a, b);
    }
}

#[test]
fn sums_and_differences_are_computed_in_the_accumulator() {
    let done = compiled(vec![declare("x", "40 + 2"), declare("y", "x - 2 - 10")], &[]);
    assert_eq!(done.cell("x"), 42);
    assert_eq!(done.cell("y"), 30);
}

#[test]
fn a_while_loop_runs_until_its_test_fails() {
    let tree = vec![
        declare("a", "0"),
        declare("b", "3"),
        declare("n", "0"),
        compare(Rule::WhileLoop, "a", "!=", "b", vec![set("a", "a + 1"), set("n", "n + 2")]),
    ];
    let done = compiled(tree, &[]);
    assert_eq!(done.cell("a"), 3);
    assert_eq!(done.cell("n"), 6);
}

#[test]
fn a_conditional_runs_its_body_only_where_the_comparison_holds() {
    for (a, b, operator, expected) in [
        (1u16, 2u16, "<", 1u16),
        (2, 2, "<", 0),
        (3, 2, "<", 0),
        (2, 2, "==", 1),
        (1, 2, "==", 0),
        (3, 2, ">", 1),
        (2, 2, ">", 0),
    ] {
        let tree = vec![
            declare("a", &a.to_string()),
            declare("b", &b.to_string()),
            declare("x", "0"),
            compare(Rule::Iff, "a", operator, "b", vec![set("x", "1")]),
        ];
        assert_eq!(compiled(tree, &[]).cell("x"), expected, "{} {} {}", a, operator, b);
    }
}

#[test]
fn a_subroutine_is_called_and_returns() {
    let bump = node(Rule::Function, vec![ident("bump"), set("x", "x + 1")]);
    let tree = vec![declare("x", "0"), bump, call("bump", None), call("bump", None)];
    assert_eq!(compiled(tree, &[]).cell("x"), 2);
}

#[test]
fn input_is_read_and_print_puts_out() {
    let read = node(
        Rule::Statement,
        vec![ident("n"), leaf(Rule::FunctionCall, "input()")],
    );
    let tree = vec![read, declare("m", "n * n"), call("print", Some("m")), call("print", Some("n"))];
    let done = compiled(tree, &[12]);
    assert_eq!(done.printed, vec![144, 12]);
}

#[test]
fn nested_loops_use_their_own_labels() {
    let inner = compare(Rule::WhileLoop, "j", "!=", "b", vec![set("j", "j + 1"), set("n", "n + 1")]);
    let outer = compare(
        Rule::WhileLoop,
        "i",
        "!=",
        "a",
        vec![set("i", "i + 1"), set("j", "0"), inner],
    );
    let tree = vec![
        declare("a", "3"),
        declare("b", "4"),
        declare("i", "0"),
        declare("j", "0"),
        declare("n", "0"),
        outer,
    ];
    assert_eq!(compiled(tree, &[]).cell("n"), 12);
}
