//! The expression engine: it reads the flat token stream of an expression
//! into a tree, and lowers a tree into instructions that leave its value in
//! a destination cell.

use vstd::prelude::*;
use vstd::string::StringExecFns;

use crate::error::{CompileError, ErrorView, Field};
use crate::laws::order::lemma_expr_extends;
use crate::operations::{add_code, divide_code, multiply_code, subtract_code};
use crate::parser::{
    agrees, fits, grown, preserved, Cells, CountsView, Expr, ExprView, Global, GlobalView, Lowered,
    Op, DEFAULT_VALUE,
};
use crate::statements::functions::{lower_builtin, returns_value};
use crate::table::{distinct, lemma_put, lookup, put, Table};
use crate::text::{decimal, literal_value, parse_literal, push_decimal, strip_stars, without_stars};
use crate::tree::{
    lemma_children, lemma_weights_element, lemma_weights_suffix, views, weight, weights, Node,
    NodeView, Rule,
};

verus! {

/// The name of the cell that holds the literal `value`.
pub open spec fn literal_cell(value: u16) -> Seq<char> {
    "N"@ + decimal(value as nat)
}

/// The name of the cell that receives what the pointer cell `pointer` points
/// to.
pub open spec fn deref_cell(pointer: Seq<char>) -> Seq<char> {
    pointer + "_value"@
}

/// The name of the scratch cell that receives a nested operation.
pub open spec fn scratch_cell() -> Seq<char> {
    "R"@
}

/// The code that copies cell `from` into `dest` with the store instruction
/// `store`.
pub open spec fn copy_code(from: Seq<char>, store: Seq<char>, dest: Seq<char>) -> Seq<char> {
    "LOAD "@ + from + "\n"@ + store + " "@ + dest + "\n"@
}

/// The code that loads through the pointer cell `pointer` into its value
/// cell.
pub open spec fn fetch_code(pointer: Seq<char>) -> Seq<char> {
    "LOADI "@ + pointer + "\nSTORE "@ + deref_cell(pointer) + "\n"@
}

/// The code that stores the accumulator in `dest` after an operation.
pub open spec fn store_code(store: Seq<char>, dest: Seq<char>) -> Seq<char> {
    "\n"@ + store + " "@ + dest + "\n"@
}

/// The code of the operator `op` on the cells `a` and `b`.
pub open spec fn op_code(op: Op, a: Seq<char>, b: Seq<char>) -> Seq<char> {
    match op {
        Op::Add => add_code(a, b),
        Op::Subtract => subtract_code(a, b),
        Op::Multiply => multiply_code(a, b),
        Op::Divide => divide_code(a, b),
    }
}

/// The name of the cell in which an operand is found once it is resolved: a
/// literal in its constant cell, a variable in its own cell, a dereference in
/// the pointer's value cell, a nested operation in the scratch cell.
pub open spec fn operand_name(operand: ExprView) -> Seq<char> {
    match operand {
        ExprView::Value(value) => literal_cell(value),
        ExprView::Variable(name) => name,
        ExprView::Deref(pointer) => deref_cell(pointer),
        ExprView::BinOp { .. } => scratch_cell(),
    }
}

/// The code that resolves an operand: nothing for a literal or a variable,
/// the indirect load for a dereference, the whole lowering into the scratch
/// cell for a nested operation.
pub open spec fn operand_code(operand: ExprView, store: Seq<char>) -> Seq<char>
    decreases operand, 1int,
{
    match operand {
        ExprView::Value(_) => Seq::empty(),
        ExprView::Variable(_) => Seq::empty(),
        ExprView::Deref(pointer) => fetch_code(pointer),
        ExprView::BinOp { .. } => expr_code(operand, scratch_cell(), store),
    }
}

/// The code that leaves the value of `expr` in the cell `dest`. The operands
/// of an operation are resolved left before right, then the operator is
/// applied and the accumulator stored.
pub open spec fn expr_code(expr: ExprView, dest: Seq<char>, store: Seq<char>) -> Seq<char>
    decreases expr, 0int,
{
    match expr {
        ExprView::Value(value) => copy_code(literal_cell(value), store, dest) + "\n"@,
        ExprView::Variable(name) => copy_code(name, store, dest),
        ExprView::Deref(pointer) => fetch_code(pointer) + copy_code(
            deref_cell(pointer),
            store,
            dest,
        ),
        ExprView::BinOp { lhs, op, rhs } => operand_code(*lhs, store) + operand_code(*rhs, store)
            + op_code(op, operand_name(*lhs), operand_name(*rhs)) + store_code(store, dest),
    }
}

/// The cells after an operand is resolved under the type tag `tag`.
pub open spec fn operand_cells(operand: ExprView, tag: Seq<char>, cells: Cells) -> Cells
    decreases operand, 1int,
{
    match operand {
        ExprView::Value(value) => put(cells, literal_cell(value), (tag, value)),
        ExprView::Variable(_) => cells,
        ExprView::Deref(pointer) => put(cells, deref_cell(pointer), (tag, DEFAULT_VALUE)),
        ExprView::BinOp { .. } => expr_cells(operand, scratch_cell(), tag, cells),
    }
}

/// The cells after `expr` is lowered into `dest` under the type tag `tag`: a
/// literal registers its constant cell with its value, a variable reference
/// registers the destination, a dereference registers the pointer's value
/// cell, and an operation registers what its operands do.
pub open spec fn expr_cells(expr: ExprView, dest: Seq<char>, tag: Seq<char>, cells: Cells) -> Cells
    decreases expr, 0int,
{
    match expr {
        ExprView::Value(value) => put(cells, literal_cell(value), (tag, value)),
        ExprView::Variable(_) => put(cells, dest, (tag, DEFAULT_VALUE)),
        ExprView::Deref(pointer) => put(cells, deref_cell(pointer), (tag, DEFAULT_VALUE)),
        ExprView::BinOp { lhs, op, rhs } => operand_cells(
            *rhs,
            tag,
            operand_cells(*lhs, tag, cells),
        ),
    }
}

/// The number of operators `op` in `expr`.
pub open spec fn uses(expr: ExprView, op: Op) -> nat
    decreases expr,
{
    match expr {
        ExprView::BinOp { lhs, op: here, rhs } => uses(*lhs, op) + uses(*rhs, op) + if here == op {
            1nat
        } else {
            0nat
        },
        _ => 0,
    }
}

/// The counters after `expr` is lowered: each multiplication and each
/// division is counted once.
pub open spec fn expr_counts(expr: ExprView, counts: CountsView) -> CountsView {
    CountsView {
        mul: counts.mul + uses(expr, Op::Multiply),
        div: counts.div + uses(expr, Op::Divide),
        ..counts
    }
}

/// The context after `expr` is lowered into `dest` under the type tag `tag`.
pub open spec fn lower_expr(
    expr: ExprView,
    dest: Seq<char>,
    tag: Seq<char>,
    global: GlobalView,
) -> GlobalView {
    GlobalView {
        variables: expr_cells(expr, dest, tag, global.variables),
        functions: global.functions,
        counts: expr_counts(expr, global.counts),
    }
}

/// The context after an operand is resolved under the type tag `tag`.
pub open spec fn lower_operand(operand: ExprView, tag: Seq<char>, global: GlobalView) -> GlobalView {
    GlobalView {
        variables: operand_cells(operand, tag, global.variables),
        functions: global.functions,
        counts: expr_counts(operand, global.counts),
    }
}

/// Whether the counters can take the operations of `expr`.
pub open spec fn expr_fits(expr: ExprView, counts: CountsView) -> bool {
    &&& counts.mul + uses(expr, Op::Multiply) <= u64::MAX
    &&& counts.div + uses(expr, Op::Divide) <= u64::MAX
}

/// Lowering an expression keeps the names of the cells distinct.
pub proof fn lemma_expr_cells_distinct(expr: ExprView, dest: Seq<char>, tag: Seq<char>, cells: Cells)
    requires
        distinct(cells),
    ensures
        distinct(expr_cells(expr, dest, tag, cells)),
        distinct(operand_cells(expr, tag, cells)),
    decreases expr,
{
    match expr {
        ExprView::Value(value) => {
            lemma_put(cells, literal_cell(value), (tag, value));
        },
        ExprView::Variable(_) => {
            lemma_put(cells, dest, (tag, DEFAULT_VALUE));
        },
        ExprView::Deref(pointer) => {
            lemma_put(cells, deref_cell(pointer), (tag, DEFAULT_VALUE));
        },
        ExprView::BinOp { lhs, op, rhs } => {
            lemma_expr_cells_distinct(*lhs, scratch_cell(), tag, cells);
            lemma_expr_cells_distinct(*rhs, scratch_cell(), tag, operand_cells(*lhs, tag, cells));
        },
    }
}

/// The operator that a token of kind `rule` stands for.
pub open spec fn operator_of(rule: Rule) -> Option<Op> {
    match rule {
        Rule::Add => Some(Op::Add),
        Rule::Subtract => Some(Op::Subtract),
        Rule::Multiply => Some(Op::Multiply),
        Rule::Divide => Some(Op::Divide),
        _ => None,
    }
}

/// Whether a token of kind `rule` is one of the operators that bind least:
/// addition and subtraction.
pub open spec fn is_additive(rule: Rule) -> bool {
    rule == Rule::Add || rule == Rule::Subtract
}

/// The operand that a token stands for: an integer whose text is a 16-bit
/// literal, an identifier, or a dereference, whose name is its text without
/// the marker `*`.
pub open spec fn operand_of(token: NodeView) -> Option<ExprView> {
    match token.rule {
        Rule::Integer => match literal_value(token.text) {
            Some(value) => Some(ExprView::Value(value)),
            None => None,
        },
        Rule::Ident => Some(ExprView::Variable(token.text)),
        Rule::Deref => Some(ExprView::Deref(without_stars(token.text))),
        _ => None,
    }
}

/// Whether the token at place `i` can stand there: operands at the even
/// places, operators at the odd ones.
pub open spec fn accepts(tokens: Seq<NodeView>, i: int) -> bool {
    if i % 2 == 0 {
        operand_of(tokens[i]) is Some
    } else {
        operator_of(tokens[i].rule) is Some
    }
}

/// Whether place `i` holds the first token that cannot stand where it is.
pub open spec fn is_fault(tokens: Seq<NodeView>, i: int) -> bool {
    &&& 0 <= i < tokens.len()
    &&& !accepts(tokens, i)
    &&& forall|j: int| 0 <= j < i ==> accepts(tokens, j)
}

/// The place of the last addition or subtraction in a stream, or -1.
pub open spec fn last_additive(tokens: Seq<NodeView>) -> int
    decreases tokens.len(),
{
    if tokens.len() < 3 {
        -1
    } else if is_additive(tokens[tokens.len() - 2].rule) {
        tokens.len() - 2
    } else {
        last_additive(tokens.take(tokens.len() - 2))
    }
}

/// The tree of a stream without additions and subtractions: its operators
/// associate to the left.
pub open spec fn product_tree(tokens: Seq<NodeView>) -> ExprView
    decreases tokens.len(),
{
    if tokens.len() < 3 {
        operand_of(tokens[0])->0
    } else {
        ExprView::BinOp {
            lhs: Box::new(product_tree(tokens.take(tokens.len() - 2))),
            op: operator_of(tokens[tokens.len() - 2].rule)->0,
            rhs: Box::new(operand_of(tokens[tokens.len() - 1])->0),
        }
    }
}

/// The tree of a well-formed stream. The last addition or subtraction is the
/// root, with the tree of all before it on the left and the product after it
/// on the right: multiplication and division bind tighter, and all four
/// operators associate to the left.
pub open spec fn sum_tree(tokens: Seq<NodeView>) -> ExprView
    decreases tokens.len(),
{
    let k = last_additive(tokens);
    if 0 <= k < tokens.len() {
        ExprView::BinOp {
            lhs: Box::new(sum_tree(tokens.take(k))),
            op: operator_of(tokens[k].rule)->0,
            rhs: Box::new(product_tree(tokens.skip(k + 1))),
        }
    } else {
        product_tree(tokens)
    }
}

/// What reading a token stream gives: the tree of a well-formed stream, or
/// else a parse error with the text of the first token that cannot stand
/// where it is, or with no text where the stream ends before an operand.
pub open spec fn parse(tokens: Seq<NodeView>) -> Result<ExprView, ErrorView> {
    if exists|i: int| is_fault(tokens, i) {
        Err(ErrorView::ParseError(tokens[choose|i: int| is_fault(tokens, i)].text))
    } else if tokens.len() % 2 == 0 {
        Err(ErrorView::ParseError(Seq::empty()))
    } else {
        Ok(sum_tree(tokens))
    }
}

/// Only one place holds the first fault of a stream.
proof fn lemma_fault(tokens: Seq<NodeView>, i: int)
    requires
        is_fault(tokens, i),
    ensures
        parse(tokens) == Err::<ExprView, ErrorView>(ErrorView::ParseError(tokens[i].text)),
{
    let c = choose|c: int| is_fault(tokens, c);
    assert(is_fault(tokens, c));
    if c < i {
        assert(accepts(tokens, c));
    } else if i < c {
        assert(accepts(tokens, i));
    }
}

/// A stream whose tokens can all stand where they are has no fault.
proof fn lemma_no_fault(tokens: Seq<NodeView>)
    requires
        forall|j: int| 0 <= j < tokens.len() ==> accepts(tokens, j),
    ensures
        !exists|i: int| is_fault(tokens, i),
{
}

/// The last addition or subtraction of a stream of odd length stands at an
/// odd place before the last operand.
proof fn lemma_last_additive(tokens: Seq<NodeView>)
    requires
        tokens.len() % 2 == 1,
    ensures
        last_additive(tokens) == -1 || (1 <= last_additive(tokens) <= tokens.len() - 2
            && last_additive(tokens) % 2 == 1 && is_additive(tokens[last_additive(tokens)].rule)),
    decreases tokens.len(),
{
    if tokens.len() >= 3 && !is_additive(tokens[tokens.len() - 2].rule) {
        lemma_last_additive(tokens.take(tokens.len() - 2));
    }
}

/// Whether a stream is well formed: an operand, then operators and operands
/// in turn.
pub open spec fn well_formed(tokens: Seq<NodeView>) -> bool {
    tokens.len() % 2 == 1 && forall|j: int| 0 <= j < tokens.len() ==> accepts(tokens, j)
}

/// A stream with a token that cannot stand where it is has a first such
/// token.
proof fn lemma_first_fault(tokens: Seq<NodeView>, j: int)
    requires
        0 <= j < tokens.len(),
        !accepts(tokens, j),
    ensures
        exists|i: int| is_fault(tokens, i),
    decreases j,
{
    if exists|k: int| 0 <= k < j && !accepts(tokens, k) {
        let k = choose|k: int| 0 <= k < j && !accepts(tokens, k);
        lemma_first_fault(tokens, k);
    } else {
        assert(is_fault(tokens, j));
    }
}

/// Reading succeeds on the well-formed streams and on no others, and gives
/// their tree.
pub proof fn lemma_parse(tokens: Seq<NodeView>)
    ensures
        parse(tokens) is Ok <==> well_formed(tokens),
        well_formed(tokens) ==> parse(tokens) == Ok::<ExprView, ErrorView>(sum_tree(tokens)),
{
    if parse(tokens) is Ok {
        assert forall|j: int| 0 <= j < tokens.len() implies accepts(tokens, j) by {
            if !accepts(tokens, j) {
                lemma_first_fault(tokens, j);
            }
        }
    }
}

/// An operand holds no operator.
proof fn lemma_operand_uses(token: NodeView, op: Op)
    requires
        operand_of(token) is Some,
    ensures
        uses(operand_of(token)->0, op) == 0,
{
}

/// The tree of a product has no more operators than the stream has tokens.
proof fn lemma_product_uses(tokens: Seq<NodeView>, op: Op)
    requires
        well_formed(tokens),
    ensures
        uses(product_tree(tokens), op) <= tokens.len() / 2,
    decreases tokens.len(),
{
    assert(accepts(tokens, 0));
    if tokens.len() >= 3 {
        let rest = tokens.take(tokens.len() - 2);
        assert forall|j: int| 0 <= j < rest.len() implies accepts(rest, j) by {
            assert(accepts(tokens, j));
        }
        lemma_product_uses(rest, op);
        assert(accepts(tokens, tokens.len() - 1));
        lemma_operand_uses(tokens[tokens.len() - 1], op);
    } else {
        lemma_operand_uses(tokens[0], op);
    }
}

/// The tree of a well-formed stream has no more operators than the stream
/// has tokens.
pub proof fn lemma_tree_uses(tokens: Seq<NodeView>, op: Op)
    requires
        well_formed(tokens),
    ensures
        uses(sum_tree(tokens), op) <= tokens.len() / 2,
    decreases tokens.len(),
{
    let k = last_additive(tokens);
    lemma_last_additive(tokens);
    if 0 <= k < tokens.len() {
        let left = tokens.take(k);
        let right = tokens.skip(k + 1);
        assert forall|j: int| 0 <= j < left.len() implies accepts(left, j) by {
            assert(accepts(tokens, j));
        }
        assert forall|j: int| 0 <= j < right.len() implies accepts(right, j) by {
            assert(accepts(tokens, j + k + 1));
        }
        lemma_tree_uses(left, op);
        lemma_product_uses(right, op);
    } else {
        lemma_product_uses(tokens, op);
    }
}

/// The expression that the tokens under `value` spell advances the counters
/// less often than `value` has nodes.
pub proof fn lemma_parsed_growth(value: NodeView, counts: CountsView)
    ensures
        parse(value.children) matches Ok(expr) ==> {
            &&& grown(counts, expr_counts(expr, counts), weight(value))
            &&& fits(weight(value), counts) ==> expr_fits(expr, counts)
        },
{
    let tokens = value.children;
    if parse(tokens) is Ok {
        lemma_parse(tokens);
        lemma_tree_uses(tokens, Op::Multiply);
        lemma_tree_uses(tokens, Op::Divide);
        lemma_weights_suffix(tokens, 0);
        assert(weight(value) == 1 + weights(tokens));
    }
}

/// The model of the tree that the parser holds while it reads: the sum read
/// so far, if any, with the operator that follows it, and the product that
/// is being read.
spec fn joined(sum: Option<(Expr, Op)>, term: Expr) -> ExprView {
    match sum {
        Some((left, op)) => ExprView::BinOp { lhs: Box::new(left@), op, rhs: Box::new(term@) },
        None => term@,
    }
}

/// Whether the parser's state stands for the stream read so far.
spec fn reading(read: Seq<NodeView>, sum: Option<(Expr, Op)>, term: Expr) -> bool {
    let k = last_additive(read);
    if 0 <= k < read.len() {
        &&& sum matches Some((left, op))
        &&& left@ == sum_tree(read.take(k))
        &&& Some(op) == operator_of(read[k].rule)
        &&& term@ == product_tree(read.skip(k + 1))
    } else {
        sum is None && term@ == product_tree(read)
    }
}

/// Reads the operand that a token stands for.
fn read_operand(token: &Node) -> (operand: Option<Expr>)
    ensures
        operand is Some == operand_of(token@) is Some,
        operand matches Some(expr) ==> operand_of(token@) == Some(expr@),
{
    match token.rule {
        Rule::Integer => match parse_literal(token.text.as_str()) {
            Some(value) => Some(Expr::Value(value)),
            None => None,
        },
        Rule::Ident => Some(Expr::Variable(token.text.clone())),
        Rule::Deref => Some(Expr::Deref(strip_stars(token.text.as_str()))),
        _ => None,
    }
}

/// Reads the operator that a token of kind `rule` stands for.
fn read_operator(rule: Rule) -> (op: Option<Op>)
    ensures
        op == operator_of(rule),
{
    match rule {
        Rule::Add => Some(Op::Add),
        Rule::Subtract => Some(Op::Subtract),
        Rule::Multiply => Some(Op::Multiply),
        Rule::Divide => Some(Op::Divide),
        _ => None,
    }
}

/// Puts the product that was read under the sum that precedes it.
fn join(sum: Option<(Expr, Op)>, term: Expr) -> (tree: Expr)
    ensures
        tree@ == joined(sum, term),
{
    match sum {
        Some((left, op)) => Expr::BinOp { lhs: Box::new(left), op, rhs: Box::new(term) },
        None => term,
    }
}

/// Reads the flat token stream of an expression into a tree by operator
/// precedence: multiplication and division bind tighter than addition and
/// subtraction, and all four associate to the left.
pub fn parse_expr(pairs: &[Node]) -> (result: Result<Expr, CompileError>)
    ensures
        match result {
            Ok(expr) => parse(views(pairs@)) == Ok::<ExprView, ErrorView>(expr@),
            Err(error) => parse(views(pairs@)) == Err::<ExprView, ErrorView>(error@),
        },
{
    let n = pairs.len();
    let ghost tokens = views(pairs@);
    if n == 0 {
        proof {
            lemma_no_fault(tokens);
        }
        return Err(CompileError::ParseError(String::new()));
    }
    let mut term = match read_operand(&pairs[0]) {
        Some(expr) => expr,
        None => {
            proof {
                lemma_fault(tokens, 0);
            }
            return Err(CompileError::ParseError(pairs[0].text.clone()));
        },
    };
    let mut sum: Option<(Expr, Op)> = None;
    let mut i: usize = 1;
    proof {
        assert(tokens.take(1)[0] == tokens[0]);
    }
    while i < n
        invariant
            1 <= i <= n,
            i % 2 == 1,
            n == pairs@.len(),
            tokens == views(pairs@),
            forall|j: int| 0 <= j < i ==> accepts(tokens, j),
            reading(tokens.take(i as int), sum, term),
        decreases n - i,
    {
        let ghost read = tokens.take(i as int);
        let op = match read_operator(pairs[i].rule) {
            Some(op) => op,
            None => {
                proof {
                    lemma_fault(tokens, i as int);
                }
                return Err(CompileError::ParseError(pairs[i].text.clone()));
            },
        };
        if i + 1 >= n {
            proof {
                lemma_no_fault(tokens);
            }
            return Err(CompileError::ParseError(String::new()));
        }
        let operand = match read_operand(&pairs[i + 1]) {
            Some(expr) => expr,
            None => {
                proof {
                    lemma_fault(tokens, i + 1);
                }
                return Err(CompileError::ParseError(pairs[i + 1].text.clone()));
            },
        };
        proof {
            let next = tokens.take(i + 2);
            let k = last_additive(read);
            lemma_last_additive(read);
            assert(next.take(next.len() - 2) == read);
            assert(next[next.len() - 2] == tokens[i as int]);
            assert(next[next.len() - 1] == tokens[i + 1]);
            if is_additive(tokens[i as int].rule) {
                assert(last_additive(next) == i);
                assert(next.take(i as int) == read);
                assert(next.skip(i + 1).len() == 1);
                assert(next.skip(i + 1)[0] == tokens[i + 1]);
            } else {
                assert(last_additive(next) == k);
                if 0 <= k < read.len() {
                    assert(next.take(k) == read.take(k));
                    assert(next[k] == read[k]);
                    let tail = next.skip(k + 1);
                    assert(tail.take(tail.len() - 2) == read.skip(k + 1));
                    assert(tail[tail.len() - 2] == tokens[i as int]);
                    assert(tail[tail.len() - 1] == tokens[i + 1]);
                }
            }
        }
        match op {
            Op::Add | Op::Subtract => {
                let left = join(sum, term);
                sum = Some((left, op));
                term = operand;
            },
            _ => {
                term = Expr::BinOp { lhs: Box::new(term), op, rhs: Box::new(operand) };
            },
        }
        i = i + 2;
    }
    proof {
        lemma_no_fault(tokens);
        assert(tokens.take(n as int) == tokens);
    }
    Ok(join(sum, term))
}

/// Registers the constant cell of the literal `number` under the type tag
/// `type_value` and returns the cell's name.
pub fn set_number(number: &u16, type_value: &String, variables: &mut Table<(String, u16)>) -> (name:
    String)
    ensures
        name@ == literal_cell(*number),
        final(variables)@ == put(old(variables)@, literal_cell(*number), (type_value@, *number)),
        old(variables).wf() ==> final(variables).wf(),
{
    let mut name = String::from_str("N");
    push_decimal(&mut name, *number as u64);
    variables.insert(name.clone(), (type_value.clone(), *number));
    name
}

/// Appends to `output` the code that copies cell `from` into `dest`.
fn push_copy(output: &mut String, from: &str, store: &str, dest: &str)
    ensures
        final(output)@ == old(output)@ + copy_code(from@, store@, dest@),
{
    let mut code = String::from_str("LOAD ");
    code.append(from);
    code.append("\n");
    code.append(store);
    code.append(" ");
    code.append(dest);
    code.append("\n");
    output.append(code.as_str());
}

/// Appends to `output` the indirect load through `pointer` into its value
/// cell, and returns that cell's name.
fn push_fetch(output: &mut String, pointer: &str) -> (cell: String)
    ensures
        cell@ == deref_cell(pointer@),
        final(output)@ == old(output)@ + fetch_code(pointer@),
{
    let mut cell = String::from_str(pointer);
    cell.append("_value");
    let mut code = String::from_str("LOADI ");
    code.append(pointer);
    code.append("\nSTORE ");
    code.append(cell.as_str());
    code.append("\n");
    output.append(code.as_str());
    cell
}

/// Code appended piece by piece is the code appended at once.
proof fn lemma_joined_code(
    start: Seq<char>,
    a: Seq<char>,
    b: Seq<char>,
    c: Seq<char>,
    d: Seq<char>,
)
    ensures
        start + a + b + (c + d) == start + (a + b + c + d),
{
    assert(start + a + b + (c + d) =~= start + (a + b + c + d));
}

/// Resolves an operand of an operation to the name of a cell: a literal is
/// materialized in its constant cell, a variable is used as it is, a
/// dereference is loaded into the pointer's value cell, and a nested
/// operation is lowered into the scratch cell `R`.
pub fn resolve_sub_expr(
    token: Expr,
    type_value: &String,
    global: &mut Global,
    output: &mut String,
    type_store: &str,
) -> (result: Result<String, CompileError>)
    requires
        expr_fits(token@, old(global)@.counts),
    ensures
        result matches Ok(name) && name@ == operand_name(token@),
        final(global)@ == lower_operand(token@, type_value@, old(global)@),
        final(output)@ == old(output)@ + operand_code(token@, type_store@),
        preserved(old(global)@, final(global)@),
        old(output)@.is_prefix_of(final(output)@),
        old(global).wf() ==> final(global).wf(),
    decreases token, 1int,
{
    proof {
        lemma_expr_extends(token@, scratch_cell(), type_value@, global@.variables);
    }
    match token {
        Expr::Value(value) => {
            let name = set_number(&value, type_value, &mut global.variables);
            Ok(name)
        },
        Expr::Variable(name) => {
            assert(global@.variables == operand_cells(token@, type_value@, old(global)@.variables));
            Ok(name)
        },
        Expr::Deref(pointer) => {
            let cell = push_fetch(output, pointer.as_str());
            global.variables.insert(cell.clone(), (type_value.clone(), DEFAULT_VALUE));
            Ok(cell)
        },
        Expr::BinOp { lhs, op, rhs } => {
            let r = String::from_str("R");
            let ghost whole = token@;
            let nested = Expr::BinOp { lhs, op, rhs };
            assert(nested@ == whole);
            match resolve_expr(nested, &r, type_value, global, output, type_store) {
                Ok(()) => Ok(r),
                Err(error) => Err(error),
            }
        },
    }
}

/// Lowers `expression` into instructions that leave its value in the cell
/// `name`, registering under the type tag `type_value` the cells that the
/// code needs, and storing with the instruction `type_store`.
pub fn resolve_expr(
    expression: Expr,
    name: &String,
    type_value: &String,
    global: &mut Global,
    output: &mut String,
    type_store: &str,
) -> (result: Result<(), CompileError>)
    requires
        expr_fits(expression@, old(global)@.counts),
    ensures
        result is Ok,
        final(global)@ == lower_expr(expression@, name@, type_value@, old(global)@),
        final(output)@ == old(output)@ + expr_code(expression@, name@, type_store@),
        preserved(old(global)@, final(global)@),
        old(output)@.is_prefix_of(final(output)@),
        old(global).wf() ==> final(global).wf(),
    decreases expression, 0int,
{
    proof {
        lemma_expr_extends(expression@, name@, type_value@, global@.variables);
    }
    match expression {
        Expr::Value(value) => {
            let n = set_number(&value, type_value, &mut global.variables);
            let mut code = String::new();
            push_copy(&mut code, n.as_str(), type_store, name.as_str());
            code.append("\n");
            assert(code@ =~= copy_code(n@, type_store@, name@) + "\n"@);
            output.append(code.as_str());
        },
        Expr::Variable(var) => {
            push_copy(output, var.as_str(), type_store, name.as_str());
            global.variables.insert(name.clone(), (type_value.clone(), DEFAULT_VALUE));
        },
        Expr::Deref(pointer) => {
            let mut code = String::new();
            let cell = push_fetch(&mut code, pointer.as_str());
            push_copy(&mut code, cell.as_str(), type_store, name.as_str());
            assert(code@ =~= fetch_code(pointer@) + copy_code(cell@, type_store@, name@));
            output.append(code.as_str());
            global.variables.insert(cell, (type_value.clone(), DEFAULT_VALUE));
        },
        Expr::BinOp { lhs, op, rhs } => {
            let ghost left = (*lhs)@;
            let ghost right = (*rhs)@;
            let ghost start = output@;
            let lhs = match resolve_sub_expr(*lhs, type_value, global, output, type_store) {
                Ok(cell) => cell,
                Err(error) => {
                    return Err(error);
                },
            };
            let rhs = match resolve_sub_expr(*rhs, type_value, global, output, type_store) {
                Ok(cell) => cell,
                Err(error) => {
                    return Err(error);
                },
            };
            let mut result = match op {
                Op::Add => crate::operations::add(&lhs, &rhs),
                Op::Subtract => crate::operations::subtract(&lhs, &rhs),
                Op::Multiply => crate::operations::multiply(&lhs, &rhs, &mut global.counts.mul),
                Op::Divide => crate::operations::divide(&lhs, &rhs, &mut global.counts.div),
            };
            let mut tail = String::from_str("\n");
            tail.append(type_store);
            tail.append(" ");
            tail.append(name.as_str());
            tail.append("\n");
            result.append(tail.as_str());
            output.append(result.as_str());
            proof {
                lemma_joined_code(
                    start,
                    operand_code(left, type_store@),
                    operand_code(right, type_store@),
                    op_code(op, operand_name(left), operand_name(right)),
                    store_code(type_store@, name@),
                );
            }
        },
    }
    Ok(())
}

/// The code that loads through the pointer cell `pointer` into the cell
/// `name`.
pub open spec fn load_through_code(pointer: Seq<char>, name: Seq<char>) -> Seq<char> {
    "CLEAR\nLOADI "@ + pointer + "\nSTORE "@ + name + "\n\n"@
}

/// The code that clears the scratch cell before an expression is assigned.
pub open spec fn clear_scratch_code() -> Seq<char> {
    "CLEAR\nSTORE R\n"@
}

/// What an assignment gives, storing with the instruction `store`. Its
/// children are the identifier and the value. A dereference is loaded
/// through its pointer cell into the identifier's cell; an expression is
/// read, and lowered under the type tag that the identifier was declared
/// with; a built-in call is lowered; no other kind of value is supported.
pub open spec fn lower_assign(node: NodeView, store: Seq<char>, global: GlobalView) -> Result<
    Lowered,
    ErrorView,
> {
    let parts = node.children;
    if parts.len() < 1 {
        Err(ErrorView::MissingField(Field::Identifier))
    } else if parts.len() < 2 {
        Err(ErrorView::MissingField(Field::Value))
    } else {
        let name = parts[0].text;
        let value = parts[1];
        match value.rule {
            Rule::Deref => if value.children.len() < 1 {
                Err(ErrorView::MissingField(Field::Identifier))
            } else {
                Ok(Lowered { global, code: load_through_code(value.children[0].text, name) })
            },
            Rule::Expr => match parse(value.children) {
                Err(error) => Err(error),
                Ok(expr) => match lookup(global.variables, name) {
                    None => Err(ErrorView::UndeclaredVariable(name)),
                    Some(cell) => Ok(
                        Lowered {
                            global: lower_expr(expr, name, cell.0, global),
                            code: clear_scratch_code() + expr_code(expr, name, store),
                        },
                    ),
                },
            },
            Rule::FunctionCall => match lower_builtin(value, name) {
                Err(error) => Err(error),
                Ok(code) => Ok(Lowered { global, code }),
            },
            _ => Err(ErrorView::InvalidValueAssignment),
        }
    }
}

/// Lowers an assignment to the cell that its first child names, storing with
/// the instruction `type_store`. An assignment that fails registers nothing
/// and appends nothing.
pub fn assign(pair: &Node, global: &mut Global, output: &mut String, type_store: &str) -> (result:
    Result<(), CompileError>)
    requires
        fits(weight(pair@), old(global)@.counts),
    ensures
        agrees(
            result,
            lower_assign(pair@, type_store@, old(global)@),
            final(global)@,
            old(output)@,
            final(output)@,
        ),
        result is Err ==> final(global)@ == old(global)@ && final(output)@ == old(output)@,
        preserved(old(global)@, final(global)@),
        old(output)@.is_prefix_of(final(output)@),
        old(global).wf() ==> final(global).wf(),
{
    let parts = pair.children.as_slice();
    proof {
        lemma_children(*pair);
        assert(weight(pair@) == 1 + weights(pair@.children));
    }
    if parts.len() < 1 {
        return Err(CompileError::MissingField(Field::Identifier));
    }
    if parts.len() < 2 {
        return Err(CompileError::MissingField(Field::Value));
    }
    let ident = parts[0].text.clone();
    let value_pair = &parts[1];
    proof {
        lemma_weights_element(pair@.children, 1);
        lemma_parsed_growth(value_pair@, global@.counts);
        lemma_children(*value_pair);
    }
    match value_pair.rule {
        Rule::Deref => {
            let inner = value_pair.children.as_slice();
            if inner.len() < 1 {
                return Err(CompileError::MissingField(Field::Identifier));
            }
            let mut code = String::from_str("CLEAR\nLOADI ");
            code.append(inner[0].text.as_str());
            code.append("\nSTORE ");
            code.append(ident.as_str());
            code.append("\n\n");
            output.append(code.as_str());
        },
        Rule::Expr => {
            let expr = match parse_expr(value_pair.children.as_slice()) {
                Ok(expr) => expr,
                Err(error) => {
                    return Err(error);
                },
            };
            let declared_type = match global.variables.get(ident.as_str()) {
                Some(cell) => cell.0.clone(),
                None => {
                    return Err(CompileError::UndeclaredVariable(ident));
                },
            };
            let ghost before = output@;
            output.append("CLEAR\nSTORE R\n");
            match resolve_expr(expr, &ident, &declared_type, global, output, type_store) {
                Ok(()) => {},
                Err(error) => {
                    return Err(error);
                },
            }
            assert(output@ == before + (clear_scratch_code() + expr_code(
                expr@,
                ident@,
                type_store@,
            )));
        },
        Rule::FunctionCall => {
            match returns_value(value_pair, &ident, output) {
                Ok(()) => {},
                Err(error) => {
                    return Err(error);
                },
            }
        },
        _ => {
            return Err(CompileError::InvalidValueAssignment);
        },
    }
    Ok(())
}

} // verus!
