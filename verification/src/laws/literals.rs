//! Every literal of an expression is stored in a constant cell named after
//! its value: different values have different cells, and the memory table
//! declares the cell of a value once, however often the value is used.

use vstd::prelude::*;

use crate::expr::{deref_cell, expr_cells, literal_cell, operand_cells, parse, scratch_cell};
use crate::laws::order::{lemma_block_kept, lemma_node_kept};
use crate::parser::{
    initial_global, lemma_reserved_cells, lower_block, lower_node, Cells, ExprView, GlobalView,
    DEFAULT_VALUE,
};
use crate::statements::variable::default_tag;
use crate::table::{
    has_name, lemma_extends_keeps, lemma_once, lemma_put, lemma_put_extends, lookup, once, put,
};
use crate::text::{decimal, lemma_decimal, lemma_decimal_injective};
use crate::tree::{NodeView, Rule};

verus! {

/// Whether the literal `value` occurs in `expr`.
pub open spec fn mentions(expr: ExprView, value: u16) -> bool
    decreases expr,
{
    match expr {
        ExprView::Value(v) => v == value,
        ExprView::BinOp { lhs, op, rhs } => mentions(*lhs, value) || mentions(*rhs, value),
        _ => false,
    }
}

/// Different literals have different constant cells: the cell's name is
/// determined by the value, and determines it.
pub proof fn lemma_literal_cells_differ(a: u16, b: u16)
    requires
        a != b,
    ensures
        literal_cell(a) != literal_cell(b),
{
    if literal_cell(a) == literal_cell(b) {
        assert(literal_cell(a).skip(1) =~= decimal(a as nat)) by {
            reveal_strlit("N");
        }
        assert(literal_cell(b).skip(1) =~= decimal(b as nat)) by {
            reveal_strlit("N");
        }
        lemma_decimal_injective(a as nat, b as nat);
    }
}

/// No pointer's value cell is the constant cell of a literal.
pub proof fn lemma_literal_cell_is_no_value_cell(value: u16, pointer: Seq<char>)
    ensures
        literal_cell(value) != deref_cell(pointer),
{
    reveal_strlit("N");
    reveal_strlit("_value");
    lemma_decimal(value as nat);
    let numeral = decimal(value as nat);
    assert(literal_cell(value).last() == numeral.last());
    assert(deref_cell(pointer).last() == 'e');
}

/// Resolving an operand leaves the constant cell of a literal as it was.
proof fn lemma_operand_keeps_literal(operand: ExprView, tag: Seq<char>, cells: Cells, value: u16)
    requires
        lookup(cells, literal_cell(value)) == Some((tag, value)),
    ensures
        lookup(operand_cells(operand, tag, cells), literal_cell(value)) == Some((tag, value)),
    decreases operand,
{
    match operand {
        ExprView::Value(v) => {
            lemma_put(cells, literal_cell(v), (tag, v));
            if v != value {
                lemma_literal_cells_differ(v, value);
            }
        },
        ExprView::Variable(_) => {},
        ExprView::Deref(pointer) => {
            lemma_put(cells, deref_cell(pointer), (tag, DEFAULT_VALUE));
            lemma_literal_cell_is_no_value_cell(value, pointer);
        },
        ExprView::BinOp { lhs, op, rhs } => {
            lemma_operand_keeps_literal(*lhs, tag, cells, value);
            lemma_operand_keeps_literal(*rhs, tag, operand_cells(*lhs, tag, cells), value);
        },
    }
}

/// Every literal of an expression has its constant cell once the expression
/// is lowered: the cell named after the value holds exactly the value, under
/// the type tag of the lowering, however often the literal occurs.
pub proof fn lemma_literals_registered(
    expr: ExprView,
    dest: Seq<char>,
    tag: Seq<char>,
    cells: Cells,
    value: u16,
)
    requires
        mentions(expr, value),
    ensures
        lookup(expr_cells(expr, dest, tag, cells), literal_cell(value)) == Some((tag, value)),
        lookup(operand_cells(expr, tag, cells), literal_cell(value)) == Some((tag, value)),
    decreases expr,
{
    match expr {
        ExprView::Value(v) => {
            lemma_put(cells, literal_cell(v), (tag, v));
        },
        ExprView::BinOp { lhs, op, rhs } => {
            let left = operand_cells(*lhs, tag, cells);
            if mentions(*lhs, value) {
                lemma_literals_registered(*lhs, scratch_cell(), tag, cells, value);
                lemma_operand_keeps_literal(*rhs, tag, left, value);
            } else {
                lemma_literals_registered(*rhs, scratch_cell(), tag, left, value);
            }
        },
        _ => {},
    }
}

/// Whether the literal `value` occurs in the value of a declaration or
/// assignment: in the expression that its tokens spell.
pub open spec fn value_mentions(value: NodeView, literal: u16) -> bool {
    match parse(value.children) {
        Ok(expr) if value.rule == Rule::Expr => mentions(expr, literal),
        _ => false,
    }
}

/// Whether the literal `value` occurs in an expression of a statement or of
/// the statements inside it.
pub open spec fn node_mentions(node: NodeView, literal: u16) -> bool
    decreases node, 1int,
{
    let parts = node.children;
    match node.rule {
        Rule::Statement => if parts.len() == 3 {
            value_mentions(parts[2], literal)
        } else if parts.len() >= 2 {
            value_mentions(parts[1], literal)
        } else {
            false
        },
        Rule::Reassignment | Rule::Dereference => parts.len() >= 2 && value_mentions(
            parts[1],
            literal,
        ),
        Rule::WhileLoop | Rule::Iff => parts.len() >= 3 && block_mentions(parts.skip(3), literal),
        Rule::Function => parts.len() >= 1 && block_mentions(parts.skip(1), literal),
        Rule::Loopp => block_mentions(parts, literal),
        _ => false,
    }
}

/// Whether the literal `value` occurs in an expression of a sequence of
/// statements.
pub open spec fn block_mentions(nodes: Seq<NodeView>, literal: u16) -> bool
    decreases nodes, 0int,
{
    nodes.len() > 0 && (block_mentions(nodes.drop_last(), literal) || node_mentions(
        nodes.last(),
        literal,
    ))
}

/// A statement that is lowered leaves a constant cell for every literal in
/// it.
pub proof fn lemma_node_registers(node: NodeView, global: GlobalView, literal: u16)
    requires
        node_mentions(node, literal),
    ensures
        lower_node(node, global) matches Ok(lowered) ==> has_name(
            lowered.global.variables,
            literal_cell(literal),
        ),
    decreases node, 1int,
{
    let parts = node.children;
    let cell = literal_cell(literal);
    match node.rule {
        Rule::Statement => {
            let value = if parts.len() == 3 {
                parts[2]
            } else {
                parts[1]
            };
            let tag = if parts.len() == 3 {
                parts[1].text
            } else {
                default_tag()
            };
            let expr = parse(value.children)->Ok_0;
            let lowered = expr_cells(expr, parts[0].text, tag, global.variables);
            lemma_literals_registered(expr, parts[0].text, tag, global.variables, literal);
            lemma_put_extends(lowered, parts[0].text, (tag, DEFAULT_VALUE));
            lemma_extends_keeps(lowered, put(lowered, parts[0].text, (tag, DEFAULT_VALUE)), cell);
        },
        Rule::Reassignment | Rule::Dereference => {
            let expr = parse(parts[1].children)->Ok_0;
            if let Some(declared) = lookup(global.variables, parts[0].text) {
                lemma_literals_registered(
                    expr,
                    parts[0].text,
                    declared.0,
                    global.variables,
                    literal,
                );
            }
        },
        Rule::WhileLoop | Rule::Iff => {
            lemma_block_registers(parts.skip(3), global, literal);
        },
        Rule::Function => {
            lemma_block_registers(parts.skip(1), global, literal);
        },
        Rule::Loopp => {
            lemma_block_registers(parts, global, literal);
        },
        _ => {},
    }
}

/// A sequence of statements that is lowered leaves a constant cell for every
/// literal in it.
pub proof fn lemma_block_registers(nodes: Seq<NodeView>, global: GlobalView, literal: u16)
    requires
        block_mentions(nodes, literal),
    ensures
        lower_block(nodes, global) matches Ok(lowered) ==> has_name(
            lowered.global.variables,
            literal_cell(literal),
        ),
    decreases nodes, 0int,
{
    if let Ok(first) = lower_block(nodes.drop_last(), global) {
        if let Ok(last) = lower_node(nodes.last(), first.global) {
            if node_mentions(nodes.last(), literal) {
                lemma_node_registers(nodes.last(), first.global, literal);
            } else {
                lemma_block_registers(nodes.drop_last(), global, literal);
                lemma_node_kept(nodes.last(), first.global);
                lemma_extends_keeps(
                    first.global.variables,
                    last.global.variables,
                    literal_cell(literal),
                );
            }
        }
    }
}

/// The memory table of a compiled program declares the constant cell of
/// every literal that an expression of the program uses, and declares it
/// exactly once, however often the literal is used.
pub proof fn lemma_literal_cell_once(tree: Seq<NodeView>, literal: u16)
    requires
        lower_block(tree, initial_global()) is Ok,
        block_mentions(tree, literal),
    ensures
        once(
            lower_block(tree, initial_global())->Ok_0.global.variables,
            literal_cell(literal),
        ),
{
    let lowered = lower_block(tree, initial_global())->Ok_0;
    lemma_reserved_cells();
    lemma_block_registers(tree, initial_global(), literal);
    lemma_block_kept(tree, initial_global());
    lemma_once(lowered.global.variables, literal_cell(literal));
}

/// Whether the constant cell of `literal` is registered with the literal's
/// value.
pub open spec fn holds_literal(cells: Cells, literal: u16) -> bool {
    lookup(cells, literal_cell(literal)) matches Some(cell) && cell.1 == literal
}

/// Whether a declaration or assignment among a statement and the statements
/// inside it has the cell `name` as its target.
pub open spec fn node_targets(node: NodeView, name: Seq<char>) -> bool
    decreases node, 1int,
{
    let parts = node.children;
    match node.rule {
        Rule::Statement | Rule::Reassignment | Rule::Dereference => parts.len() >= 1
            && parts[0].text == name,
        Rule::WhileLoop | Rule::Iff => parts.len() >= 3 && block_targets(parts.skip(3), name),
        Rule::Function => parts.len() >= 1 && block_targets(parts.skip(1), name),
        Rule::Loopp => block_targets(parts, name),
        _ => false,
    }
}

/// Whether a declaration or assignment in a sequence of statements has the
/// cell `name` as its target.
pub open spec fn block_targets(nodes: Seq<NodeView>, name: Seq<char>) -> bool
    decreases nodes, 0int,
{
    nodes.len() > 0 && (block_targets(nodes.drop_last(), name) || node_targets(
        nodes.last(),
        name,
    ))
}

/// Lowering an expression into another cell leaves the constant cell of a
/// literal with the literal's value.
proof fn lemma_expr_keeps_literal(
    expr: ExprView,
    dest: Seq<char>,
    tag: Seq<char>,
    cells: Cells,
    literal: u16,
)
    requires
        holds_literal(cells, literal),
        dest != literal_cell(literal),
    ensures
        holds_literal(expr_cells(expr, dest, tag, cells), literal),
        holds_literal(operand_cells(expr, tag, cells), literal),
    decreases expr,
{
    match expr {
        ExprView::Value(v) => {
            lemma_put(cells, literal_cell(v), (tag, v));
            if v != literal {
                lemma_literal_cells_differ(v, literal);
            }
        },
        ExprView::Variable(_) => {
            lemma_put(cells, dest, (tag, DEFAULT_VALUE));
        },
        ExprView::Deref(pointer) => {
            lemma_put(cells, deref_cell(pointer), (tag, DEFAULT_VALUE));
            lemma_literal_cell_is_no_value_cell(literal, pointer);
        },
        ExprView::BinOp { lhs, op, rhs } => {
            lemma_expr_keeps_literal(*lhs, dest, tag, cells, literal);
            lemma_expr_keeps_literal(*rhs, dest, tag, operand_cells(*lhs, tag, cells), literal);
        },
    }
}

/// Lowering a statement that neither declares nor assigns the constant cell
/// of a literal gives that cell the literal's value if the statement uses the
/// literal, and leaves it with that value if it had it.
pub proof fn lemma_node_holds_literal(node: NodeView, global: GlobalView, literal: u16)
    requires
        !node_targets(node, literal_cell(literal)),
        node_mentions(node, literal) || holds_literal(global.variables, literal),
    ensures
        lower_node(node, global) matches Ok(lowered) ==> holds_literal(
            lowered.global.variables,
            literal,
        ),
    decreases node, 1int,
{
    let parts = node.children;
    let cell = literal_cell(literal);
    match node.rule {
        Rule::Statement => {
            if parts.len() >= 2 {
                let value = if parts.len() == 3 {
                    parts[2]
                } else {
                    parts[1]
                };
                let tag = if parts.len() == 3 {
                    parts[1].text
                } else {
                    default_tag()
                };
                lemma_put(global.variables, parts[0].text, (tag, DEFAULT_VALUE));
                if value.rule == Rule::Expr {
                    if let Ok(expr) = parse(value.children) {
                        let lowered = expr_cells(expr, parts[0].text, tag, global.variables);
                        if mentions(expr, literal) {
                            lemma_literals_registered(
                                expr,
                                parts[0].text,
                                tag,
                                global.variables,
                                literal,
                            );
                        } else {
                            lemma_expr_keeps_literal(
                                expr,
                                parts[0].text,
                                tag,
                                global.variables,
                                literal,
                            );
                        }
                        lemma_put(lowered, parts[0].text, (tag, DEFAULT_VALUE));
                    }
                }
            }
        },
        Rule::Reassignment | Rule::Dereference => {
            if parts.len() >= 2 && parts[1].rule == Rule::Expr {
                if let Ok(expr) = parse(parts[1].children) {
                    if let Some(declared) = lookup(global.variables, parts[0].text) {
                        if mentions(expr, literal) {
                            lemma_literals_registered(
                                expr,
                                parts[0].text,
                                declared.0,
                                global.variables,
                                literal,
                            );
                        } else {
                            lemma_expr_keeps_literal(
                                expr,
                                parts[0].text,
                                declared.0,
                                global.variables,
                                literal,
                            );
                        }
                    }
                }
            }
        },
        Rule::WhileLoop | Rule::Iff => {
            if parts.len() >= 3 {
                lemma_block_holds_literal(parts.skip(3), global, literal);
            }
        },
        Rule::Function => {
            if parts.len() >= 1 {
                lemma_block_holds_literal(parts.skip(1), global, literal);
            }
        },
        Rule::Loopp => {
            lemma_block_holds_literal(parts, global, literal);
        },
        _ => {},
    }
}

/// Lowering statements that neither declare nor assign the constant cell of
/// a literal gives that cell the literal's value if they use the literal,
/// and leaves it with that value if it had it.
pub proof fn lemma_block_holds_literal(nodes: Seq<NodeView>, global: GlobalView, literal: u16)
    requires
        !block_targets(nodes, literal_cell(literal)),
        block_mentions(nodes, literal) || holds_literal(global.variables, literal),
    ensures
        lower_block(nodes, global) matches Ok(lowered) ==> holds_literal(
            lowered.global.variables,
            literal,
        ),
    decreases nodes, 0int,
{
    if nodes.len() > 0 {
        if let Ok(first) = lower_block(nodes.drop_last(), global) {
            if block_mentions(nodes.drop_last(), literal) || holds_literal(
                global.variables,
                literal,
            ) {
                lemma_block_holds_literal(nodes.drop_last(), global, literal);
            }
            lemma_node_holds_literal(nodes.last(), first.global, literal);
        }
    }
}

/// A compiled program stores every literal that an expression uses in the
/// constant cell named after it: the memory table declares the cell with
/// exactly the literal's value, unless the program declares or assigns a
/// cell of that very name.
pub proof fn lemma_literal_cell_holds_value(tree: Seq<NodeView>, literal: u16)
    requires
        lower_block(tree, initial_global()) is Ok,
        block_mentions(tree, literal),
        !block_targets(tree, literal_cell(literal)),
    ensures
        holds_literal(lower_block(tree, initial_global())->Ok_0.global.variables, literal),
{
    lemma_block_holds_literal(tree, initial_global(), literal);
}

} // verus!
