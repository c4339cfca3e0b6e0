//! Lowering is sequential and only ever adds: no cell and no subroutine is
//! removed or moved, so the memory table and the subroutines keep the order
//! of first declaration, and the same source gives the same program.

use vstd::prelude::*;

use crate::error::ErrorView;
use crate::expr::{
    deref_cell, expr_cells, lemma_expr_cells_distinct, literal_cell, operand_cells, parse,
    scratch_cell,
};
use crate::parser::{
    assemble, ended_block, initial_global, lemma_block_growth, lemma_node_growth, lower_block,
    lower_node, preserved, stopped_node, Cells, ExprView, GlobalView, Lowered, DEFAULT_VALUE,
};
use crate::statements::functions::{function_text, lower_definition};
use crate::statements::variable::default_tag;
use crate::table::{
    distinct, extends, has_name, lemma_extends_chain, lemma_put, lemma_put_extends, lookup, put,
};
use crate::tree::{views, Node, NodeView, Rule};

verus! {

/// Whether the context `after` has the cells and the subroutines of `before`
/// in their places, and keeps names distinct where they were.
pub open spec fn kept(before: GlobalView, after: GlobalView) -> bool {
    &&& extends(before.variables, after.variables)
    &&& extends(before.functions, after.functions)
    &&& distinct(before.variables) ==> distinct(after.variables)
    &&& distinct(before.functions) ==> distinct(after.functions)
}

/// Lowering an expression removes no cell and moves none: the cells that
/// were registered keep their places, and new ones follow them.
pub proof fn lemma_expr_extends(expr: ExprView, dest: Seq<char>, tag: Seq<char>, cells: Cells)
    ensures
        extends(cells, expr_cells(expr, dest, tag, cells)),
        extends(cells, operand_cells(expr, tag, cells)),
    decreases expr,
{
    match expr {
        ExprView::Value(v) => {
            lemma_put_extends(cells, literal_cell(v), (tag, v));
        },
        ExprView::Variable(_) => {
            lemma_put_extends(cells, dest, (tag, DEFAULT_VALUE));
        },
        ExprView::Deref(pointer) => {
            lemma_put_extends(cells, deref_cell(pointer), (tag, DEFAULT_VALUE));
        },
        ExprView::BinOp { lhs, op, rhs } => {
            let left = operand_cells(*lhs, tag, cells);
            lemma_expr_extends(*lhs, scratch_cell(), tag, cells);
            lemma_expr_extends(*rhs, scratch_cell(), tag, left);
        },
    }
}

/// What lowering an expression and then registering a cell leaves.
proof fn lemma_expr_kept(
    expr: ExprView,
    dest: Seq<char>,
    tag: Seq<char>,
    cells: Cells,
    name: Seq<char>,
    entry: (Seq<char>, u16),
)
    ensures
        extends(cells, expr_cells(expr, dest, tag, cells)),
        extends(cells, put(expr_cells(expr, dest, tag, cells), name, entry)),
        extends(cells, put(cells, name, entry)),
        distinct(cells) ==> distinct(expr_cells(expr, dest, tag, cells)) && distinct(
            put(expr_cells(expr, dest, tag, cells), name, entry),
        ) && distinct(put(cells, name, entry)),
{
    let lowered = expr_cells(expr, dest, tag, cells);
    lemma_expr_extends(expr, dest, tag, cells);
    lemma_put_extends(lowered, name, entry);
    lemma_put_extends(cells, name, entry);
    lemma_extends_chain(cells, lowered, put(lowered, name, entry));
    lemma_put(cells, name, entry);
    lemma_put(lowered, name, entry);
    if distinct(cells) {
        lemma_expr_cells_distinct(expr, dest, tag, cells);
    }
}

/// Lowering a statement removes no cell and no subroutine, moves none, and
/// keeps the names distinct.
pub proof fn lemma_node_kept(node: NodeView, global: GlobalView)
    ensures
        lower_node(node, global) matches Ok(lowered) ==> kept(global, lowered.global),
    decreases node, 1int,
{
    let parts = node.children;
    match node.rule {
        Rule::Statement => {
            if parts.len() >= 2 {
                let value = if parts.len() == 3 {
                    parts[2]
                } else {
                    parts[1]
                };
                let tag = if parts.len() == 3 {
                    parts[1].text
                } else {
                    default_tag()
                };
                if let Ok(expr) = parse(value.children) {
                    lemma_expr_kept(
                        expr,
                        parts[0].text,
                        tag,
                        global.variables,
                        parts[0].text,
                        (tag, DEFAULT_VALUE),
                    );
                } else {
                    lemma_put_extends(global.variables, parts[0].text, (tag, DEFAULT_VALUE));
                    lemma_put(global.variables, parts[0].text, (tag, DEFAULT_VALUE));
                }
            }
        },
        Rule::Reassignment | Rule::Dereference => {
            if parts.len() >= 2 {
                if let Ok(expr) = parse(parts[1].children) {
                    if let Some(cell) = lookup(global.variables, parts[0].text) {
                        lemma_expr_kept(
                            expr,
                            parts[0].text,
                            cell.0,
                            global.variables,
                            parts[0].text,
                            cell,
                        );
                    }
                }
            }
        },
        Rule::WhileLoop | Rule::Iff => {
            if parts.len() >= 3 {
                lemma_block_kept(parts.skip(3), global);
            }
        },
        Rule::Function => {
            if parts.len() >= 1 {
                lemma_block_kept(parts.skip(1), global);
                if let Ok(body) = lower_block(parts.skip(1), global) {
                    let text = function_text(parts[0].text, body.code);
                    lemma_put_extends(body.global.functions, parts[0].text, text);
                    lemma_put(body.global.functions, parts[0].text, text);
                    lemma_extends_chain(
                        global.functions,
                        body.global.functions,
                        put(body.global.functions, parts[0].text, text),
                    );
                }
            }
        },
        Rule::Loopp => {
            lemma_block_kept(parts, global);
        },
        _ => {},
    }
}

/// Lowering a sequence of statements removes no cell and no subroutine and
/// moves none: the memory table and the subroutines keep the order of first
/// declaration, and no name is declared twice in either.
pub proof fn lemma_block_kept(nodes: Seq<NodeView>, global: GlobalView)
    ensures
        lower_block(nodes, global) matches Ok(lowered) ==> kept(global, lowered.global),
    decreases nodes, 0int,
{
    if nodes.len() > 0 {
        lemma_block_kept(nodes.drop_last(), global);
        if let Ok(first) = lower_block(nodes.drop_last(), global) {
            lemma_node_kept(nodes.last(), first.global);
            if let Ok(last) = lower_node(nodes.last(), first.global) {
                lemma_extends_chain(global.variables, first.global.variables, last.global.variables);
                lemma_extends_chain(global.functions, first.global.functions, last.global.functions);
            }
        }
    }
}

/// However the lowering of a statement ends, it sets no counter back and
/// removes no cell and no subroutine.
pub proof fn lemma_node_preserved(node: NodeView, global: GlobalView)
    ensures
        lower_node(node, global) matches Ok(lowered) ==> preserved(global, lowered.global),
        preserved(global, stopped_node(node, global)),
    decreases node, 1int,
{
    let parts = node.children;
    lemma_node_growth(node, global);
    lemma_node_kept(node, global);
    match node.rule {
        Rule::WhileLoop | Rule::Iff => {
            if parts.len() >= 3 {
                lemma_block_preserved(parts.skip(3), global);
            }
        },
        Rule::Function => {
            if parts.len() >= 1 {
                lemma_block_preserved(parts.skip(1), global);
            }
        },
        Rule::Loopp => {
            lemma_block_preserved(parts, global);
        },
        _ => {},
    }
}

/// However the lowering of a sequence of statements ends, it sets no
/// counter back and removes no cell and no subroutine: the counters only
/// advance, and the tables only grow behind what they held.
pub proof fn lemma_block_preserved(nodes: Seq<NodeView>, global: GlobalView)
    ensures
        preserved(global, ended_block(nodes, global).global),
    decreases nodes, 0int,
{
    if nodes.len() > 0 {
        lemma_block_preserved(nodes.drop_last(), global);
        if let Ok(first) = lower_block(nodes.drop_last(), global) {
            lemma_block_growth(nodes.drop_last(), global);
            lemma_block_kept(nodes.drop_last(), global);
            lemma_node_preserved(nodes.last(), first.global);
            let end = ended_block(nodes, global).global;
            lemma_extends_chain(global.variables, first.global.variables, end.variables);
            lemma_extends_chain(global.functions, first.global.functions, end.functions);
        }
    }
}

/// Whether a subroutine `name` is defined by a statement or by one of the
/// statements inside it.
pub open spec fn node_defines(node: NodeView, name: Seq<char>) -> bool
    decreases node, 1int,
{
    let parts = node.children;
    match node.rule {
        Rule::Function => parts.len() >= 1 && (parts[0].text == name || block_defines(
            parts.skip(1),
            name,
        )),
        Rule::WhileLoop | Rule::Iff => parts.len() >= 3 && block_defines(parts.skip(3), name),
        Rule::Loopp => block_defines(parts, name),
        _ => false,
    }
}

/// Whether a subroutine `name` is defined in a sequence of statements.
pub open spec fn block_defines(nodes: Seq<NodeView>, name: Seq<char>) -> bool
    decreases nodes, 0int,
{
    nodes.len() > 0 && (block_defines(nodes.drop_last(), name) || node_defines(
        nodes.last(),
        name,
    ))
}

/// Lowering a statement that does not define the subroutine `name` leaves
/// what is entered under that name as it was.
pub proof fn lemma_node_keeps_subroutine(node: NodeView, global: GlobalView, name: Seq<char>)
    requires
        !node_defines(node, name),
    ensures
        lower_node(node, global) matches Ok(lowered) ==> lookup(lowered.global.functions, name)
            == lookup(global.functions, name),
    decreases node, 1int,
{
    let parts = node.children;
    match node.rule {
        Rule::WhileLoop | Rule::Iff => {
            if parts.len() >= 3 {
                lemma_block_keeps_subroutine(parts.skip(3), global, name);
            }
        },
        Rule::Function => {
            if parts.len() >= 1 {
                lemma_block_keeps_subroutine(parts.skip(1), global, name);
                if let Ok(body) = lower_block(parts.skip(1), global) {
                    lemma_put(
                        body.global.functions,
                        parts[0].text,
                        function_text(parts[0].text, body.code),
                    );
                }
            }
        },
        Rule::Loopp => {
            lemma_block_keeps_subroutine(parts, global, name);
        },
        _ => {},
    }
}

/// Lowering statements that do not define the subroutine `name` leaves what
/// is entered under that name as it was.
pub proof fn lemma_block_keeps_subroutine(nodes: Seq<NodeView>, global: GlobalView, name: Seq<char>)
    requires
        !block_defines(nodes, name),
    ensures
        lower_block(nodes, global) matches Ok(lowered) ==> lookup(lowered.global.functions, name)
            == lookup(global.functions, name),
    decreases nodes, 0int,
{
    if nodes.len() > 0 {
        lemma_block_keeps_subroutine(nodes.drop_last(), global, name);
        if let Ok(first) = lower_block(nodes.drop_last(), global) {
            lemma_node_keeps_subroutine(nodes.last(), first.global, name);
        }
    }
}

/// Defining a subroutine enters its text under its name and leaves every
/// subroutine of another name as it was, unless the body defines that other
/// subroutine itself: a second definition does not disturb the first.
pub proof fn lemma_definition_keeps_others(
    name: Seq<char>,
    block: Seq<NodeView>,
    global: GlobalView,
    other: Seq<char>,
)
    requires
        other != name,
        !block_defines(block, other),
    ensures
        lower_definition(name, block, global) matches Ok(defined) ==> {
            &&& lookup(defined.functions, other) == lookup(global.functions, other)
            &&& lookup(defined.functions, name) == Some(
                function_text(name, lower_block(block, global)->Ok_0.code),
            )
            &&& has_name(global.functions, other) ==> has_name(defined.functions, other)
        },
{
    lemma_block_keeps_subroutine(block, global, other);
    if let Ok(body) = lower_block(block, global) {
        lemma_put(body.global.functions, name, function_text(name, body.code));
    }
}

/// What the first `k` statements of a sequence give, followed by what the
/// others give in the context that the first left.
pub open spec fn lower_in_two(nodes: Seq<NodeView>, global: GlobalView, k: int) -> Result<
    Lowered,
    ErrorView,
> {
    match lower_block(nodes.take(k), global) {
        Err(error) => Err(error),
        Ok(first) => match lower_block(nodes.skip(k), first.global) {
            Err(error) => Err(error),
            Ok(rest) => Ok(Lowered { global: rest.global, code: first.code + rest.code }),
        },
    }
}

/// Lowering is sequential: a sequence of statements gives what its first
/// statements give, followed by what the others give in the context that the
/// first left.
pub proof fn lemma_block_split(nodes: Seq<NodeView>, global: GlobalView, k: int)
    requires
        0 <= k <= nodes.len(),
    ensures
        lower_block(nodes, global) == lower_in_two(nodes, global, k),
    decreases nodes.len(),
{
    if k == nodes.len() {
        assert(nodes.take(k) == nodes);
        assert(nodes.skip(k).len() == 0);
        if let Ok(first) = lower_block(nodes, global) {
            assert(first.code + Seq::<char>::empty() == first.code);
        }
    } else {
        let front = nodes.drop_last();
        lemma_block_split(front, global, k);
        assert(front.take(k) == nodes.take(k));
        assert(nodes.skip(k).drop_last() == front.skip(k));
        assert(nodes.skip(k).last() == nodes.last());
        if let Ok(first) = lower_block(nodes.take(k), global) {
            if let Ok(rest) = lower_block(front.skip(k), first.global) {
                if let Ok(last) = lower_node(nodes.last(), rest.global) {
                    assert(first.code + rest.code + last.code == first.code + (rest.code
                        + last.code));
                }
            }
        }
    }
}

/// The order of the memory table and of the subroutines is the order of
/// first declaration in the source: what the first statements of a program
/// declared stays in its place whatever follows, behind the reserved cells.
pub proof fn lemma_declaration_order(tree: Seq<NodeView>, k: int)
    requires
        0 <= k <= tree.len(),
        lower_block(tree, initial_global()) is Ok,
    ensures
        lower_block(tree.take(k), initial_global()) is Ok,
        kept(
            lower_block(tree.take(k), initial_global())->Ok_0.global,
            lower_block(tree, initial_global())->Ok_0.global,
        ),
        kept(initial_global(), lower_block(tree.take(k), initial_global())->Ok_0.global),
{
    lemma_block_split(tree, initial_global(), k);
    lemma_block_kept(tree.take(k), initial_global());
    lemma_block_kept(tree.skip(k), lower_block(tree.take(k), initial_global())->Ok_0.global);
}

/// Compiling the same source twice gives the same program, and with it the
/// same order of declarations: what is compiled depends on the model of the
/// parse tree alone.
pub proof fn lemma_same_source_same_program(first: Seq<Node>, second: Seq<Node>)
    requires
        views(first) == views(second),
    ensures
        assemble(views(first)) == assemble(views(second)),
{
}

} // verus!
