//! The counters count what the source holds, and the arithmetic subroutines
//! follow from the counters: a program holds the multiplication body once if
//! it multiplies and not otherwise, and likewise the division body.

use vstd::prelude::*;

use crate::error::ErrorView;
use crate::expr::{parse, uses};
use crate::operations::{divide_body, multiply_body};
use crate::parser::{
    assemble, halt_code, initial_global, lower_block, lower_node, memory_table, routines_text,
    subroutines, GlobalView, Op,
};
use crate::tree::{NodeView, Rule};

verus! {

/// The number of operators `op` in the value of a declaration or
/// assignment: those of the expression that its tokens spell, and none in
/// any other kind of value.
pub open spec fn value_uses(value: NodeView, op: Op) -> nat {
    match parse(value.children) {
        Ok(expr) if value.rule == Rule::Expr => uses(expr, op),
        _ => 0,
    }
}

/// The number of operators `op` in the expressions of a statement and of the
/// statements inside it.
pub open spec fn node_uses(node: NodeView, op: Op) -> nat
    decreases node, 1int,
{
    let parts = node.children;
    match node.rule {
        Rule::Statement => if parts.len() == 3 {
            value_uses(parts[2], op)
        } else if parts.len() >= 2 {
            value_uses(parts[1], op)
        } else {
            0
        },
        Rule::Reassignment | Rule::Dereference => if parts.len() >= 2 {
            value_uses(parts[1], op)
        } else {
            0
        },
        Rule::WhileLoop | Rule::Iff => if parts.len() >= 3 {
            block_uses(parts.skip(3), op)
        } else {
            0
        },
        Rule::Function => if parts.len() >= 1 {
            block_uses(parts.skip(1), op)
        } else {
            0
        },
        Rule::Loopp => block_uses(parts, op),
        _ => 0,
    }
}

/// The number of operators `op` in the expressions of a sequence of
/// statements.
pub open spec fn block_uses(nodes: Seq<NodeView>, op: Op) -> nat
    decreases nodes, 0int,
{
    if nodes.len() == 0 {
        0
    } else {
        block_uses(nodes.drop_last(), op) + node_uses(nodes.last(), op)
    }
}

/// The number of constructs of kind `kind` in a statement: the statement
/// itself if it is of that kind, and those among the statements inside it.
pub open spec fn node_constructs(node: NodeView, kind: Rule) -> nat
    decreases node, 1int,
{
    let parts = node.children;
    let own: nat = if node.rule == kind {
        1
    } else {
        0
    };
    match node.rule {
        Rule::WhileLoop | Rule::Iff => if parts.len() >= 3 {
            block_constructs(parts.skip(3), kind) + own
        } else {
            own
        },
        Rule::Function => if parts.len() >= 1 {
            block_constructs(parts.skip(1), kind) + own
        } else {
            own
        },
        Rule::Loopp => block_constructs(parts, kind) + own,
        _ => own,
    }
}

/// The number of constructs of kind `kind` in a sequence of statements.
pub open spec fn block_constructs(nodes: Seq<NodeView>, kind: Rule) -> nat
    decreases nodes, 0int,
{
    if nodes.len() == 0 {
        0
    } else {
        block_constructs(nodes.drop_last(), kind) + node_constructs(nodes.last(), kind)
    }
}

/// Whether the counters `after` are the counters `before` advanced by what
/// the statements `nodes` hold: the multiplications and divisions of their
/// expressions, and their while-loops, conditionals and unconditional loops.
pub open spec fn counted(nodes: Seq<NodeView>, before: GlobalView, after: GlobalView) -> bool {
    &&& after.counts.mul == before.counts.mul + block_uses(nodes, Op::Multiply)
    &&& after.counts.div == before.counts.div + block_uses(nodes, Op::Divide)
    &&& after.counts.whiles == before.counts.whiles + block_constructs(nodes, Rule::WhileLoop)
    &&& after.counts.ifs == before.counts.ifs + block_constructs(nodes, Rule::Iff)
    &&& after.counts.loops == before.counts.loops + block_constructs(nodes, Rule::Loopp)
}

/// Lowering a statement advances each counter by what the statement holds.
pub proof fn lemma_node_counted(node: NodeView, global: GlobalView)
    ensures
        lower_node(node, global) matches Ok(lowered) ==> counted(
            seq![node],
            global,
            lowered.global,
        ),
    decreases node, 1int,
{
    let parts = node.children;
    let one = seq![node];
    assert(one.drop_last() == Seq::<NodeView>::empty());
    assert(one.last() == node);
    assert forall|op: Op| block_uses(one, op) == node_uses(node, op) by {
        assert(block_uses(one.drop_last(), op) == 0);
    }
    assert forall|kind: Rule| block_constructs(one, kind) == node_constructs(node, kind) by {
        assert(block_constructs(one.drop_last(), kind) == 0);
    }
    match node.rule {
        Rule::WhileLoop | Rule::Iff => {
            if parts.len() >= 3 {
                lemma_block_counted(parts.skip(3), global);
            }
        },
        Rule::Function => {
            if parts.len() >= 1 {
                lemma_block_counted(parts.skip(1), global);
            }
        },
        Rule::Loopp => {
            lemma_block_counted(parts, global);
        },
        _ => {},
    }
}

/// Lowering a sequence of statements advances each counter by what the
/// statements hold: once for each multiplication and division of their
/// expressions, and once for each while-loop, conditional and unconditional
/// loop, nested ones included.
pub proof fn lemma_block_counted(nodes: Seq<NodeView>, global: GlobalView)
    ensures
        lower_block(nodes, global) matches Ok(lowered) ==> counted(nodes, global, lowered.global),
    decreases nodes, 0int,
{
    if nodes.len() > 0 {
        lemma_block_counted(nodes.drop_last(), global);
        if let Ok(first) = lower_block(nodes.drop_last(), global) {
            lemma_node_counted(nodes.last(), first.global);
            let one = seq![nodes.last()];
            assert(one.drop_last() == Seq::<NodeView>::empty());
            assert(one.last() == nodes.last());
            assert forall|op: Op| block_uses(one, op) == node_uses(nodes.last(), op) by {
                assert(block_uses(one.drop_last(), op) == 0);
            }
            assert forall|kind: Rule|
                block_constructs(one, kind) == node_constructs(nodes.last(), kind) by {
                assert(block_constructs(one.drop_last(), kind) == 0);
            }
        }
    }
}

/// The arithmetic subroutines that a program calls for: the division body if
/// an expression divides, then the multiplication body if an expression
/// multiplies.
pub open spec fn arithmetic_section(tree: Seq<NodeView>) -> Seq<char> {
    (if block_uses(tree, Op::Divide) > 0 {
        divide_body() + "\n"@
    } else {
        Seq::empty()
    }) + (if block_uses(tree, Op::Multiply) > 0 {
        multiply_body() + "\n"@
    } else {
        Seq::empty()
    })
}

/// A program without multiplication and division holds neither arithmetic
/// subroutine: after the halt come the defined subroutines at once.
pub proof fn lemma_no_arithmetic_no_subroutines(tree: Seq<NodeView>)
    requires
        lower_block(tree, initial_global()) is Ok,
        block_uses(tree, Op::Multiply) == 0,
        block_uses(tree, Op::Divide) == 0,
    ensures
        ({
            let lowered = lower_block(tree, initial_global())->Ok_0;
            &&& subroutines(lowered.global.counts) == Seq::<char>::empty()
            &&& assemble(tree) == Ok::<Seq<char>, ErrorView>(
                (lowered.code + halt_code() + routines_text(lowered.global.functions)
                    + memory_table(lowered.global.variables)).drop_last(),
            )
        }),
{
    let lowered = lower_block(tree, initial_global())->Ok_0;
    lemma_block_counted(tree, initial_global());
    assert(lowered.code + halt_code() + Seq::<char>::empty() == lowered.code + halt_code());
}

/// A program that multiplies holds the body of the multiplication
/// subroutine once, however often it multiplies, and one that does not
/// multiply does not hold it; the same is true of division. The bodies stand
/// between the halt and the defined subroutines, the division body first.
pub proof fn lemma_used_subroutines_once(tree: Seq<NodeView>)
    requires
        lower_block(tree, initial_global()) is Ok,
    ensures
        ({
            let lowered = lower_block(tree, initial_global())->Ok_0;
            &&& subroutines(lowered.global.counts) == arithmetic_section(tree)
            &&& assemble(tree) == Ok::<Seq<char>, ErrorView>(
                (lowered.code + halt_code() + arithmetic_section(tree) + routines_text(
                    lowered.global.functions,
                ) + memory_table(lowered.global.variables)).drop_last(),
            )
        }),
{
    lemma_block_counted(tree, initial_global());
}

} // verus!
