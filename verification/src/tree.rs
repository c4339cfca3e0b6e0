//! The parse tree that the compiler consumes.

use vstd::prelude::*;

verus! {

/// The kind of a parse node.
#[derive(Clone, Copy, Debug, PartialEq, Eq, Structural)]
pub enum Rule {
    /// A declaration: identifier, optional type tag, value.
    Statement,
    /// A reassignment of a declared cell: identifier, value.
    Reassignment,
    /// A store through a pointer cell: identifier, value.
    Dereference,
    /// A while-loop: two terms around a comparison, then the body.
    WhileLoop,
    /// An unconditional loop: the body.
    Loopp,
    /// A conditional: two terms around a comparison, then the body.
    Iff,
    /// A subroutine definition: identifier, then the body.
    Function,
    /// A call: identifier, optional parameter.
    FunctionCall,
    /// An expression: a flat stream of operands and operators.
    Expr,
    /// A read through a pointer cell, written with a leading `*`.
    Deref,
    /// An integer literal.
    Integer,
    /// An identifier.
    Ident,
    /// The operator `+`.
    Add,
    /// The operator `-`.
    Subtract,
    /// The operator `*`.
    Multiply,
    /// The operator `/`.
    Divide,
    /// Any other node; the compiler reads only its text.
    Other,
}

/// A node of the parse tree: its kind, the source text it spans, and the
/// nodes inside it.
#[derive(Debug, PartialEq, Eq)]
pub struct Node {
    pub rule: Rule,
    pub text: String,
    pub children: Vec<Node>,
}

/// The model of a [`Node`].
pub ghost struct NodeView {
    pub rule: Rule,
    pub text: Seq<char>,
    pub children: Seq<NodeView>,
}

/// The model of a node: its kind, its text, and the models of its children.
pub open spec fn model(node: Node) -> NodeView
    decreases node,
{
    NodeView {
        rule: node.rule,
        text: node.text@,
        children: Seq::new(
            node.children@.len(),
            |i: int|
                if 0 <= i < node.children@.len() {
                    model(node.children@[i])
                } else {
                    arbitrary()
                },
        ),
    }
}

impl View for Node {
    type V = NodeView;

    open spec fn view(&self) -> NodeView {
        model(*self)
    }
}

/// The models of a sequence of nodes.
pub open spec fn views(nodes: Seq<Node>) -> Seq<NodeView> {
    Seq::new(nodes.len(), |i: int| nodes[i]@)
}

/// The children of a node's model are the models of its children.
pub proof fn lemma_children(node: Node)
    ensures
        node@.children == views(node.children@),
{
    assert(node@.children.len() == node.children@.len());
    assert forall|i: int| 0 <= i < node.children@.len() implies node@.children[i]
        == node.children@[i]@ by {}
    assert(node@.children =~= views(node.children@));
}

/// The number of nodes in a tree.
pub open spec fn weight(node: NodeView) -> nat
    decreases node, 0int,
{
    1 + weights(node.children)
}

/// The number of nodes in a sequence of trees.
pub open spec fn weights(nodes: Seq<NodeView>) -> nat
    decreases nodes, 1int,
{
    if nodes.len() == 0 {
        0
    } else {
        weights(nodes.drop_last()) + weight(nodes.last())
    }
}

/// A sequence of trees weighs as much as any of its prefixes and the tree
/// that follows the prefix.
pub proof fn lemma_weights_prefix(nodes: Seq<NodeView>, i: int)
    requires
        0 <= i < nodes.len(),
    ensures
        weights(nodes.take(i + 1)) == weights(nodes.take(i)) + weight(nodes[i]),
        weights(nodes.take(i + 1)) <= weights(nodes),
    decreases nodes.len(),
{
    assert(nodes.take(i + 1).drop_last() == nodes.take(i));
    assert(nodes.take(i + 1).last() == nodes[i]);
    if i + 1 == nodes.len() {
        assert(nodes.take(i + 1) == nodes);
    } else {
        lemma_weights_prefix(nodes.drop_last(), i);
        assert(nodes.drop_last().take(i + 1) == nodes.take(i + 1));
    }
}

/// A sequence of trees weighs at least as much as each of its trees.
pub proof fn lemma_weights_element(nodes: Seq<NodeView>, i: int)
    requires
        0 <= i < nodes.len(),
    ensures
        weight(nodes[i]) <= weights(nodes),
{
    lemma_weights_prefix(nodes, i);
}

/// A sequence of trees weighs at least as much as what is left of it when
/// some of its first trees are taken away, and at least its length.
pub proof fn lemma_weights_suffix(nodes: Seq<NodeView>, k: int)
    requires
        0 <= k <= nodes.len(),
    ensures
        weights(nodes.skip(k)) <= weights(nodes),
        nodes.len() <= weights(nodes),
    decreases nodes.len(),
{
    if nodes.len() > 0 {
        assert(weight(nodes.last()) == 1 + weights(nodes.last().children));
        lemma_weights_suffix(nodes.drop_last(), if k < nodes.len() {
            k
        } else {
            0
        });
        if k < nodes.len() {
            assert(nodes.skip(k).drop_last() == nodes.drop_last().skip(k));
            assert(nodes.skip(k).last() == nodes.last());
        } else {
            assert(nodes.skip(k).len() == 0);
        }
    }
}

/// Takes the weight of `nodes` from `budget`: what is left of the budget, or
/// nothing where the trees weigh more.
fn spend(nodes: &[Node], budget: u64) -> (left: Option<u64>)
    ensures
        match left {
            Some(rest) => weights(views(nodes@)) + rest == budget,
            None => weights(views(nodes@)) > budget,
        },
    decreases weights(views(nodes@)),
{
    let ghost trees = views(nodes@);
    let mut left = budget;
    let mut i: usize = 0;
    proof {
        assert(trees.take(0).len() == 0);
    }
    while i < nodes.len()
        invariant
            i <= nodes@.len(),
            trees == views(nodes@),
            weights(trees.take(i as int)) + left == budget,
        decreases nodes@.len() - i,
    {
        let node = &nodes[i];
        proof {
            lemma_weights_prefix(trees, i as int);
            lemma_children(*node);
            assert(weight(node@) == 1 + weights(node@.children));
        }
        if left == 0 {
            return None;
        }
        match spend(node.children.as_slice(), left - 1) {
            Some(rest) => {
                left = rest;
            },
            None => {
                return None;
            },
        }
        i = i + 1;
    }
    proof {
        assert(trees.take(i as int) == trees);
    }
    Some(left)
}

/// Whether the trees have no more than `limit` nodes in all.
pub fn weighs_at_most(nodes: &[Node], limit: u64) -> (fits: bool)
    ensures
        fits == (weights(views(nodes@)) <= limit),
{
    spend(nodes, limit).is_some()
}

} // verus!
