//! No two constructs of a compilation share a label: each while-loop,
//! conditional and unconditional loop draws a suffix of its own from the
//! counter of its kind, labels of different kinds differ in their prefix, and
//! a subroutine's label is made of its name.

use vstd::prelude::*;

use crate::laws::counting::{block_constructs, lemma_block_counted, node_constructs};
use crate::parser::{lower_block, CountsView, GlobalView};
use crate::sentences::iff::{break_label, if_code, if_skip, lower_if};
use crate::sentences::loops::{
    begin_label, init_label, loop_code, loop_label, lower_loop, lower_while, next_label,
    while_code, while_skip,
};
use crate::statements::functions::{function_label, function_text, lower_function};
use crate::table::{lemma_put, lookup};
use crate::text::{decimal, lemma_decimal_injective};
use crate::tree::{NodeView, Rule};

verus! {

/// A construct that declares labels, with what its labels are made of: the
/// suffix drawn from the counter of its kind, or the subroutine's name.
pub ghost enum Construct {
    While { suffix: nat },
    If { suffix: nat },
    Loop { suffix: nat },
    Function { name: Seq<char> },
}

/// The labels that a construct declares.
pub open spec fn labels(construct: Construct) -> Set<Seq<char>> {
    match construct {
        Construct::While { suffix } => set![
            begin_label(suffix),
            init_label(suffix),
            next_label(suffix),
        ],
        Construct::If { suffix } => set![break_label(suffix)],
        Construct::Loop { suffix } => set![loop_label(suffix)],
        Construct::Function { name } => set![function_label(name)],
    }
}

/// The constructs of a statement in the order in which their lowering ends,
/// when the lowering starts with the counters `counts`: those inside the
/// statement, then the statement itself, whose suffix is the counter of its
/// kind advanced by the constructs of that kind inside it.
pub open spec fn node_labelled(node: NodeView, counts: CountsView) -> Seq<Construct>
    decreases node, 1int,
{
    let parts = node.children;
    match node.rule {
        Rule::WhileLoop => if parts.len() >= 3 {
            block_labelled(parts.skip(3), counts).push(
                Construct::While {
                    suffix: counts.whiles + block_constructs(parts.skip(3), Rule::WhileLoop),
                },
            )
        } else {
            Seq::empty()
        },
        Rule::Iff => if parts.len() >= 3 {
            block_labelled(parts.skip(3), counts).push(
                Construct::If { suffix: counts.ifs + block_constructs(parts.skip(3), Rule::Iff) },
            )
        } else {
            Seq::empty()
        },
        Rule::Loopp => block_labelled(parts, counts).push(
            Construct::Loop { suffix: counts.loops + block_constructs(parts, Rule::Loopp) },
        ),
        Rule::Function => if parts.len() >= 1 {
            block_labelled(parts.skip(1), counts).push(Construct::Function { name: parts[0].text })
        } else {
            Seq::empty()
        },
        _ => Seq::empty(),
    }
}

/// The counters `counts` advanced by the constructs of `nodes`.
pub open spec fn advanced(counts: CountsView, nodes: Seq<NodeView>) -> CountsView {
    CountsView {
        whiles: counts.whiles + block_constructs(nodes, Rule::WhileLoop),
        ifs: counts.ifs + block_constructs(nodes, Rule::Iff),
        loops: counts.loops + block_constructs(nodes, Rule::Loopp),
        ..counts
    }
}

/// The constructs of a sequence of statements in the order in which their
/// lowering ends, when the lowering starts with the counters `counts`.
pub open spec fn block_labelled(nodes: Seq<NodeView>, counts: CountsView) -> Seq<Construct>
    decreases nodes, 0int,
{
    if nodes.len() == 0 {
        Seq::empty()
    } else {
        block_labelled(nodes.drop_last(), counts) + node_labelled(
            nodes.last(),
            advanced(counts, nodes.drop_last()),
        )
    }
}

/// The code of a while-loop, a conditional and an unconditional loop carries
/// the suffix that `node_labelled` gives the construct, and the text of a
/// subroutine is entered with the label of its name.
pub proof fn lemma_labels_in_code(node: NodeView, global: GlobalView)
    ensures
        node.rule == Rule::WhileLoop ==> (lower_while(node, global) matches Ok(lowered) ==> {
            &&& node_labelled(node, global.counts).last() is While
            &&& lowered.code == while_code(
                node_labelled(node, global.counts).last()->While_suffix,
                node.children[0].text,
                node.children[2].text,
                while_skip(node.children[1].text)->0,
                lower_block(node.children.skip(3), global)->Ok_0.code,
            )
        }),
        node.rule == Rule::Iff ==> (lower_if(node, global) matches Ok(lowered) ==> {
            &&& node_labelled(node, global.counts).last() is If
            &&& lowered.code == if_code(
                node_labelled(node, global.counts).last()->If_suffix,
                node.children[0].text,
                node.children[2].text,
                if_skip(node.children[1].text)->0,
                lower_block(node.children.skip(3), global)->Ok_0.code,
            )
        }),
        node.rule == Rule::Loopp ==> (lower_loop(node, global) matches Ok(lowered) ==> {
            &&& node_labelled(node, global.counts).last() is Loop
            &&& lowered.code == loop_code(
                node_labelled(node, global.counts).last()->Loop_suffix,
                lower_block(node.children, global)->Ok_0.code,
            )
        }),
        node.rule == Rule::Function ==> (lower_function(node, global) matches Ok(defined) ==> {
            &&& node_labelled(node, global.counts).last() is Function
            &&& lookup(
                defined.functions,
                node_labelled(node, global.counts).last()->Function_name,
            ) == Some(
                function_text(
                    node_labelled(node, global.counts).last()->Function_name,
                    lower_block(node.children.skip(1), global)->Ok_0.code,
                ),
            )
        }),
{
    let parts = node.children;
    match node.rule {
        Rule::WhileLoop | Rule::Iff => {
            if parts.len() >= 3 {
                lemma_block_counted(parts.skip(3), global);
            }
        },
        Rule::Loopp => {
            lemma_block_counted(parts, global);
        },
        Rule::Function => {
            if parts.len() >= 1 {
                if let Ok(body) = lower_block(parts.skip(1), global) {
                    lemma_put(
                        body.global.functions,
                        parts[0].text,
                        function_text(parts[0].text, body.code),
                    );
                }
            }
        },
        _ => {},
    }
}

/// Whether the suffixes of `constructs` lie between the counters `low`,
/// included, and `high`, excluded, each under the counter of its kind.
pub open spec fn bounded(constructs: Seq<Construct>, low: CountsView, high: CountsView) -> bool {
    forall|k: int|
        0 <= k < constructs.len() ==> match #[trigger] constructs[k] {
            Construct::While { suffix } => low.whiles <= suffix < high.whiles,
            Construct::If { suffix } => low.ifs <= suffix < high.ifs,
            Construct::Loop { suffix } => low.loops <= suffix < high.loops,
            Construct::Function { .. } => true,
        }
}

/// Whether two constructs differ in kind or the second has the greater
/// suffix.
pub open spec fn later(first: Construct, second: Construct) -> bool {
    match (first, second) {
        (Construct::While { suffix: a }, Construct::While { suffix: b }) => a < b,
        (Construct::If { suffix: a }, Construct::If { suffix: b }) => a < b,
        (Construct::Loop { suffix: a }, Construct::Loop { suffix: b }) => a < b,
        _ => true,
    }
}

/// Whether among `constructs` each suffix is greater than those of the same
/// kind before it.
pub open spec fn increasing(constructs: Seq<Construct>) -> bool {
    forall|i: int, j: int|
        0 <= i < j < constructs.len() ==> later(#[trigger] constructs[i], #[trigger] constructs[j])
}

/// The counters advanced by a sequence of statements are those advanced by
/// all but the last statement and then by the last.
proof fn lemma_advanced_last(counts: CountsView, nodes: Seq<NodeView>)
    requires
        nodes.len() > 0,
    ensures
        advanced(counts, nodes) == advanced(advanced(counts, nodes.drop_last()), seq![nodes.last()]),
{
    let one = seq![nodes.last()];
    assert(one.drop_last() == Seq::<NodeView>::empty());
    assert(one.last() == nodes.last());
    assert forall|kind: Rule|
        block_constructs(one, kind) == node_constructs(nodes.last(), kind) by {
        assert(block_constructs(one.drop_last(), kind) == 0);
    }
}

/// The constructs of a statement draw their suffixes in increasing order
/// from the counters that the statement advances.
proof fn lemma_node_ordered(node: NodeView, counts: CountsView)
    ensures
        bounded(node_labelled(node, counts), counts, advanced(counts, seq![node])),
        increasing(node_labelled(node, counts)),
    decreases node, 1int,
{
    let parts = node.children;
    let one = seq![node];
    let all = node_labelled(node, counts);
    assert(one.drop_last() == Seq::<NodeView>::empty());
    assert(one.last() == node);
    assert forall|kind: Rule| block_constructs(one, kind) == node_constructs(node, kind) by {
        assert(block_constructs(one.drop_last(), kind) == 0);
    }
    let body = match node.rule {
        Rule::WhileLoop | Rule::Iff => if parts.len() >= 3 {
            Some(parts.skip(3))
        } else {
            None
        },
        Rule::Function => if parts.len() >= 1 {
            Some(parts.skip(1))
        } else {
            None
        },
        Rule::Loopp => Some(parts),
        _ => None,
    };
    if let Some(inner) = body {
        lemma_block_ordered(inner, counts);
        let nested = block_labelled(inner, counts);
        assert(all.len() == nested.len() + 1);
        assert forall|k: int| 0 <= k < nested.len() implies all[k] == nested[k] by {}
        assert forall|i: int, j: int| 0 <= i < j < all.len() implies later(
            #[trigger] all[i],
            #[trigger] all[j],
        ) by {
            if j < nested.len() {
                assert(later(nested[i], nested[j]));
            } else {
                assert(all[i] == nested[i]);
            }
        }
        assert forall|k: int| 0 <= k < all.len() implies match #[trigger] all[k] {
            Construct::While { suffix } => counts.whiles <= suffix < advanced(
                counts,
                one,
            ).whiles,
            Construct::If { suffix } => counts.ifs <= suffix < advanced(counts, one).ifs,
            Construct::Loop { suffix } => counts.loops <= suffix < advanced(counts, one).loops,
            Construct::Function { .. } => true,
        } by {
            if k < nested.len() {
                assert(all[k] == nested[k]);
            }
        }
    }
}

/// The constructs of a sequence of statements draw their suffixes in
/// increasing order from the counters that the statements advance.
proof fn lemma_block_ordered(nodes: Seq<NodeView>, counts: CountsView)
    ensures
        bounded(block_labelled(nodes, counts), counts, advanced(counts, nodes)),
        increasing(block_labelled(nodes, counts)),
    decreases nodes, 0int,
{
    if nodes.len() > 0 {
        let middle = advanced(counts, nodes.drop_last());
        let first = block_labelled(nodes.drop_last(), counts);
        let last = node_labelled(nodes.last(), middle);
        let all = block_labelled(nodes, counts);
        lemma_block_ordered(nodes.drop_last(), counts);
        lemma_node_ordered(nodes.last(), middle);
        lemma_advanced_last(counts, nodes);
        assert(all == first + last);
        assert forall|k: int| 0 <= k < all.len() implies match #[trigger] all[k] {
            Construct::While { suffix } => counts.whiles <= suffix < advanced(
                counts,
                nodes,
            ).whiles,
            Construct::If { suffix } => counts.ifs <= suffix < advanced(counts, nodes).ifs,
            Construct::Loop { suffix } => counts.loops <= suffix < advanced(counts, nodes).loops,
            Construct::Function { .. } => true,
        } by {
            if k < first.len() {
                assert(all[k] == first[k]);
            } else {
                assert(all[k] == last[k - first.len()]);
            }
        }
        assert forall|i: int, j: int| 0 <= i < j < all.len() implies later(
            #[trigger] all[i],
            #[trigger] all[j],
        ) by {
            if j < first.len() {
                assert(later(first[i], first[j]));
            } else if i >= first.len() {
                assert(later(last[i - first.len()], last[j - first.len()]));
            } else {
                assert(all[i] == first[i]);
                assert(all[j] == last[j - first.len()]);
            }
        }
    }
}

/// A label is its prefix and the numeral of its suffix: equal labels of one
/// kind have equal suffixes, and labels of different kinds differ.
pub proof fn lemma_labels_differ(a: nat, b: nat, x: Seq<char>, y: Seq<char>)
    ensures
        begin_label(a) == begin_label(b) ==> a == b,
        init_label(a) == init_label(b) ==> a == b,
        next_label(a) == next_label(b) ==> a == b,
        break_label(a) == break_label(b) ==> a == b,
        loop_label(a) == loop_label(b) ==> a == b,
        function_label(x) == function_label(y) ==> x == y,
        begin_label(a) != init_label(b),
        begin_label(a) != next_label(b),
        begin_label(a) != break_label(b),
        begin_label(a) != loop_label(b),
        begin_label(a) != function_label(y),
        init_label(a) != next_label(b),
        init_label(a) != break_label(b),
        init_label(a) != loop_label(b),
        init_label(a) != function_label(y),
        next_label(a) != break_label(b),
        next_label(a) != loop_label(b),
        next_label(a) != function_label(y),
        break_label(a) != loop_label(b),
        break_label(a) != function_label(y),
        loop_label(a) != function_label(y),
{
    reveal_strlit("BEGIN_");
    reveal_strlit("INIT_");
    reveal_strlit("NEXT_");
    reveal_strlit("BREAK_");
    reveal_strlit("LOOP_");
    reveal_strlit("FN_");
    assert(begin_label(a).skip(6) =~= decimal(a) && begin_label(b).skip(6) =~= decimal(b));
    assert(init_label(a).skip(5) =~= decimal(a) && init_label(b).skip(5) =~= decimal(b));
    assert(next_label(a).skip(5) =~= decimal(a) && next_label(b).skip(5) =~= decimal(b));
    assert(break_label(a).skip(6) =~= decimal(a) && break_label(b).skip(6) =~= decimal(b));
    assert(loop_label(a).skip(5) =~= decimal(a) && loop_label(b).skip(5) =~= decimal(b));
    assert(function_label(x).skip(3) =~= x && function_label(y).skip(3) =~= y);
    if decimal(a) == decimal(b) {
        lemma_decimal_injective(a, b);
    }
    assert(begin_label(a)[0] == 'B' && begin_label(a)[1] == 'E');
    assert(init_label(a)[0] == 'I' && init_label(b)[0] == 'I');
    assert(next_label(a)[0] == 'N' && next_label(b)[0] == 'N');
    assert(break_label(a)[0] == 'B' && break_label(b)[0] == 'B' && break_label(b)[1] == 'R');
    assert(loop_label(b)[0] == 'L');
    assert(function_label(y)[0] == 'F');
}

/// Two constructs with different suffixes, or of different kinds, or two
/// subroutines of different names, share no label.
pub proof fn lemma_constructs_disjoint(first: Construct, second: Construct)
    requires
        first != second,
    ensures
        labels(first).disjoint(labels(second)),
{
    assert forall|label: Seq<char>|
        !(labels(first).contains(label) && labels(second).contains(label)) by {
        match (first, second) {
            (Construct::Function { name: x }, Construct::Function { name: y }) => {
                lemma_labels_differ(0, 0, x, y);
            },
            (Construct::Function { name: x }, _) => {
                let b = match second {
                    Construct::While { suffix } => suffix,
                    Construct::If { suffix } => suffix,
                    Construct::Loop { suffix } => suffix,
                    _ => 0,
                };
                lemma_labels_differ(b, b, x, x);
            },
            (_, Construct::Function { name: y }) => {
                let a = match first {
                    Construct::While { suffix } => suffix,
                    Construct::If { suffix } => suffix,
                    Construct::Loop { suffix } => suffix,
                    _ => 0,
                };
                lemma_labels_differ(a, a, y, y);
            },
            _ => {
                let a = match first {
                    Construct::While { suffix } => suffix,
                    Construct::If { suffix } => suffix,
                    Construct::Loop { suffix } => suffix,
                    _ => 0,
                };
                let b = match second {
                    Construct::While { suffix } => suffix,
                    Construct::If { suffix } => suffix,
                    Construct::Loop { suffix } => suffix,
                    _ => 0,
                };
                lemma_labels_differ(a, b, Seq::empty(), Seq::empty());
                lemma_labels_differ(b, a, Seq::empty(), Seq::empty());
            },
        }
    }
}

/// Any two constructs of one compilation declare disjoint sets of labels,
/// unless both are subroutines of the same name: while-loops, conditionals
/// and unconditional loops never share a suffix with another of their kind,
/// nested or not.
pub proof fn lemma_label_sets_disjoint(nodes: Seq<NodeView>, counts: CountsView, i: int, j: int)
    requires
        0 <= i < j < block_labelled(nodes, counts).len(),
        !(block_labelled(nodes, counts)[i] is Function && block_labelled(nodes, counts)[i]
            == block_labelled(nodes, counts)[j]),
    ensures
        labels(block_labelled(nodes, counts)[i]).disjoint(
            labels(block_labelled(nodes, counts)[j]),
        ),
{
    let all = block_labelled(nodes, counts);
    lemma_block_ordered(nodes, counts);
    assert(later(all[i], all[j]));
    lemma_constructs_disjoint(all[i], all[j]);
}

} // verus!
