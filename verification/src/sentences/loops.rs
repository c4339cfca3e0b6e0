//! While-loops and unconditional loops.

use vstd::prelude::*;
use vstd::string::StringExecFns;

use crate::error::{CompileError, ErrorView, Field};
use crate::parser::{
    agrees, ended_block, fits, lemma_block_growth, lower_block, preserved, resolve_instructions,
    CountsView, Global, GlobalView, Lowered,
};
use crate::text::{decimal, numbered, same_text};
use crate::tree::{lemma_children, lemma_weights_suffix, views, weight, weights, Node, NodeView};

verus! {

/// The skip code under which a while-loop ends: the test subtracts the second
/// term from the first, and the jump back into the body is skipped when the
/// difference is positive for `<`, zero for `!=`, negative for `>`.
pub open spec fn while_skip(condition: Seq<char>) -> Option<Seq<char>> {
    if condition == "<"@ {
        Some("800"@)
    } else if condition == "!="@ {
        Some("400"@)
    } else if condition == ">"@ {
        Some("000"@)
    } else {
        None
    }
}

/// The label of the header of the while-loop with suffix `n`.
pub open spec fn begin_label(n: nat) -> Seq<char> {
    "BEGIN_"@ + decimal(n)
}

/// The label of the body of the while-loop with suffix `n`.
pub open spec fn init_label(n: nat) -> Seq<char> {
    "INIT_"@ + decimal(n)
}

/// The label of the test of the while-loop with suffix `n`.
pub open spec fn next_label(n: nat) -> Seq<char> {
    "NEXT_"@ + decimal(n)
}

/// The code of the while-loop with suffix `n`: the result cell is cleared,
/// the header jumps to the test, the body stands under the init label, and
/// the test jumps back to the init label unless the skip code holds.
pub open spec fn while_code(
    n: nat,
    a: Seq<char>,
    b: Seq<char>,
    skip: Seq<char>,
    block: Seq<char>,
) -> Seq<char> {
    "CLEAR\nSTORE R\n\n"@ + begin_label(n) + ", JUMP "@ + next_label(n) + "\n"@ + init_label(n)
        + ",\tCLEAR\n\n"@ + block + "\n"@ + next_label(n) + ",\tLOAD "@ + a + "\n\tSUBT "@ + b
        + "\n\tSKIPCOND "@ + skip + "\n\tJUMP "@ + init_label(n) + "\n"@
}

/// What a while-loop gives. Its children are the two terms around the
/// comparison and then the body, which is lowered in the same context; the
/// suffix is the `whiles` counter as the body leaves it, and the counter
/// then advances.
pub open spec fn lower_while(node: NodeView, global: GlobalView) -> Result<Lowered, ErrorView>
    decreases node, 0int,
{
    let parts = node.children;
    if parts.len() < 1 {
        Err(ErrorView::MissingField(Field::ValueA))
    } else if parts.len() < 2 {
        Err(ErrorView::MissingField(Field::Condition))
    } else if parts.len() < 3 {
        Err(ErrorView::MissingField(Field::ValueB))
    } else {
        match lower_block(parts.skip(3), global) {
            Err(error) => Err(error),
            Ok(body) => match while_skip(parts[1].text) {
                None => Err(ErrorView::InvalidCondition(parts[1].text)),
                Some(skip) => Ok(
                    Lowered {
                        global: GlobalView {
                            counts: CountsView {
                                whiles: body.global.counts.whiles + 1,
                                ..body.global.counts
                            },
                            ..body.global
                        },
                        code: while_code(
                            body.global.counts.whiles,
                            parts[0].text,
                            parts[2].text,
                            skip,
                            body.code,
                        ),
                    },
                ),
            },
        }
    }
}

/// The context that a while-loop leaves when its lowering fails: the context
/// as it was where a term or the comparison is missing, and else the context
/// in which the lowering of the body ended.
pub open spec fn stopped_while(node: NodeView, global: GlobalView) -> GlobalView
    decreases node, 0int,
{
    if node.children.len() < 3 {
        global
    } else {
        ended_block(node.children.skip(3), global).global
    }
}

/// The label of the unconditional loop with suffix `n`.
pub open spec fn loop_label(n: nat) -> Seq<char> {
    "LOOP_"@ + decimal(n)
}

/// The code of the unconditional loop with suffix `n`: the label, the body,
/// and the jump back to the label.
pub open spec fn loop_code(n: nat, block: Seq<char>) -> Seq<char> {
    loop_label(n) + ",\tCLEAR\n\n"@ + block + "\nJUMP "@ + loop_label(n) + "\n"@
}

/// What an unconditional loop gives. Its children are the body, which is
/// lowered in the same context; the suffix is the `loops` counter as the
/// body leaves it, and the counter then advances.
pub open spec fn lower_loop(node: NodeView, global: GlobalView) -> Result<Lowered, ErrorView>
    decreases node, 0int,
{
    match lower_block(node.children, global) {
        Err(error) => Err(error),
        Ok(body) => Ok(
            Lowered {
                global: GlobalView {
                    counts: CountsView {
                        loops: body.global.counts.loops + 1,
                        ..body.global.counts
                    },
                    ..body.global
                },
                code: loop_code(body.global.counts.loops, body.code),
            },
        ),
    }
}

/// The context that an unconditional loop leaves when its lowering fails:
/// the context in which the lowering of the body ended.
pub open spec fn stopped_loop(node: NodeView, global: GlobalView) -> GlobalView
    decreases node, 0int,
{
    ended_block(node.children, global).global
}

/// Lowers a while-loop: the cleared result cell, the header that jumps to
/// the test, the body under the init label, and the test that jumps back to
/// the init label. The labels' suffix is drawn from the `whiles` counter
/// once the body is lowered. A while-loop that fails appends nothing, and
/// leaves the context as the lowering of its body ended.
pub fn while_loop(pair: &Node, global: &mut Global, output: &mut String) -> (result: Result<
    (),
    CompileError,
>)
    requires
        fits(weight(pair@), old(global)@.counts),
    ensures
        agrees(
            result,
            lower_while(pair@, old(global)@),
            final(global)@,
            old(output)@,
            final(output)@,
        ),
        result is Err ==> final(global)@ == stopped_while(pair@, old(global)@) && final(output)@
            == old(output)@,
        preserved(old(global)@, final(global)@),
        old(output)@.is_prefix_of(final(output)@),
        old(global).wf() ==> final(global).wf(),
    decreases weight(pair@), 0int,
{
    let parts = pair.children.as_slice();
    proof {
        lemma_children(*pair);
        assert(weight(pair@) == 1 + weights(pair@.children));
    }
    if parts.len() < 1 {
        return Err(CompileError::MissingField(Field::ValueA));
    }
    if parts.len() < 2 {
        return Err(CompileError::MissingField(Field::Condition));
    }
    if parts.len() < 3 {
        return Err(CompileError::MissingField(Field::ValueB));
    }
    let var_n = parts[0].text.as_str();
    let condition = parts[1].text.as_str();
    let var_m = parts[2].text.as_str();
    let body = vstd::slice::slice_subrange(parts, 3, parts.len());
    proof {
        assert(views(body@) == pair@.children.skip(3));
        lemma_weights_suffix(pair@.children, 3);
        lemma_block_growth(pair@.children.skip(3), global@);
    }
    let mut block = String::new();
    match resolve_instructions(body, global, &mut block) {
        Ok(()) => {},
        Err(error) => {
            return Err(error);
        },
    }
    assert(block@ == lower_block(pair@.children.skip(3), old(global)@)->Ok_0.code);
    let operator = if same_text(condition, "<") {
        "800"
    } else if same_text(condition, "!=") {
        "400"
    } else if same_text(condition, ">") {
        "000"
    } else {
        return Err(CompileError::InvalidCondition(parts[1].text.clone()));
    };
    let loops = global.counts.whiles;
    let begin = numbered("BEGIN_", loops);
    let init = numbered("INIT_", loops);
    let next = numbered("NEXT_", loops);
    let mut code = String::from_str("CLEAR\nSTORE R\n\n");
    code.append(begin.as_str());
    code.append(", JUMP ");
    code.append(next.as_str());
    code.append("\n");
    code.append(init.as_str());
    code.append(",\tCLEAR\n\n");
    code.append(block.as_str());
    code.append("\n");
    code.append(next.as_str());
    code.append(",\tLOAD ");
    code.append(var_n);
    code.append("\n\tSUBT ");
    code.append(var_m);
    code.append("\n\tSKIPCOND ");
    code.append(operator);
    code.append("\n\tJUMP ");
    code.append(init.as_str());
    code.append("\n");
    assert(code@ == while_code(loops as nat, var_n@, var_m@, operator@, block@));
    output.append(code.as_str());
    global.counts.whiles = loops + 1;
    Ok(())
}

/// Lowers an unconditional loop: the label, the body, and the jump back to
/// the label. The label's suffix is drawn from the `loops` counter once the
/// body is lowered. A loop whose body fails appends nothing, and leaves the
/// context as the lowering of its body ended.
pub fn loopp(pair: &Node, global: &mut Global, output: &mut String) -> (result: Result<
    (),
    CompileError,
>)
    requires
        fits(weight(pair@), old(global)@.counts),
    ensures
        agrees(
            result,
            lower_loop(pair@, old(global)@),
            final(global)@,
            old(output)@,
            final(output)@,
        ),
        result is Err ==> final(global)@ == stopped_loop(pair@, old(global)@) && final(output)@
            == old(output)@,
        preserved(old(global)@, final(global)@),
        old(output)@.is_prefix_of(final(output)@),
        old(global).wf() ==> final(global).wf(),
    decreases weight(pair@), 0int,
{
    let body = pair.children.as_slice();
    proof {
        lemma_children(*pair);
        assert(weight(pair@) == 1 + weights(pair@.children));
        lemma_block_growth(pair@.children, global@);
    }
    let mut block = String::new();
    match resolve_instructions(body, global, &mut block) {
        Ok(()) => {},
        Err(error) => {
            return Err(error);
        },
    }
    assert(block@ == lower_block(pair@.children, old(global)@)->Ok_0.code);
    let loops = global.counts.loops;
    let label = numbered("LOOP_", loops);
    let mut code = String::new();
    code.append(label.as_str());
    code.append(",\tCLEAR\n\n");
    code.append(block.as_str());
    code.append("\nJUMP ");
    code.append(label.as_str());
    code.append("\n");
    assert(code@ == loop_code(loops as nat, block@));
    output.append(code.as_str());
    global.counts.loops = loops + 1;
    Ok(())
}

} // verus!
