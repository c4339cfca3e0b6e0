//! Conditionals.

use vstd::prelude::*;
use vstd::string::StringExecFns;

use crate::error::{CompileError, ErrorView, Field};
use crate::parser::{
    agrees, ended_block, fits, lemma_block_growth, lower_block, preserved, resolve_instructions,
    CountsView, Global, GlobalView, Lowered,
};
use crate::text::{decimal, numbered, same_text};
use crate::tree::{lemma_children, lemma_weights_suffix, views, weight, weights, Node, NodeView};

verus! {

/// The skip code under which the body of a conditional runs: the test
/// subtracts the second term from the first, and the jump over the body is
/// skipped when the difference is negative for `<`, zero for `==`, positive
/// for `>`.
pub open spec fn if_skip(condition: Seq<char>) -> Option<Seq<char>> {
    if condition == "<"@ {
        Some("000"@)
    } else if condition == "=="@ {
        Some("400"@)
    } else if condition == ">"@ {
        Some("800"@)
    } else {
        None
    }
}

/// The label behind the body of the conditional with suffix `n`.
pub open spec fn break_label(n: nat) -> Seq<char> {
    "BREAK_"@ + decimal(n)
}

/// The code of the conditional with suffix `n`: the test, the jump to the
/// break label, the body, and the break label on an instruction without
/// effect.
pub open spec fn if_code(n: nat, a: Seq<char>, b: Seq<char>, skip: Seq<char>, block: Seq<char>) -> Seq<
    char,
> {
    "LOAD "@ + a + "\nSUBT "@ + b + "\nSKIPCOND "@ + skip + "\nJUMP "@ + break_label(n) + "\n\n"@
        + block + break_label(n) + ",\tCLEAR\n\n"@
}

/// What a conditional gives. Its children are the two terms around the
/// comparison and then the body, which is lowered in the same context; the
/// suffix is the `ifs` counter as the body leaves it, and the counter then
/// advances.
pub open spec fn lower_if(node: NodeView, global: GlobalView) -> Result<Lowered, ErrorView>
    decreases node, 0int,
{
    let parts = node.children;
    if parts.len() < 1 {
        Err(ErrorView::MissingField(Field::ValueA))
    } else if parts.len() < 2 {
        Err(ErrorView::MissingField(Field::Condition))
    } else if parts.len() < 3 {
        Err(ErrorView::MissingField(Field::ValueB))
    } else {
        match lower_block(parts.skip(3), global) {
            Err(error) => Err(error),
            Ok(body) => match if_skip(parts[1].text) {
                None => Err(ErrorView::InvalidCondition(parts[1].text)),
                Some(skip) => Ok(
                    Lowered {
                        global: GlobalView {
                            counts: CountsView {
                                ifs: body.global.counts.ifs + 1,
                                ..body.global.counts
                            },
                            ..body.global
                        },
                        code: if_code(
                            body.global.counts.ifs,
                            parts[0].text,
                            parts[2].text,
                            skip,
                            body.code,
                        ),
                    },
                ),
            },
        }
    }
}

/// The context that a conditional leaves when its lowering fails: the
/// context as it was where a term or the comparison is missing, and else the
/// context in which the lowering of the body ended.
pub open spec fn stopped_if(node: NodeView, global: GlobalView) -> GlobalView
    decreases node, 0int,
{
    if node.children.len() < 3 {
        global
    } else {
        ended_block(node.children.skip(3), global).global
    }
}

/// Lowers a conditional: the test, the jump over the body to the break
/// label, the body, and the break label. The label's suffix is drawn from
/// the `ifs` counter once the body is lowered. A conditional that fails
/// appends nothing, and leaves the context as the lowering of its body
/// ended.
pub fn iff(pair: &Node, global: &mut Global, output: &mut String) -> (result: Result<
    (),
    CompileError,
>)
    requires
        fits(weight(pair@), old(global)@.counts),
    ensures
        agrees(result, lower_if(pair@, old(global)@), final(global)@, old(output)@, final(output)@),
        result is Err ==> final(global)@ == stopped_if(pair@, old(global)@) && final(output)@
            == old(output)@,
        preserved(old(global)@, final(global)@),
        old(output)@.is_prefix_of(final(output)@),
        old(global).wf() ==> final(global).wf(),
    decreases weight(pair@), 0int,
{
    let parts = pair.children.as_slice();
    proof {
        lemma_children(*pair);
        assert(weight(pair@) == 1 + weights(pair@.children));
    }
    if parts.len() < 1 {
        return Err(CompileError::MissingField(Field::ValueA));
    }
    if parts.len() < 2 {
        return Err(CompileError::MissingField(Field::Condition));
    }
    if parts.len() < 3 {
        return Err(CompileError::MissingField(Field::ValueB));
    }
    let var_a = parts[0].text.as_str();
    let condition = parts[1].text.as_str();
    let var_b = parts[2].text.as_str();
    let body = vstd::slice::slice_subrange(parts, 3, parts.len());
    proof {
        assert(views(body@) == pair@.children.skip(3));
        lemma_weights_suffix(pair@.children, 3);
        lemma_block_growth(pair@.children.skip(3), global@);
    }
    let mut block = String::new();
    match resolve_instructions(body, global, &mut block) {
        Ok(()) => {},
        Err(error) => {
            return Err(error);
        },
    }
    assert(block@ == lower_block(pair@.children.skip(3), old(global)@)->Ok_0.code);
    let operator = if same_text(condition, "<") {
        "000"
    } else if same_text(condition, "==") {
        "400"
    } else if same_text(condition, ">") {
        "800"
    } else {
        return Err(CompileError::InvalidCondition(parts[1].text.clone()));
    };
    let ifs = global.counts.ifs;
    let label = numbered("BREAK_", ifs);
    let mut code = String::from_str("LOAD ");
    code.append(var_a);
    code.append("\nSUBT ");
    code.append(var_b);
    code.append("\nSKIPCOND ");
    code.append(operator);
    code.append("\nJUMP ");
    code.append(label.as_str());
    code.append("\n\n");
    code.append(block.as_str());
    code.append(label.as_str());
    code.append(",\tCLEAR\n\n");
    assert(code@ == if_code(ifs as nat, var_a@, var_b@, operator@, block@));
    output.append(code.as_str());
    global.counts.ifs = ifs + 1;
    Ok(())
}

} // verus!
