//! Subroutine definitions, calls, and the built-in calls that give a value.

use vstd::prelude::*;
use vstd::string::StringExecFns;

use crate::error::{CompileError, ErrorView, Field};
use crate::parser::{
    defines, emits, ended_block, fits, lower_block, preserved, resolve_instructions, Global,
    GlobalView,
};
use crate::table::{lemma_extends_chain, lemma_put_extends, put};
use crate::text::same_text;
use crate::tree::{lemma_children, lemma_weights_suffix, views, weight, weights, Node, NodeView};

verus! {

/// The code that reads a number from the input into the cell `name`.
pub open spec fn input_code(name: Seq<char>) -> Seq<char> {
    "INPUT\nSTORE "@ + name + "\nCLEAR\n"@
}

/// The code of a built-in call whose value goes to the cell `name`: the call
/// `input()` reads into the cell; any other call is unsupported.
pub open spec fn lower_builtin(value: NodeView, name: Seq<char>) -> Result<Seq<char>, ErrorView> {
    if value.text == "input()"@ {
        Ok(input_code(name))
    } else {
        Err(ErrorView::UnsupportedBuiltin(value.text))
    }
}

/// The label of the subroutine `name`; its cell holds the return address.
pub open spec fn function_label(name: Seq<char>) -> Seq<char> {
    "FN_"@ + name
}

/// The text of the subroutine `name` with the body code `block`: the header
/// cell, the body, and the return through the header cell.
pub open spec fn function_text(name: Seq<char>, block: Seq<char>) -> Seq<char> {
    function_label(name) + ",\tHEX 000\n\n"@ + block + "\nJUMPI "@ + function_label(name) + "\n"@
}

/// The context after the subroutine `name` with the statements `block` is
/// defined: the statements are lowered into a buffer of their own, and the
/// subroutine's text is entered under its name.
pub open spec fn lower_definition(name: Seq<char>, block: Seq<NodeView>, global: GlobalView) -> Result<
    GlobalView,
    ErrorView,
>
    decreases block, 1int,
{
    match lower_block(block, global) {
        Err(error) => Err(error),
        Ok(body) => Ok(
            GlobalView {
                functions: put(body.global.functions, name, function_text(name, body.code)),
                ..body.global
            },
        ),
    }
}

/// The context after a subroutine definition: its first child names it, the
/// others are its statements.
pub open spec fn lower_function(node: NodeView, global: GlobalView) -> Result<GlobalView, ErrorView>
    decreases node, 0int,
{
    if node.children.len() < 1 {
        Err(ErrorView::MissingField(Field::Identifier))
    } else {
        lower_definition(node.children[0].text, node.children.skip(1), global)
    }
}

/// The context that a subroutine definition leaves when its lowering fails:
/// the context as it was where the name is missing, and else the context in
/// which the lowering of the body ended.
pub open spec fn stopped_function(node: NodeView, global: GlobalView) -> GlobalView
    decreases node, 0int,
{
    if node.children.len() < 1 {
        global
    } else {
        ended_block(node.children.skip(1), global).global
    }
}

/// The code that prints the cell `parameter`.
pub open spec fn print_code(parameter: Seq<char>) -> Seq<char> {
    "LOAD "@ + parameter + "\nOUTPUT\n"@
}

/// The code that calls the subroutine `name`.
pub open spec fn call_code(name: Seq<char>) -> Seq<char> {
    "JNS "@ + function_label(name) + "\n"@
}

/// The code of a call statement: `print` loads its parameter and puts it
/// out; any other identifier calls the subroutine of that name.
pub open spec fn lower_call(node: NodeView) -> Result<Seq<char>, ErrorView> {
    if node.children.len() < 1 {
        Err(ErrorView::MissingField(Field::Identifier))
    } else if node.children[0].text == "print"@ {
        if node.children.len() < 2 {
            Err(ErrorView::MissingField(Field::Parameters))
        } else {
            Ok(print_code(node.children[1].text))
        }
    } else {
        Ok(call_code(node.children[0].text))
    }
}

/// Lowers a built-in call whose value goes to the cell `name`. An unsupported
/// call leaves the output as it was.
pub fn returns_value(value_pair: &Node, name: &String, output: &mut String) -> (result: Result<
    (),
    CompileError,
>)
    ensures
        emits(result, lower_builtin(value_pair@, name@), old(output)@, final(output)@),
        result is Err ==> final(output)@ == old(output)@,
        old(output)@.is_prefix_of(final(output)@),
{
    if same_text(value_pair.text.as_str(), "input()") {
        let mut code = String::from_str("INPUT\nSTORE ");
        code.append(name.as_str());
        code.append("\nCLEAR\n");
        output.append(code.as_str());
        Ok(())
    } else {
        Err(CompileError::UnsupportedBuiltin(value_pair.text.clone()))
    }
}

/// Defines the subroutine `ident`: lowers the statements `block` into a
/// buffer of their own, wraps them between the header cell and the return
/// through it, and enters the text under the subroutine's name. Where a
/// statement fails, nothing is entered, and the context is left as the
/// lowering of the statements ended.
pub fn create_function(ident: String, block: &[Node], global: &mut Global) -> (result: Result<
    (),
    CompileError,
>)
    requires
        fits(weights(views(block@)), old(global)@.counts),
    ensures
        defines(result, lower_definition(ident@, views(block@), old(global)@), final(global)@),
        result is Err ==> final(global)@ == ended_block(views(block@), old(global)@).global,
        preserved(old(global)@, final(global)@),
        old(global).wf() ==> final(global).wf(),
    decreases weights(views(block@)), 2int,
{
    let mut block_output = String::new();
    match resolve_instructions(block, global, &mut block_output) {
        Ok(()) => {},
        Err(error) => {
            return Err(error);
        },
    }
    assert(block_output@ == lower_block(views(block@), old(global)@)->Ok_0.code);
    let mut label = String::from_str("FN_");
    label.append(ident.as_str());
    let mut text = String::new();
    text.append(label.as_str());
    text.append(",\tHEX 000\n\n");
    text.append(block_output.as_str());
    text.append("\nJUMPI ");
    text.append(label.as_str());
    text.append("\n");
    assert(text@ == function_text(ident@, block_output@));
    proof {
        lemma_put_extends(global@.functions, ident@, text@);
        lemma_extends_chain(
            old(global)@.functions,
            global@.functions,
            put(global@.functions, ident@, text@),
        );
    }
    global.functions.insert(ident, text);
    Ok(())
}

/// Lowers a subroutine definition: its first child names it, the others are
/// its statements.
pub fn function(pair: &Node, global: &mut Global) -> (result: Result<(), CompileError>)
    requires
        fits(weight(pair@), old(global)@.counts),
    ensures
        defines(result, lower_function(pair@, old(global)@), final(global)@),
        result is Err ==> final(global)@ == stopped_function(pair@, old(global)@),
        preserved(old(global)@, final(global)@),
        old(global).wf() ==> final(global).wf(),
    decreases weight(pair@), 0int,
{
    let parts = pair.children.as_slice();
    proof {
        lemma_children(*pair);
    }
    if parts.len() < 1 {
        return Err(CompileError::MissingField(Field::Identifier));
    }
    let ident = parts[0].text.clone();
    let block = vstd::slice::slice_subrange(parts, 1, parts.len());
    proof {
        assert(views(block@) == pair@.children.skip(1));
        lemma_weights_suffix(pair@.children, 1);
        assert(weight(pair@) == 1 + weights(pair@.children));
    }
    create_function(ident, block, global)
}

/// Lowers a call statement: `print` loads its parameter and puts it out; any
/// other identifier calls the subroutine of that name. A call that fails
/// leaves the output as it was.
pub fn function_call(pair: &Node, output: &mut String) -> (result: Result<(), CompileError>)
    ensures
        emits(result, lower_call(pair@), old(output)@, final(output)@),
        result is Err ==> final(output)@ == old(output)@,
        old(output)@.is_prefix_of(final(output)@),
{
    let parts = pair.children.as_slice();
    proof {
        lemma_children(*pair);
    }
    if parts.len() < 1 {
        return Err(CompileError::MissingField(Field::Identifier));
    }
    let ident = parts[0].text.as_str();
    if same_text(ident, "print") {
        if parts.len() < 2 {
            return Err(CompileError::MissingField(Field::Parameters));
        }
        let mut code = String::from_str("LOAD ");
        code.append(parts[1].text.as_str());
        code.append("\nOUTPUT\n");
        output.append(code.as_str());
    } else {
        let mut label = String::from_str("FN_");
        label.append(ident);
        let mut code = String::from_str("JNS ");
        code.append(label.as_str());
        code.append("\n");
        output.append(code.as_str());
    }
    Ok(())
}

} // verus!
