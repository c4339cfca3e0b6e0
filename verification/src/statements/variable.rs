//! Variable declarations.

use vstd::prelude::*;
use vstd::string::StringExecFns;

use crate::error::{CompileError, ErrorView, Field};
use crate::expr::{expr_code, lemma_parsed_growth, lower_expr, parse, parse_expr, resolve_expr};
use crate::parser::{agrees, fits, preserved, Global, GlobalView, Lowered, DEFAULT_VALUE, STORE};
use crate::statements::functions::{lower_builtin, returns_value};
use crate::table::{lemma_extends_chain, lemma_put_extends, put};
use crate::tree::{lemma_children, lemma_weights_element, weight, weights, Node, NodeView, Rule};

verus! {

/// The type tag of a declaration that names none.
pub open spec fn default_tag() -> Seq<char> {
    "DEC"@
}

/// What the value of a declaration gives when it is brought into the cell
/// `name` under the type tag `tag`: an expression is read and lowered, a
/// built-in call is lowered, and no other kind of value is supported.
pub open spec fn lower_initializer(
    value: NodeView,
    name: Seq<char>,
    tag: Seq<char>,
    global: GlobalView,
) -> Result<Lowered, ErrorView> {
    match value.rule {
        Rule::Expr => match parse(value.children) {
            Err(error) => Err(error),
            Ok(expr) => Ok(
                Lowered {
                    global: lower_expr(expr, name, tag, global),
                    code: expr_code(expr, name, STORE@),
                },
            ),
        },
        Rule::FunctionCall => match lower_builtin(value, name) {
            Err(error) => Err(error),
            Ok(code) => Ok(Lowered { global, code }),
        },
        _ => Err(ErrorView::InvalidValueAssignment),
    }
}

/// What a declaration gives. Its children are the identifier, then the type
/// tag if there are three of them, then the value. The value is lowered into
/// the identifier's cell, and the cell is registered under the type tag.
pub open spec fn lower_variable(node: NodeView, global: GlobalView) -> Result<Lowered, ErrorView> {
    let parts = node.children;
    if parts.len() < 1 {
        Err(ErrorView::MissingField(Field::Identifier))
    } else if parts.len() < 2 {
        Err(ErrorView::MissingField(Field::Value))
    } else {
        let name = parts[0].text;
        let tag = if parts.len() == 3 {
            parts[1].text
        } else {
            default_tag()
        };
        let value = if parts.len() == 3 {
            parts[2]
        } else {
            parts[1]
        };
        match lower_initializer(value, name, tag, global) {
            Err(error) => Err(error),
            Ok(lowered) => Ok(
                Lowered {
                    global: GlobalView {
                        variables: put(lowered.global.variables, name, (tag, DEFAULT_VALUE)),
                        ..lowered.global
                    },
                    code: lowered.code,
                },
            ),
        }
    }
}

/// Lowers a declaration: brings its value into the identifier's cell and
/// registers the cell under the declared type tag, or `DEC` where none is
/// named. A declaration that fails registers nothing and appends nothing.
pub fn variable(pair: &Node, global: &mut Global, output: &mut String) -> (result: Result<
    (),
    CompileError,
>)
    requires
        fits(weight(pair@), old(global)@.counts),
    ensures
        agrees(
            result,
            lower_variable(pair@, old(global)@),
            final(global)@,
            old(output)@,
            final(output)@,
        ),
        result is Err ==> final(global)@ == old(global)@ && final(output)@ == old(output)@,
        preserved(old(global)@, final(global)@),
        old(output)@.is_prefix_of(final(output)@),
        old(global).wf() ==> final(global).wf(),
{
    let parts = pair.children.as_slice();
    proof {
        lemma_children(*pair);
        assert(weight(pair@) == 1 + weights(pair@.children));
    }
    if parts.len() < 1 {
        return Err(CompileError::MissingField(Field::Identifier));
    }
    if parts.len() < 2 {
        return Err(CompileError::MissingField(Field::Value));
    }
    let ident = parts[0].text.clone();
    let typed = parts.len() == 3;
    let type_value = if typed {
        parts[1].text.clone()
    } else {
        String::from_str("DEC")
    };
    let value_pair = if typed {
        &parts[2]
    } else {
        &parts[1]
    };
    proof {
        lemma_weights_element(pair@.children, if typed {
            2int
        } else {
            1int
        });
        lemma_parsed_growth(value_pair@, global@.counts);
        lemma_children(*value_pair);
    }
    match value_pair.rule {
        Rule::Expr => {
            let expr = match parse_expr(value_pair.children.as_slice()) {
                Ok(expr) => expr,
                Err(error) => {
                    return Err(error);
                },
            };
            match resolve_expr(expr, &ident, &type_value, global, output, STORE) {
                Ok(()) => {},
                Err(error) => {
                    return Err(error);
                },
            }
        },
        Rule::FunctionCall => {
            match returns_value(value_pair, &ident, output) {
                Ok(()) => {},
                Err(error) => {
                    return Err(error);
                },
            }
        },
        _ => {
            return Err(CompileError::InvalidValueAssignment);
        },
    }
    proof {
        let entry = (type_value@, DEFAULT_VALUE);
        lemma_put_extends(global@.variables, ident@, entry);
        lemma_extends_chain(
            old(global)@.variables,
            global@.variables,
            put(global@.variables, ident@, entry),
        );
    }
    global.variables.insert(ident, (type_value, DEFAULT_VALUE));
    Ok(())
}

} // verus!
