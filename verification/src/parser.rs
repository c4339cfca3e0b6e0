//! The compiler's data, the statement dispatcher and the program assembler.
//!
//! The data are the expressions, the counters and the compilation context.
//! The dispatcher lowers a sequence of statements, each by the handler of its
//! kind; the assembler puts the text of a whole program together.

use vstd::prelude::*;
use vstd::string::StrSliceExecFns;
use vstd::string::StringExecFns;

use crate::error::{CompileError, ErrorView};
use crate::expr::{assign, lemma_parsed_growth, lower_assign};
use crate::operations::{divide_body, divide_subroutine, multiply_body, multiply_subroutine};
use crate::laws::order::lemma_block_preserved;
use crate::sentences::iff::{iff, lower_if, stopped_if};
use crate::sentences::loops::{
    loopp, lower_loop, lower_while, stopped_loop, stopped_while, while_loop,
};
use crate::statements::functions::{
    function, function_call, lower_call, lower_function, stopped_function,
};
use crate::statements::variable::{lower_variable, variable};
use crate::table::{distinct, extends, first_at, has_name, position, put, Table};
use crate::text::{decimal, push_decimal};
use crate::tree::{
    lemma_weights_element, lemma_weights_prefix, lemma_weights_suffix, views, weight, weights, Node,
    NodeView, Rule,
};

verus! {

/// The instruction that stores the accumulator in a cell.
pub const STORE: &'static str = "STORE";

/// The instruction that stores the accumulator through a pointer cell.
pub const STOREI: &'static str = "STOREI";

/// The value that the memory table gives a cell whose content is only known
/// when the program runs.
pub const DEFAULT_VALUE: u16 = 0;

/// A binary operator.
#[derive(Clone, Copy, Debug, PartialEq, Eq, Structural)]
pub enum Op {
    Add,
    Subtract,
    Multiply,
    Divide,
}

/// An expression.
#[derive(Debug, PartialEq, Eq)]
pub enum Expr {
    /// A literal.
    Value(u16),
    /// The content of a named cell.
    Variable(String),
    /// The content of the cell that a named pointer cell points to.
    Deref(String),
    /// Two expressions under an operator.
    BinOp { lhs: Box<Expr>, op: Op, rhs: Box<Expr> },
}

/// The model of an [`Expr`].
pub ghost enum ExprView {
    Value(u16),
    Variable(Seq<char>),
    Deref(Seq<char>),
    BinOp { lhs: Box<ExprView>, op: Op, rhs: Box<ExprView> },
}

impl View for Expr {
    type V = ExprView;

    open spec fn view(&self) -> ExprView
        decreases self,
    {
        match self {
            Expr::Value(value) => ExprView::Value(*value),
            Expr::Variable(name) => ExprView::Variable(name@),
            Expr::Deref(pointer) => ExprView::Deref(pointer@),
            Expr::BinOp { lhs, op, rhs } => ExprView::BinOp {
                lhs: Box::new((**lhs)@),
                op: *op,
                rhs: Box::new((**rhs)@),
            },
        }
    }
}

/// The counters of a compilation. `mul` and `div` count the multiplications
/// and divisions lowered so far; `loops`, `whiles` and `ifs` hold the label
/// suffix that the next construct of that kind receives.
#[derive(Clone, Copy, Debug, PartialEq, Eq, Structural)]
pub struct Counts {
    pub mul: u64,
    pub div: u64,
    pub loops: u64,
    pub whiles: u64,
    pub ifs: u64,
}

/// The model of [`Counts`]: the same counters as natural numbers.
pub ghost struct CountsView {
    pub mul: nat,
    pub div: nat,
    pub loops: nat,
    pub whiles: nat,
    pub ifs: nat,
}

impl View for Counts {
    type V = CountsView;

    open spec fn view(&self) -> CountsView {
        CountsView {
            mul: self.mul as nat,
            div: self.div as nat,
            loops: self.loops as nat,
            whiles: self.whiles as nat,
            ifs: self.ifs as nat,
        }
    }
}

/// The memory cells of a program, in the order of their first declaration:
/// each a name with its type tag and the value it starts with.
pub type Cells = Seq<(Seq<char>, (Seq<char>, u16))>;

/// The subroutines of a program, in the order of their first definition:
/// each a name with the text of its body.
pub type Routines = Seq<(Seq<char>, Seq<char>)>;

/// The context that is threaded through every lowering call.
pub struct Global {
    pub variables: Table<(String, u16)>,
    pub functions: Table<String>,
    pub counts: Counts,
}

/// The model of a [`Global`].
pub ghost struct GlobalView {
    pub variables: Cells,
    pub functions: Routines,
    pub counts: CountsView,
}

impl View for Global {
    type V = GlobalView;

    open spec fn view(&self) -> GlobalView {
        GlobalView {
            variables: self.variables@,
            functions: self.functions@,
            counts: self.counts@,
        }
    }
}

/// The cells that the machine reserves, declared before any source is read:
/// a loop counter, the constant one, three scratch cells and the result cell.
pub open spec fn reserved_cells() -> Cells {
    seq![
        ("COUNT"@, ("DEC"@, 0u16)),
        ("ONE"@, ("DEC"@, 1u16)),
        ("A"@, ("DEC"@, 0u16)),
        ("B"@, ("DEC"@, 0u16)),
        ("C"@, ("DEC"@, 0u16)),
        ("R"@, ("DEC"@, 0u16)),
    ]
}

/// The counters at the start of a compilation.
pub open spec fn initial_counts() -> CountsView {
    CountsView { mul: 0, div: 0, loops: 1, whiles: 1, ifs: 1 }
}

/// The context at the start of a compilation.
pub open spec fn initial_global() -> GlobalView {
    GlobalView {
        variables: reserved_cells(),
        functions: Seq::empty(),
        counts: initial_counts(),
    }
}

impl Global {
    /// Whether both tables are well formed.
    pub open spec fn wf(&self) -> bool {
        self.variables.wf() && self.functions.wf()
    }

    /// The context at the start of a compilation: the reserved cells, no
    /// subroutine, and fresh counters.
    pub fn new() -> (global: Self)
        ensures
            global@ == initial_global(),
            global.wf(),
    {
        let mut variables: Table<(String, u16)> = Table::new();
        variables.insert(String::from_str("COUNT"), (String::from_str("DEC"), DEFAULT_VALUE));
        variables.insert(String::from_str("ONE"), (String::from_str("DEC"), 1));
        variables.insert(String::from_str("A"), (String::from_str("DEC"), DEFAULT_VALUE));
        variables.insert(String::from_str("B"), (String::from_str("DEC"), DEFAULT_VALUE));
        variables.insert(String::from_str("C"), (String::from_str("DEC"), DEFAULT_VALUE));
        variables.insert(String::from_str("R"), (String::from_str("DEC"), DEFAULT_VALUE));
        proof {
            lemma_reserved_cells();
        }
        Global {
            variables,
            functions: Table::new(),
            counts: Counts { mul: 0, div: 0, loops: 1, whiles: 1, ifs: 1 },
        }
    }
}

/// The reserved cells are what six insertions into an empty table leave,
/// and their names are distinct.
pub proof fn lemma_reserved_cells()
    ensures
        distinct(reserved_cells()),
        reserved_cells() == put(
            put(
                put(
                    put(
                        put(
                            put(Seq::empty(), "COUNT"@, ("DEC"@, 0u16)),
                            "ONE"@,
                            ("DEC"@, 1u16),
                        ),
                        "A"@,
                        ("DEC"@, 0u16),
                    ),
                    "B"@,
                    ("DEC"@, 0u16),
                ),
                "C"@,
                ("DEC"@, 0u16),
            ),
            "R"@,
            ("DEC"@, 0u16),
        ),
{
    reveal_strlit("COUNT");
    reveal_strlit("ONE");
    reveal_strlit("A");
    reveal_strlit("B");
    reveal_strlit("C");
    reveal_strlit("R");
    let e: Cells = Seq::empty();
    let s1 = put(e, "COUNT"@, ("DEC"@, 0u16));
    let s2 = put(s1, "ONE"@, ("DEC"@, 1u16));
    let s3 = put(s2, "A"@, ("DEC"@, 0u16));
    let s4 = put(s3, "B"@, ("DEC"@, 0u16));
    let s5 = put(s4, "C"@, ("DEC"@, 0u16));
    let s6 = put(s5, "R"@, ("DEC"@, 0u16));
    assert("COUNT"@.len() == 5 && "ONE"@.len() == 3 && "A"@.len() == 1);
    assert("A"@[0] == 'A' && "B"@[0] == 'B' && "C"@[0] == 'C' && "R"@[0] == 'R');
    lemma_fresh(e, "COUNT"@);
    assert(s1 =~= seq![("COUNT"@, ("DEC"@, 0u16))]);
    lemma_fresh(s1, "ONE"@);
    assert(s2 =~= s1.push(("ONE"@, ("DEC"@, 1u16))));
    lemma_fresh(s2, "A"@);
    assert(s3 =~= s2.push(("A"@, ("DEC"@, 0u16))));
    lemma_fresh(s3, "B"@);
    assert(s4 =~= s3.push(("B"@, ("DEC"@, 0u16))));
    lemma_fresh(s4, "C"@);
    assert(s5 =~= s4.push(("C"@, ("DEC"@, 0u16))));
    lemma_fresh(s5, "R"@);
    assert(s6 =~= s5.push(("R"@, ("DEC"@, 0u16))));
    assert(s6 =~= reserved_cells());
}

/// A name that differs from every name of a table has no entry in it.
proof fn lemma_fresh(s: Cells, name: Seq<char>)
    requires
        forall|i: int| 0 <= i < s.len() ==> (#[trigger] s[i]).0 != name,
    ensures
        !has_name(s, name),
{
    if has_name(s, name) {
        let p = position(s, name);
        assert(first_at(s, name, p));
    }
}

/// What lowering gives: the context it leaves and the code it emits.
pub ghost struct Lowered {
    pub global: GlobalView,
    pub code: Seq<char>,
}

/// Whether a handler did what `expected` says: on success it left the
/// expected context and appended the expected code to the output; on failure
/// it returned the expected error. What a failure leaves is stated beside
/// it, handler by handler.
pub open spec fn agrees(
    result: Result<(), CompileError>,
    expected: Result<Lowered, ErrorView>,
    global: GlobalView,
    before: Seq<char>,
    after: Seq<char>,
) -> bool {
    match expected {
        Ok(lowered) => result is Ok && global == lowered.global && after == before + lowered.code,
        Err(error) => result matches Err(e) && e@ == error,
    }
}

/// Whether a handler that only emits code did what `expected` says.
pub open spec fn emits(
    result: Result<(), CompileError>,
    expected: Result<Seq<char>, ErrorView>,
    before: Seq<char>,
    after: Seq<char>,
) -> bool {
    match expected {
        Ok(code) => result is Ok && after == before + code,
        Err(error) => result matches Err(e) && e@ == error,
    }
}

/// Whether a handler that only changes the context did what `expected`
/// says.
pub open spec fn defines(
    result: Result<(), CompileError>,
    expected: Result<GlobalView, ErrorView>,
    global: GlobalView,
) -> bool {
    match expected {
        Ok(defined) => result is Ok && global == defined,
        Err(error) => result matches Err(e) && e@ == error,
    }
}

/// Whether each counter can advance `room` times.
pub open spec fn fits(room: nat, counts: CountsView) -> bool {
    &&& counts.mul + room <= u64::MAX
    &&& counts.div + room <= u64::MAX
    &&& counts.loops + room <= u64::MAX
    &&& counts.whiles + room <= u64::MAX
    &&& counts.ifs + room <= u64::MAX
}

/// Whether no counter has gone back and none has advanced more than `room`
/// times.
pub open spec fn grown(before: CountsView, after: CountsView, room: nat) -> bool {
    &&& before.mul <= after.mul <= before.mul + room
    &&& before.div <= after.div <= before.div + room
    &&& before.loops <= after.loops <= before.loops + room
    &&& before.whiles <= after.whiles <= before.whiles + room
    &&& before.ifs <= after.ifs <= before.ifs + room
}

/// What one statement gives, by its kind. A node of no statement kind gives
/// nothing.
pub open spec fn lower_node(node: NodeView, global: GlobalView) -> Result<Lowered, ErrorView>
    decreases node, 1int,
{
    match node.rule {
        Rule::Statement => lower_variable(node, global),
        Rule::Reassignment => lower_assign(node, STORE@, global),
        Rule::Dereference => lower_assign(node, STOREI@, global),
        Rule::WhileLoop => lower_while(node, global),
        Rule::Function => match lower_function(node, global) {
            Err(error) => Err(error),
            Ok(defined) => Ok(Lowered { global: defined, code: Seq::empty() }),
        },
        Rule::Loopp => lower_loop(node, global),
        Rule::Iff => lower_if(node, global),
        Rule::FunctionCall => match lower_call(node) {
            Err(error) => Err(error),
            Ok(code) => Ok(Lowered { global, code }),
        },
        _ => Ok(Lowered { global, code: Seq::empty() }),
    }
}

/// What a sequence of statements gives: each is lowered in source order, in
/// the context that the ones before it left, and the first failure ends the
/// lowering.
pub open spec fn lower_block(nodes: Seq<NodeView>, global: GlobalView) -> Result<Lowered, ErrorView>
    decreases nodes, 0int,
{
    if nodes.len() == 0 {
        Ok(Lowered { global, code: Seq::empty() })
    } else {
        match lower_block(nodes.drop_last(), global) {
            Err(error) => Err(error),
            Ok(first) => match lower_node(nodes.last(), first.global) {
                Err(error) => Err(error),
                Ok(last) => Ok(Lowered { global: last.global, code: first.code + last.code }),
            },
        }
    }
}

/// The context that a statement leaves when its lowering fails. A
/// declaration, an assignment and a call leave the context as it was; a
/// construct with a body leaves the context in which the lowering of its body
/// ended. No statement that fails appends to the output.
pub open spec fn stopped_node(node: NodeView, global: GlobalView) -> GlobalView
    decreases node, 1int,
{
    match node.rule {
        Rule::WhileLoop => stopped_while(node, global),
        Rule::Function => stopped_function(node, global),
        Rule::Loopp => stopped_loop(node, global),
        Rule::Iff => stopped_if(node, global),
        _ => global,
    }
}

/// The context in which the lowering of a sequence of statements ends, and
/// the code that it has emitted by then. Where every statement is lowered,
/// this is what `lower_block` gives; where one fails, it is what the
/// statements before it gave, with the context that the failing statement
/// leaves. The statements behind the failing one add nothing.
pub open spec fn ended_block(nodes: Seq<NodeView>, global: GlobalView) -> Lowered
    decreases nodes, 0int,
{
    if nodes.len() == 0 {
        Lowered { global, code: Seq::empty() }
    } else {
        match lower_block(nodes.drop_last(), global) {
            Err(_) => ended_block(nodes.drop_last(), global),
            Ok(first) => match lower_node(nodes.last(), first.global) {
                Ok(last) => Lowered { global: last.global, code: first.code + last.code },
                Err(_) => Lowered {
                    global: stopped_node(nodes.last(), first.global),
                    code: first.code,
                },
            },
        }
    }
}

/// Where every statement of a sequence is lowered, the lowering ends with
/// what `lower_block` gives.
pub proof fn lemma_ended_lowered(nodes: Seq<NodeView>, global: GlobalView)
    ensures
        lower_block(nodes, global) matches Ok(lowered) ==> ended_block(nodes, global) == lowered,
{
}

/// Where the lowering of the first statements of a sequence fails, the
/// lowering of the whole sequence ends where theirs ends.
pub proof fn lemma_ended_fails(nodes: Seq<NodeView>, global: GlobalView, k: int)
    requires
        0 <= k <= nodes.len(),
        lower_block(nodes.take(k), global) is Err,
    ensures
        ended_block(nodes, global) == ended_block(nodes.take(k), global),
    decreases nodes.len() - k,
{
    if k == nodes.len() {
        assert(nodes.take(k) == nodes);
    } else {
        assert(nodes.take(k + 1).drop_last() == nodes.take(k));
        lemma_ended_fails(nodes, global, k + 1);
        lemma_block_fails(nodes, global, k + 1);
        assert(lower_block(nodes.take(k + 1), global) is Err);
    }
}

/// Whether the context `after` has everything that `before` had: no counter
/// has gone back, and every cell and every subroutine is still entered under
/// its name at its place.
pub open spec fn preserved(before: GlobalView, after: GlobalView) -> bool {
    &&& before.counts.mul <= after.counts.mul
    &&& before.counts.div <= after.counts.div
    &&& before.counts.loops <= after.counts.loops
    &&& before.counts.whiles <= after.counts.whiles
    &&& before.counts.ifs <= after.counts.ifs
    &&& extends(before.variables, after.variables)
    &&& extends(before.functions, after.functions)
}

/// Lowering a statement advances no counter more often than the statement
/// has nodes, and sets none back.
pub proof fn lemma_node_growth(node: NodeView, global: GlobalView)
    ensures
        lower_node(node, global) matches Ok(lowered) ==> grown(
            global.counts,
            lowered.global.counts,
            weight(node),
        ),
    decreases node, 1int,
{
    let parts = node.children;
    assert(weight(node) == 1 + weights(parts));
    match node.rule {
        Rule::Statement => {
            if parts.len() >= 2 {
                let at = if parts.len() == 3 {
                    2int
                } else {
                    1int
                };
                lemma_weights_element(parts, at);
                lemma_parsed_growth(parts[at], global.counts);
            }
        },
        Rule::Reassignment | Rule::Dereference => {
            if parts.len() >= 2 {
                lemma_weights_element(parts, 1);
                lemma_parsed_growth(parts[1], global.counts);
            }
        },
        Rule::WhileLoop | Rule::Iff => {
            if parts.len() >= 3 {
                lemma_weights_suffix(parts, 3);
                lemma_block_growth(parts.skip(3), global);
            }
        },
        Rule::Function => {
            if parts.len() >= 1 {
                lemma_weights_suffix(parts, 1);
                lemma_block_growth(parts.skip(1), global);
            }
        },
        Rule::Loopp => {
            lemma_block_growth(parts, global);
        },
        _ => {},
    }
}

/// Lowering a sequence of statements advances no counter more often than
/// the statements have nodes, and sets none back.
pub proof fn lemma_block_growth(nodes: Seq<NodeView>, global: GlobalView)
    ensures
        lower_block(nodes, global) matches Ok(lowered) ==> grown(
            global.counts,
            lowered.global.counts,
            weights(nodes),
        ),
    decreases nodes, 0int,
{
    if nodes.len() > 0 {
        lemma_block_growth(nodes.drop_last(), global);
        if let Ok(first) = lower_block(nodes.drop_last(), global) {
            lemma_node_growth(nodes.last(), first.global);
        }
    }
}

/// A failure among the first statements of a sequence is the failure of the
/// whole sequence.
pub proof fn lemma_block_fails(nodes: Seq<NodeView>, global: GlobalView, k: int)
    requires
        0 <= k <= nodes.len(),
        lower_block(nodes.take(k), global) is Err,
    ensures
        lower_block(nodes, global) == lower_block(nodes.take(k), global),
    decreases nodes.len() - k,
{
    if k == nodes.len() {
        assert(nodes.take(k) == nodes);
    } else {
        assert(nodes.take(k + 1).drop_last() == nodes.take(k));
        lemma_block_fails(nodes, global, k + 1);
    }
}

/// Lowers a sequence of statements in source order, each by the handler of
/// its kind, threading the context and appending to the output. The first
/// failure ends the lowering: its error is returned as it is, the statements
/// behind it are not lowered, and context and output are left as the
/// statements before it and the failing statement left them. Whether it
/// succeeds or fails, no counter goes back, no cell and no subroutine is
/// removed, and the output only grows.
pub fn resolve_instructions(parsed: &[Node], global: &mut Global, output: &mut String) -> (result:
    Result<(), CompileError>)
    requires
        fits(weights(views(parsed@)), old(global)@.counts),
    ensures
        agrees(
            result,
            lower_block(views(parsed@), old(global)@),
            final(global)@,
            old(output)@,
            final(output)@,
        ),
        final(global)@ == ended_block(views(parsed@), old(global)@).global,
        final(output)@ == old(output)@ + ended_block(views(parsed@), old(global)@).code,
        preserved(old(global)@, final(global)@),
        old(output)@.is_prefix_of(final(output)@),
        old(global).wf() ==> final(global).wf(),
    decreases weights(views(parsed@)), 1int,
{
    let ghost nodes = views(parsed@);
    let ghost start = global@;
    let ghost before = output@;
    let mut i: usize = 0;
    proof {
        assert(nodes.take(0).len() == 0);
        assert(output@ == before + Seq::<char>::empty());
    }
    while i < parsed.len()
        invariant
            i <= parsed@.len(),
            nodes == views(parsed@),
            start == old(global)@,
            before == old(output)@,
            fits(weights(nodes), start.counts),
            agrees(Ok(()), lower_block(nodes.take(i as int), start), global@, before, output@),
            old(global).wf() ==> global.wf(),
        decreases parsed@.len() - i,
    {
        let pair = &parsed[i];
        let ghost done = lower_block(nodes.take(i as int), start)->Ok_0;
        let ghost emitted = output@;
        proof {
            lemma_weights_prefix(nodes, i as int);
            lemma_block_growth(nodes.take(i as int), start);
            assert(nodes.take(i + 1).drop_last() == nodes.take(i as int));
            assert(nodes.take(i + 1).last() == pair@);
        }
        let step = match pair.rule {
            Rule::Statement => variable(pair, global, output),
            Rule::Reassignment => assign(pair, global, output, STORE),
            Rule::Dereference => assign(pair, global, output, STOREI),
            Rule::WhileLoop => while_loop(pair, global, output),
            Rule::Function => function(pair, global),
            Rule::Loopp => loopp(pair, global, output),
            Rule::Iff => iff(pair, global, output),
            Rule::FunctionCall => function_call(pair, output),
            _ => Ok(()),
        };
        proof {
            assert(emitted + Seq::<char>::empty() == emitted);
        }
        match step {
            Ok(()) => {
                proof {
                    let last = lower_node(pair@, done.global)->Ok_0;
                    assert(output@ == emitted + last.code);
                    assert(before + done.code + last.code == before + (done.code + last.code));
                }
            },
            Err(error) => {
                proof {
                    assert(lower_node(pair@, done.global) == Err::<Lowered, ErrorView>(error@));
                    assert(lower_block(nodes.take(i + 1), start) == Err::<Lowered, ErrorView>(
                        error@,
                    ));
                    assert(global@ == stopped_node(pair@, done.global));
                    assert(ended_block(nodes.take(i + 1), start) == (Lowered {
                        global: global@,
                        code: done.code,
                    }));
                    lemma_block_fails(nodes, start, i + 1);
                    lemma_ended_fails(nodes, start, i + 1);
                    lemma_block_preserved(nodes, start);
                    assert(before.is_prefix_of(output@));
                }
                return Err(error);
            },
        }
        i = i + 1;
    }
    proof {
        assert(nodes.take(i as int) == nodes);
        lemma_ended_lowered(nodes, start);
        lemma_block_preserved(nodes, start);
        assert(before.is_prefix_of(output@));
    }
    Ok(())
}

/// The instruction that ends the main program.
pub open spec fn halt_code() -> Seq<char> {
    "\nHALT\n\n"@
}

/// The bodies of the arithmetic subroutines that a program includes: the
/// division body if a division was lowered, then the multiplication body if
/// a multiplication was lowered; each at most once.
pub open spec fn subroutines(counts: CountsView) -> Seq<char> {
    (if counts.div > 0 {
        divide_body() + "\n"@
    } else {
        Seq::empty()
    }) + (if counts.mul > 0 {
        multiply_body() + "\n"@
    } else {
        Seq::empty()
    })
}

/// The texts of the defined subroutines, in the order of their definition.
pub open spec fn routines_text(functions: Routines) -> Seq<char>
    decreases functions.len(),
{
    if functions.len() == 0 {
        Seq::empty()
    } else {
        routines_text(functions.drop_last()) + (functions.last().1 + "\n"@)
    }
}

/// The declaration of one memory cell: its name as a label, its type tag and
/// the value it starts with.
pub open spec fn cell_line(cell: (Seq<char>, (Seq<char>, u16))) -> Seq<char> {
    cell.0 + ",   "@ + cell.1.0 + " "@ + decimal(cell.1.1 as nat) + "\n"@
}

/// The memory table: one declaration for each cell, in the order in which
/// the cells were first registered.
pub open spec fn memory_table(cells: Cells) -> Seq<char>
    decreases cells.len(),
{
    if cells.len() == 0 {
        Seq::empty()
    } else {
        memory_table(cells.drop_last()) + cell_line(cells.last())
    }
}

/// The text of a program: the main code, the halt, the arithmetic
/// subroutines that are used, the defined subroutines, and the memory table,
/// without its last character.
pub open spec fn program_text(lowered: Lowered) -> Seq<char> {
    (lowered.code + halt_code() + subroutines(lowered.global.counts) + routines_text(
        lowered.global.functions,
    ) + memory_table(lowered.global.variables)).drop_last()
}

/// The assembly of a parse tree: its statements are lowered in the initial
/// context, and the program's text is put together from what that leaves.
pub open spec fn assemble(tree: Seq<NodeView>) -> Result<Seq<char>, ErrorView> {
    match lower_block(tree, initial_global()) {
        Err(error) => Err(error),
        Ok(lowered) => Ok(program_text(lowered)),
    }
}

/// The bodies of the arithmetic subroutines that the counters call for.
fn used_subroutines(counts: &Counts) -> (text: String)
    ensures
        text@ == subroutines(counts@),
{
    let mut text = String::new();
    if counts.div > 0 {
        let mut body = divide_subroutine();
        body.append("\n");
        text.append(body.as_str());
    }
    let mut tail = String::new();
    if counts.mul > 0 {
        tail.append(multiply_subroutine().as_str());
        tail.append("\n");
    }
    text.append(tail.as_str());
    assert(text@ =~= subroutines(counts@));
    text
}

/// The texts of the defined subroutines.
fn defined_routines(functions: &Table<String>) -> (text: String)
    ensures
        text@ == routines_text(functions@),
{
    let mut text = String::new();
    let mut i: usize = 0;
    proof {
        assert(functions@.take(0).len() == 0);
    }
    while i < functions.len()
        invariant
            i <= functions@.len(),
            text@ == routines_text(functions@.take(i as int)),
        decreases functions@.len() - i,
    {
        proof {
            assert(functions@.take(i + 1).drop_last() == functions@.take(i as int));
            assert(functions@.take(i + 1).last() == functions@[i as int]);
        }
        let mut entry = String::new();
        entry.append(functions.value(i).as_str());
        entry.append("\n");
        assert(entry@ =~= functions@[i as int].1 + "\n"@);
        text.append(entry.as_str());
        i = i + 1;
    }
    proof {
        assert(functions@.take(i as int) == functions@);
    }
    text
}

/// The memory table of the registered cells.
fn declared_cells(variables: &Table<(String, u16)>) -> (text: String)
    ensures
        text@ == memory_table(variables@),
{
    let mut text = String::new();
    let mut i: usize = 0;
    proof {
        assert(variables@.take(0).len() == 0);
    }
    while i < variables.len()
        invariant
            i <= variables@.len(),
            text@ == memory_table(variables@.take(i as int)),
        decreases variables@.len() - i,
    {
        proof {
            assert(variables@.take(i + 1).drop_last() == variables@.take(i as int));
            assert(variables@.take(i + 1).last() == variables@[i as int]);
        }
        let cell = variables.value(i);
        let mut line = String::new();
        line.append(variables.name(i).as_str());
        line.append(",   ");
        line.append(cell.0.as_str());
        line.append(" ");
        push_decimal(&mut line, cell.1 as u64);
        line.append("\n");
        assert(line@ =~= cell_line(variables@[i as int]));
        text.append(line.as_str());
        i = i + 1;
    }
    proof {
        assert(variables@.take(i as int) == variables@);
    }
    text
}

/// Compiles a parse tree into the text of an assembly program: seeds the
/// context with the reserved cells, lowers the statements, and appends the
/// halt, the arithmetic subroutines that were used, the defined subroutines
/// and the memory table. No text is produced when a statement fails.
pub fn generate(parsed: &[Node]) -> (result: Result<String, CompileError>)
    requires
        weights(views(parsed@)) < u64::MAX,
    ensures
        match assemble(views(parsed@)) {
            Ok(text) => result matches Ok(program) && program@ == text,
            Err(error) => result matches Err(e) && e@ == error,
        },
{
    let mut output = String::new();
    let mut global = Global::new();
    match resolve_instructions(parsed, &mut global, &mut output) {
        Ok(()) => {},
        Err(error) => {
            return Err(error);
        },
    }
    let ghost lowered = lower_block(views(parsed@), initial_global())->Ok_0;
    assert(output@ =~= lowered.code);
    output.append("\nHALT\n\n");
    output.append(used_subroutines(&global.counts).as_str());
    output.append(defined_routines(&global.functions).as_str());
    output.append(declared_cells(&global.variables).as_str());
    let n = output.as_str().unicode_len();
    proof {
        reveal_strlit("\nHALT\n\n");
    }
    let trimmed = String::from_str(output.as_str().substring_char(0, n - 1));
    assert(trimmed@ =~= program_text(lowered));
    Ok(trimmed)
}

} // verus!
