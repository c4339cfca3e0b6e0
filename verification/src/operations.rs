//! The instruction sequences of the four arithmetic operators.
//!
//! Each takes the names of two cells and leaves the result in the
//! accumulator. Addition and subtraction are a load and one arithmetic
//! instruction; multiplication and division place the operands in the cells
//! `A` and `B` and call the shared subroutine, which is counted as used and
//! returns with the result in the accumulator and in the cell `R`.

use vstd::prelude::*;
use vstd::string::StringExecFns;

use crate::machine::{listing, routine_text, Cell, Instruction, Skip};

verus! {

/// The code that adds cell `b` to cell `a`.
pub open spec fn add_code(a: Seq<char>, b: Seq<char>) -> Seq<char> {
    "\nLOAD "@ + a + "\nADD "@ + b + "\n"@
}

/// The code that subtracts cell `b` from cell `a`.
pub open spec fn subtract_code(a: Seq<char>, b: Seq<char>) -> Seq<char> {
    "\nLOAD "@ + a + "\nSUBT "@ + b + "\n"@
}

/// The code that multiplies cell `a` by cell `b`.
pub open spec fn multiply_code(a: Seq<char>, b: Seq<char>) -> Seq<char> {
    "\nLOAD "@ + a + "\nSTORE A\nLOAD "@ + b + "\nSTORE B\nJNS MUL\n"@
}

/// The code that divides cell `a` by cell `b`.
pub open spec fn divide_code(a: Seq<char>, b: Seq<char>) -> Seq<char> {
    "\nLOAD "@ + a + "\nSTORE A\nLOAD "@ + b + "\nSTORE B\nJNS DIV\n"@
}

/// The lines of the multiplication subroutine. It clears the result cell `R`
/// and copies cell `A` to `COUNT`; while `COUNT` is not zero it adds cell `B`
/// to `R` and takes one from `COUNT`; then it loads `R` and returns, so that
/// the product is in `R` and in the accumulator.
pub open spec fn multiply_routine() -> Seq<Instruction> {
    seq![
        Instruction::Clear,
        Instruction::Store(Cell::R),
        Instruction::Load(Cell::A),
        Instruction::Store(Cell::Count),
        Instruction::Load(Cell::Count),
        Instruction::Skipcond(Skip::Zero),
        Instruction::Jump(8),
        Instruction::Jump(15),
        Instruction::Load(Cell::R),
        Instruction::Add(Cell::B),
        Instruction::Store(Cell::R),
        Instruction::Load(Cell::Count),
        Instruction::Subt(Cell::One),
        Instruction::Store(Cell::Count),
        Instruction::Jump(4),
        Instruction::Load(Cell::R),
        Instruction::Return,
    ]
}

/// The lines of the division subroutine. It clears the result cell `R` and
/// copies cell `A` to `C`; while what is left in `C` is not less than cell
/// `B` it takes `B` from `C` and adds one to `R`; then it loads `R` and
/// returns, so that the quotient is in `R` and in the accumulator and the
/// remainder in `C`.
pub open spec fn divide_routine() -> Seq<Instruction> {
    seq![
        Instruction::Clear,
        Instruction::Store(Cell::R),
        Instruction::Load(Cell::A),
        Instruction::Store(Cell::C),
        Instruction::Load(Cell::C),
        Instruction::Subt(Cell::B),
        Instruction::Skipcond(Skip::Negative),
        Instruction::Jump(9),
        Instruction::Jump(14),
        Instruction::Store(Cell::C),
        Instruction::Load(Cell::R),
        Instruction::Add(Cell::One),
        Instruction::Store(Cell::R),
        Instruction::Jump(4),
        Instruction::Load(Cell::R),
        Instruction::Return,
    ]
}

/// The body of the multiplication subroutine: the listing of its lines under
/// the header cell `MUL`.
pub open spec fn multiply_body() -> Seq<char> {
    routine_text("MUL"@, multiply_routine())
}

/// The body of the division subroutine: the listing of its lines under the
/// header cell `DIV`.
pub open spec fn divide_body() -> Seq<char> {
    routine_text("DIV"@, divide_routine())
}

/// Multiplies cell `a` by cell `b` through the `MUL` subroutine and counts
/// the use.
pub fn multiply(a: &String, b: &String, count: &mut u64) -> (value: String)
    requires
        *old(count) < u64::MAX,
    ensures
        value@ == multiply_code(a@, b@),
        *final(count) == *old(count) + 1,
{
    let mut value = String::from_str("\nLOAD ");
    value.append(a.as_str());
    value.append("\nSTORE A\nLOAD ");
    value.append(b.as_str());
    value.append("\nSTORE B\nJNS MUL\n");
    *count = *count + 1;
    value
}

/// Adds cell `b` to cell `a`.
pub fn add(a: &String, b: &String) -> (value: String)
    ensures
        value@ == add_code(a@, b@),
{
    let mut value = String::from_str("\nLOAD ");
    value.append(a.as_str());
    value.append("\nADD ");
    value.append(b.as_str());
    value.append("\n");
    value
}

/// Subtracts cell `b` from cell `a`.
pub fn subtract(a: &String, b: &String) -> (value: String)
    ensures
        value@ == subtract_code(a@, b@),
{
    let mut value = String::from_str("\nLOAD ");
    value.append(a.as_str());
    value.append("\nSUBT ");
    value.append(b.as_str());
    value.append("\n");
    value
}

/// Divides cell `a` by cell `b` through the `DIV` subroutine and counts the
/// use.
pub fn divide(a: &String, b: &String, count: &mut u64) -> (value: String)
    requires
        *old(count) < u64::MAX,
    ensures
        value@ == divide_code(a@, b@),
        *final(count) == *old(count) + 1,
{
    let mut value = String::from_str("\nLOAD ");
    value.append(a.as_str());
    value.append("\nSTORE A\nLOAD ");
    value.append(b.as_str());
    value.append("\nSTORE B\nJNS DIV\n");
    *count = *count + 1;
    value
}

/// The lines of the multiplication subroutine.
pub fn multiply_lines() -> (lines: Vec<Instruction>)
    ensures
        lines@ == multiply_routine(),
{
    let mut lines: Vec<Instruction> = Vec::new();
    lines.push(Instruction::Clear);
    lines.push(Instruction::Store(Cell::R));
    lines.push(Instruction::Load(Cell::A));
    lines.push(Instruction::Store(Cell::Count));
    lines.push(Instruction::Load(Cell::Count));
    lines.push(Instruction::Skipcond(Skip::Zero));
    lines.push(Instruction::Jump(8));
    lines.push(Instruction::Jump(15));
    lines.push(Instruction::Load(Cell::R));
    lines.push(Instruction::Add(Cell::B));
    lines.push(Instruction::Store(Cell::R));
    lines.push(Instruction::Load(Cell::Count));
    lines.push(Instruction::Subt(Cell::One));
    lines.push(Instruction::Store(Cell::Count));
    lines.push(Instruction::Jump(4));
    lines.push(Instruction::Load(Cell::R));
    lines.push(Instruction::Return);
    assert(lines@ =~= multiply_routine());
    lines
}

/// The lines of the division subroutine.
pub fn divide_lines() -> (lines: Vec<Instruction>)
    ensures
        lines@ == divide_routine(),
{
    let mut lines: Vec<Instruction> = Vec::new();
    lines.push(Instruction::Clear);
    lines.push(Instruction::Store(Cell::R));
    lines.push(Instruction::Load(Cell::A));
    lines.push(Instruction::Store(Cell::C));
    lines.push(Instruction::Load(Cell::C));
    lines.push(Instruction::Subt(Cell::B));
    lines.push(Instruction::Skipcond(Skip::Negative));
    lines.push(Instruction::Jump(9));
    lines.push(Instruction::Jump(14));
    lines.push(Instruction::Store(Cell::C));
    lines.push(Instruction::Load(Cell::R));
    lines.push(Instruction::Add(Cell::One));
    lines.push(Instruction::Store(Cell::R));
    lines.push(Instruction::Jump(4));
    lines.push(Instruction::Load(Cell::R));
    lines.push(Instruction::Return);
    assert(lines@ =~= divide_routine());
    lines
}

/// The body of the multiplication subroutine.
pub fn multiply_subroutine() -> (body: String)
    ensures
        body@ == multiply_body(),
{
    listing("MUL", &multiply_lines())
}

/// The body of the division subroutine.
pub fn divide_subroutine() -> (body: String)
    ensures
        body@ == divide_body(),
{
    listing("DIV", &divide_lines())
}

} // verus!
