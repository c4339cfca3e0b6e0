//! The target machine, as far as the arithmetic subroutines use it: its
//! accumulator, the reserved cells, the instructions that work on them, and
//! what one instruction does. A subroutine is a list of instructions; its
//! text is the listing of that list, every line under a label of its own.

use vstd::prelude::*;
use vstd::string::StringExecFns;

use crate::text::{decimal, push_decimal};

verus! {

/// A cell that the machine reserves.
#[derive(Clone, Copy, Debug, PartialEq, Eq, Structural)]
pub enum Cell {
    A,
    B,
    C,
    R,
    Count,
    One,
}

/// A test of the accumulator, read as a signed 16-bit number.
#[derive(Clone, Copy, Debug, PartialEq, Eq, Structural)]
pub enum Skip {
    /// The accumulator is negative: `SKIPCOND 000`.
    Negative,
    /// The accumulator is zero: `SKIPCOND 400`.
    Zero,
    /// The accumulator is positive: `SKIPCOND 800`.
    Positive,
}

/// An instruction of a subroutine.
#[derive(Clone, Copy, Debug, PartialEq, Eq, Structural)]
pub enum Instruction {
    /// Sets the accumulator to zero.
    Clear,
    /// Copies a cell into the accumulator.
    Load(Cell),
    /// Copies the accumulator into a cell.
    Store(Cell),
    /// Adds a cell to the accumulator.
    Add(Cell),
    /// Subtracts a cell from the accumulator.
    Subt(Cell),
    /// Skips the next instruction if the test holds.
    Skipcond(Skip),
    /// Goes on at the given line of the subroutine.
    Jump(usize),
    /// Returns to the caller, through the header cell of the subroutine.
    Return,
}

/// The machine while it runs a subroutine: the accumulator, the reserved
/// cells, and the line at which it stands.
pub ghost struct Machine {
    pub ac: u16,
    pub a: u16,
    pub b: u16,
    pub c: u16,
    pub r: u16,
    pub count: u16,
    pub one: u16,
    pub line: int,
}

/// The 16-bit word that holds the number `x`: arithmetic wraps around.
pub open spec fn word(x: int) -> u16 {
    (x % 65536) as u16
}

/// What a cell holds.
pub open spec fn read(machine: Machine, cell: Cell) -> u16 {
    match cell {
        Cell::A => machine.a,
        Cell::B => machine.b,
        Cell::C => machine.c,
        Cell::R => machine.r,
        Cell::Count => machine.count,
        Cell::One => machine.one,
    }
}

/// The machine after `value` is written to a cell.
pub open spec fn write(machine: Machine, cell: Cell, value: u16) -> Machine {
    match cell {
        Cell::A => Machine { a: value, ..machine },
        Cell::B => Machine { b: value, ..machine },
        Cell::C => Machine { c: value, ..machine },
        Cell::R => Machine { r: value, ..machine },
        Cell::Count => Machine { count: value, ..machine },
        Cell::One => Machine { one: value, ..machine },
    }
}

/// Whether a test holds of the accumulator `ac`: a word from 32768 on stands
/// for a negative number.
pub open spec fn holds(skip: Skip, ac: u16) -> bool {
    match skip {
        Skip::Negative => ac >= 32768,
        Skip::Zero => ac == 0,
        Skip::Positive => 0 < ac < 32768,
    }
}

/// The machine after the instruction at which it stands. At a return, and
/// outside the subroutine, it stays as it is.
pub open spec fn step(lines: Seq<Instruction>, machine: Machine) -> Machine {
    if 0 <= machine.line < lines.len() {
        let next = Machine { line: machine.line + 1, ..machine };
        match lines[machine.line] {
            Instruction::Clear => Machine { ac: 0, ..next },
            Instruction::Load(cell) => Machine { ac: read(machine, cell), ..next },
            Instruction::Store(cell) => write(next, cell, machine.ac),
            Instruction::Add(cell) => Machine {
                ac: word(machine.ac + read(machine, cell)),
                ..next
            },
            Instruction::Subt(cell) => Machine {
                ac: word(machine.ac - read(machine, cell)),
                ..next
            },
            Instruction::Skipcond(skip) => if holds(skip, machine.ac) {
                Machine { line: machine.line + 2, ..machine }
            } else {
                next
            },
            Instruction::Jump(target) => Machine { line: target as int, ..machine },
            Instruction::Return => machine,
        }
    } else {
        machine
    }
}

/// The machine after `n` instructions.
pub open spec fn run(lines: Seq<Instruction>, machine: Machine, n: nat) -> Machine
    decreases n,
{
    if n == 0 {
        machine
    } else {
        run(lines, step(lines, machine), (n - 1) as nat)
    }
}

/// Whether the machine stands at a return of the subroutine.
pub open spec fn at_return(lines: Seq<Instruction>, machine: Machine) -> bool {
    0 <= machine.line < lines.len() && lines[machine.line] == Instruction::Return
}

/// Running `n` instructions and then `m` more is running `n + m`.
pub proof fn lemma_run_on(lines: Seq<Instruction>, machine: Machine, n: nat, m: nat)
    ensures
        run(lines, run(lines, machine, n), m) == run(lines, machine, n + m),
    decreases n,
{
    if n > 0 {
        lemma_run_on(lines, step(lines, machine), (n - 1) as nat, m);
    }
}

/// The name of a cell in the assembly text.
pub open spec fn cell_name(cell: Cell) -> Seq<char> {
    match cell {
        Cell::A => "A"@,
        Cell::B => "B"@,
        Cell::C => "C"@,
        Cell::R => "R"@,
        Cell::Count => "COUNT"@,
        Cell::One => "ONE"@,
    }
}

/// The code of a test in the assembly text.
pub open spec fn skip_code(skip: Skip) -> Seq<char> {
    match skip {
        Skip::Negative => "000"@,
        Skip::Zero => "400"@,
        Skip::Positive => "800"@,
    }
}

/// The label of line `i` of the subroutine `name`.
pub open spec fn line_label(name: Seq<char>, i: nat) -> Seq<char> {
    name + "_"@ + decimal(i)
}

/// The text of an instruction of the subroutine `name`.
pub open spec fn instruction_text(name: Seq<char>, instruction: Instruction) -> Seq<char> {
    match instruction {
        Instruction::Clear => "CLEAR"@,
        Instruction::Load(cell) => "LOAD "@ + cell_name(cell),
        Instruction::Store(cell) => "STORE "@ + cell_name(cell),
        Instruction::Add(cell) => "ADD "@ + cell_name(cell),
        Instruction::Subt(cell) => "SUBT "@ + cell_name(cell),
        Instruction::Skipcond(skip) => "SKIPCOND "@ + skip_code(skip),
        Instruction::Jump(target) => "JUMP "@ + line_label(name, target as nat),
        Instruction::Return => "JUMPI "@ + name,
    }
}

/// The text of line `i` of the subroutine `name`: its label and its
/// instruction.
pub open spec fn line_text(name: Seq<char>, i: nat, instruction: Instruction) -> Seq<char> {
    line_label(name, i) + ",\t"@ + instruction_text(name, instruction) + "\n"@
}

/// The text of the lines of the subroutine `name`, in order.
pub open spec fn lines_text(name: Seq<char>, lines: Seq<Instruction>) -> Seq<char>
    decreases lines.len(),
{
    if lines.len() == 0 {
        Seq::empty()
    } else {
        lines_text(name, lines.drop_last()) + line_text(
            name,
            (lines.len() - 1) as nat,
            lines.last(),
        )
    }
}

/// The text of the subroutine `name`: the header cell, which holds the
/// return address, and the lines.
pub open spec fn routine_text(name: Seq<char>, lines: Seq<Instruction>) -> Seq<char> {
    name + ",\tHEX 000\n"@ + lines_text(name, lines)
}

/// The name of a cell in the assembly text.
fn cell_word(cell: Cell) -> (name: &'static str)
    ensures
        name@ == cell_name(cell),
{
    match cell {
        Cell::A => "A",
        Cell::B => "B",
        Cell::C => "C",
        Cell::R => "R",
        Cell::Count => "COUNT",
        Cell::One => "ONE",
    }
}

/// The text of an instruction of the subroutine `name`.
fn instruction_words(name: &str, instruction: Instruction) -> (text: String)
    ensures
        text@ == instruction_text(name@, instruction),
{
    match instruction {
        Instruction::Clear => String::from_str("CLEAR"),
        Instruction::Load(cell) => String::from_str("LOAD ").concat(cell_word(cell)),
        Instruction::Store(cell) => String::from_str("STORE ").concat(cell_word(cell)),
        Instruction::Add(cell) => String::from_str("ADD ").concat(cell_word(cell)),
        Instruction::Subt(cell) => String::from_str("SUBT ").concat(cell_word(cell)),
        Instruction::Skipcond(skip) => String::from_str("SKIPCOND ").concat(
            match skip {
                Skip::Negative => "000",
                Skip::Zero => "400",
                Skip::Positive => "800",
            },
        ),
        Instruction::Jump(target) => {
            let mut label = String::from_str(name);
            label.append("_");
            push_decimal(&mut label, target as u64);
            String::from_str("JUMP ").concat(label.as_str())
        },
        Instruction::Return => String::from_str("JUMPI ").concat(name),
    }
}

/// The text of the subroutine `name` with the lines `lines`.
pub fn listing(name: &str, lines: &Vec<Instruction>) -> (text: String)
    ensures
        text@ == routine_text(name@, lines@),
{
    let mut body = String::new();
    let mut i: usize = 0;
    proof {
        assert(lines@.take(0).len() == 0);
    }
    while i < lines.len()
        invariant
            i <= lines@.len(),
            body@ == lines_text(name@, lines@.take(i as int)),
        decreases lines@.len() - i,
    {
        proof {
            assert(lines@.take(i + 1).drop_last() == lines@.take(i as int));
            assert(lines@.take(i + 1).last() == lines@[i as int]);
        }
        let mut line = String::from_str(name);
        line.append("_");
        push_decimal(&mut line, i as u64);
        line.append(",\t");
        line.append(instruction_words(name, lines[i]).as_str());
        line.append("\n");
        body.append(line.as_str());
        i = i + 1;
    }
    proof {
        assert(lines@.take(i as int) == lines@);
    }
    let mut text = String::from_str(name);
    text.append(",\tHEX 000\n");
    text.append(body.as_str());
    text
}

} // verus!
