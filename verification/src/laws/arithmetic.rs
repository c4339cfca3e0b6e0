//! The arithmetic subroutines compute what they are called for: run on the
//! machine with the operands in the cells `A` and `B`, the multiplication
//! subroutine returns with the product, and the division subroutine with the
//! quotient, in the accumulator and in the cell `R`.

use vstd::prelude::*;

use vstd::arithmetic::div_mod::{
    lemma_add_mod_noop_right, lemma_fundamental_div_mod_converse, lemma_small_mod,
};

use crate::machine::{at_return, lemma_run_on, run, step, word, Instruction, Machine};
use crate::operations::{divide_routine, multiply_routine};

verus! {

/// Whether the machine `after` has the operands of `before` in `A` and `B`
/// and still holds one in `ONE`.
pub open spec fn operands_kept(before: Machine, after: Machine) -> bool {
    after.a == before.a && after.b == before.b && after.one == before.one
}

/// Running one instruction more is running the rest from the next step.
proof fn lemma_step_then(lines: Seq<Instruction>, machine: Machine, n: nat)
    ensures
        run(lines, machine, n + 1) == run(lines, step(lines, machine), n),
{
}

/// One turn of the multiplication loop: with `COUNT` not zero, ten
/// instructions add `B` to `R`, take one from `COUNT` and lead back to the
/// test.
proof fn lemma_multiply_turn(machine: Machine)
    requires
        machine.line == 4,
        machine.one == 1,
        machine.count != 0,
    ensures
        run(multiply_routine(), machine, 10).line == 4,
        run(multiply_routine(), machine, 10).r == word(machine.r + machine.b),
        run(multiply_routine(), machine, 10).count == machine.count - 1,
        run(multiply_routine(), machine, 10).c == machine.c,
        operands_kept(machine, run(multiply_routine(), machine, 10)),
{
    let lines = multiply_routine();
    let m1 = step(lines, machine);
    assert(m1 == Machine { ac: machine.count, line: 5, ..machine });
    let m2 = step(lines, m1);
    assert(m2 == Machine { line: 6, ..m1 });
    let m3 = step(lines, m2);
    assert(m3 == Machine { line: 8, ..m1 });
    let m4 = step(lines, m3);
    assert(m4 == Machine { ac: machine.r, line: 9, ..m1 });
    let m5 = step(lines, m4);
    assert(m5 == Machine { ac: word(machine.r + machine.b), line: 10, ..m1 });
    let m6 = step(lines, m5);
    assert(m6 == Machine { r: m5.ac, line: 11, ..m5 });
    let m7 = step(lines, m6);
    assert(m7 == Machine { ac: machine.count, line: 12, ..m6 });
    let m8 = step(lines, m7);
    assert(word(machine.count - 1) == machine.count - 1) by {
        lemma_small_mod((machine.count - 1) as nat, 65536);
    }
    assert(m8 == Machine { ac: (machine.count - 1) as u16, line: 13, ..m6 });
    let m9 = step(lines, m8);
    assert(m9 == Machine { count: m8.ac, line: 14, ..m8 });
    let m10 = step(lines, m9);
    assert(m10 == Machine { line: 4, ..m9 });
    lemma_step_then(lines, machine, 9);
    lemma_step_then(lines, m1, 8);
    lemma_step_then(lines, m2, 7);
    lemma_step_then(lines, m3, 6);
    lemma_step_then(lines, m4, 5);
    lemma_step_then(lines, m5, 4);
    lemma_step_then(lines, m6, 3);
    lemma_step_then(lines, m7, 2);
    lemma_step_then(lines, m8, 1);
    lemma_step_then(lines, m9, 0);
    assert(run(lines, m10, 0) == m10);
}

/// The end of the multiplication loop: with `COUNT` at zero, four
/// instructions load `R` and lead to the return.
proof fn lemma_multiply_end(machine: Machine)
    requires
        machine.line == 4,
        machine.count == 0,
    ensures
        run(multiply_routine(), machine, 4) == (Machine { ac: machine.r, line: 16, ..machine }),
{
    let lines = multiply_routine();
    let m1 = step(lines, machine);
    assert(m1 == Machine { ac: 0, line: 5, ..machine });
    let m2 = step(lines, m1);
    assert(m2 == Machine { line: 7, ..m1 });
    let m3 = step(lines, m2);
    assert(m3 == Machine { line: 15, ..m1 });
    let m4 = step(lines, m3);
    assert(m4 == Machine { ac: machine.r, line: 16, ..machine });
    lemma_step_then(lines, machine, 3);
    lemma_step_then(lines, m1, 2);
    lemma_step_then(lines, m2, 1);
    lemma_step_then(lines, m3, 0);
    assert(run(lines, m4, 0) == m4);
}

/// From the test of the multiplication loop, the subroutine returns with
/// what `R` holds and `B` added to it once for each unit of `COUNT`.
proof fn lemma_multiply_loop(machine: Machine) -> (n: nat)
    requires
        machine.line == 4,
        machine.one == 1,
    ensures
        at_return(multiply_routine(), run(multiply_routine(), machine, n)),
        run(multiply_routine(), machine, n).ac == word(machine.r + machine.count * machine.b),
        run(multiply_routine(), machine, n).r == run(multiply_routine(), machine, n).ac,
        operands_kept(machine, run(multiply_routine(), machine, n)),
    decreases machine.count,
{
    let lines = multiply_routine();
    if machine.count == 0 {
        lemma_multiply_end(machine);
        assert(machine.count * machine.b == 0) by (nonlinear_arith)
            requires
                machine.count == 0,
        ;
        lemma_small_mod(machine.r as nat, 65536);
        4
    } else {
        lemma_multiply_turn(machine);
        let again = run(lines, machine, 10);
        let rest = lemma_multiply_loop(again);
        lemma_run_on(lines, machine, 10, rest);
        assert(word(again.r + again.count * again.b) == word(
            machine.r + machine.count * machine.b,
        )) by {
            let more = (machine.count - 1) * machine.b;
            assert(machine.count * machine.b == machine.b + more) by (nonlinear_arith)
                requires
                    more == (machine.count - 1) * machine.b,
            ;
            lemma_add_mod_noop_right(more, machine.r + machine.b, 65536);
        }
        10 + rest
    }
}

/// The multiplication subroutine computes the product. Entered with the
/// operands in the cells `A` and `B` and one in `ONE`, whatever the other
/// cells hold, it reaches its return after `n` instructions with the product
/// of the operands, as a 16-bit word, in the accumulator and in `R`, and
/// with the operands as they were.
pub proof fn lemma_multiplication(machine: Machine) -> (n: nat)
    requires
        machine.line == 0,
        machine.one == 1,
    ensures
        at_return(multiply_routine(), run(multiply_routine(), machine, n)),
        run(multiply_routine(), machine, n).ac == word(machine.a * machine.b),
        run(multiply_routine(), machine, n).r == word(machine.a * machine.b),
        operands_kept(machine, run(multiply_routine(), machine, n)),
{
    let lines = multiply_routine();
    reveal_with_fuel(run, 5);
    let start = run(lines, machine, 4);
    assert(start.line == 4 && start.r == 0 && start.count == machine.a);
    assert(operands_kept(machine, start));
    let rest = lemma_multiply_loop(start);
    lemma_run_on(lines, machine, 4, rest);
    4 + rest
}

/// One turn of the division loop: with `C` not less than `B`, nine
/// instructions take `B` from `C`, add one to `R` and lead back to the test.
proof fn lemma_divide_turn(machine: Machine)
    requires
        machine.line == 4,
        machine.one == 1,
        machine.b <= machine.c < 32768,
        machine.r < 65535,
    ensures
        run(divide_routine(), machine, 9).line == 4,
        run(divide_routine(), machine, 9).c == machine.c - machine.b,
        run(divide_routine(), machine, 9).r == machine.r + 1,
        operands_kept(machine, run(divide_routine(), machine, 9)),
{
    let lines = divide_routine();
    let left = (machine.c - machine.b) as u16;
    assert(word(machine.c - machine.b) == left) by {
        lemma_small_mod((machine.c - machine.b) as nat, 65536);
    }
    assert(word(machine.r + 1) == machine.r + 1) by {
        lemma_small_mod((machine.r + 1) as nat, 65536);
    }
    let m1 = step(lines, machine);
    assert(m1 == Machine { ac: machine.c, line: 5, ..machine });
    let m2 = step(lines, m1);
    assert(m2 == Machine { ac: left, line: 6, ..machine });
    let m3 = step(lines, m2);
    assert(m3 == Machine { line: 7, ..m2 });
    let m4 = step(lines, m3);
    assert(m4 == Machine { line: 9, ..m2 });
    let m5 = step(lines, m4);
    assert(m5 == Machine { c: left, line: 10, ..m2 });
    let m6 = step(lines, m5);
    assert(m6 == Machine { ac: machine.r, line: 11, ..m5 });
    let m7 = step(lines, m6);
    assert(m7 == Machine { ac: (machine.r + 1) as u16, line: 12, ..m5 });
    let m8 = step(lines, m7);
    assert(m8 == Machine { r: m7.ac, line: 13, ..m7 });
    let m9 = step(lines, m8);
    assert(m9 == Machine { line: 4, ..m8 });
    lemma_step_then(lines, machine, 8);
    lemma_step_then(lines, m1, 7);
    lemma_step_then(lines, m2, 6);
    lemma_step_then(lines, m3, 5);
    lemma_step_then(lines, m4, 4);
    lemma_step_then(lines, m5, 3);
    lemma_step_then(lines, m6, 2);
    lemma_step_then(lines, m7, 1);
    lemma_step_then(lines, m8, 0);
    assert(run(lines, m9, 0) == m9);
}

/// The end of the division loop: with `C` less than `B`, five instructions
/// load `R` and lead to the return.
proof fn lemma_divide_end(machine: Machine)
    requires
        machine.line == 4,
        machine.c < machine.b < 32768,
    ensures
        run(divide_routine(), machine, 5).line == 15,
        run(divide_routine(), machine, 5).ac == machine.r,
        run(divide_routine(), machine, 5).r == machine.r,
        run(divide_routine(), machine, 5).c == machine.c,
        operands_kept(machine, run(divide_routine(), machine, 5)),
{
    let lines = divide_routine();
    let under = (machine.c - machine.b + 65536) as u16;
    assert(word(machine.c - machine.b) == under) by {
        lemma_fundamental_div_mod_converse(
            machine.c - machine.b,
            65536,
            -1,
            machine.c - machine.b + 65536,
        );
    }
    let m1 = step(lines, machine);
    assert(m1 == Machine { ac: machine.c, line: 5, ..machine });
    let m2 = step(lines, m1);
    assert(m2 == Machine { ac: under, line: 6, ..machine });
    let m3 = step(lines, m2);
    assert(m3 == Machine { line: 8, ..m2 });
    let m4 = step(lines, m3);
    assert(m4 == Machine { line: 14, ..m2 });
    let m5 = step(lines, m4);
    assert(m5 == Machine { ac: machine.r, line: 15, ..machine });
    lemma_step_then(lines, machine, 4);
    lemma_step_then(lines, m1, 3);
    lemma_step_then(lines, m2, 2);
    lemma_step_then(lines, m3, 1);
    lemma_step_then(lines, m4, 0);
    assert(run(lines, m5, 0) == m5);
}

/// From the test of the division loop, the subroutine returns with what `R`
/// holds and one added to it for each time that `B` can be taken from `C`.
proof fn lemma_divide_loop(machine: Machine) -> (n: nat)
    requires
        machine.line == 4,
        machine.one == 1,
        0 < machine.b < 32768,
        machine.c < 32768,
        machine.r + machine.c / machine.b < 65536,
    ensures
        at_return(divide_routine(), run(divide_routine(), machine, n)),
        run(divide_routine(), machine, n).ac == machine.r + machine.c / machine.b,
        run(divide_routine(), machine, n).r == run(divide_routine(), machine, n).ac,
        run(divide_routine(), machine, n).c == machine.c % machine.b,
        operands_kept(machine, run(divide_routine(), machine, n)),
    decreases machine.c,
{
    let lines = divide_routine();
    let b = machine.b as int;
    let c = machine.c as int;
    if machine.c < machine.b {
        lemma_divide_end(machine);
        lemma_fundamental_div_mod_converse(c, b, 0, c);
        5
    } else {
        assert(c / b >= 1 && (c - b) / b == c / b - 1 && (c - b) % b == c % b) by {
            vstd::arithmetic::div_mod::lemma_fundamental_div_mod(c - b, b);
            vstd::arithmetic::div_mod::lemma_mod_pos_bound(c - b, b);
            vstd::arithmetic::div_mod::lemma_div_pos_is_pos(c - b, b);
            assert(b * ((c - b) / b + 1) == b * ((c - b) / b) + b) by (nonlinear_arith);
            lemma_fundamental_div_mod_converse(c, b, (c - b) / b + 1, (c - b) % b);
        }
        lemma_divide_turn(machine);
        let again = run(lines, machine, 9);
        let rest = lemma_divide_loop(again);
        lemma_run_on(lines, machine, 9, rest);
        9 + rest
    }
}

/// The division subroutine computes the quotient. Entered with a dividend
/// below 32768 in the cell `A`, a divisor from 1 to 32767 in `B` and one in
/// `ONE`, whatever the other cells hold, it reaches its return after `n`
/// instructions with the quotient in the accumulator and in `R`, the
/// remainder in `C`, and the operands as they were.
pub proof fn lemma_division(machine: Machine) -> (n: nat)
    requires
        machine.line == 0,
        machine.one == 1,
        machine.a < 32768,
        0 < machine.b < 32768,
    ensures
        at_return(divide_routine(), run(divide_routine(), machine, n)),
        run(divide_routine(), machine, n).ac == machine.a / machine.b,
        run(divide_routine(), machine, n).r == machine.a / machine.b,
        run(divide_routine(), machine, n).c == machine.a % machine.b,
        operands_kept(machine, run(divide_routine(), machine, n)),
{
    let lines = divide_routine();
    reveal_with_fuel(run, 5);
    let start = run(lines, machine, 4);
    assert(start.line == 4 && start.r == 0 && start.c == machine.a);
    assert(operands_kept(machine, start));
    assert(machine.a as int / machine.b as int <= machine.a) by {
        vstd::arithmetic::div_mod::lemma_div_is_ordered_by_denominator(
            machine.a as int,
            1,
            machine.b as int,
        );
    }
    let rest = lemma_divide_loop(start);
    lemma_run_on(lines, machine, 4, rest);
    4 + rest
}

} // verus!
