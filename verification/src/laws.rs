use crate::command::Command;
use crate::console::{Event, Output, Request};
use crate::machine::{grown, lemma_execute_wf, pred, succ, written, Machine, Status, Trace};
use vstd::prelude::*;

verus! {

/// The tape of `n` zero cells.
pub open spec fn zeros(n: nat) -> Seq<i32> {
    Seq::new(n, |i: int| 0i32)
}

/// The program of `k` moves to the right.
pub open spec fn moves_right(k: nat) -> Seq<Command> {
    Seq::new(k, |i: int| Command::XiangLing)
}

/// A machine whose program from the instruction pointer on is moves to the
/// right runs to the end of it, writes and reads nothing, and has then moved
/// its data pointer once for each of them, the tape grown to hold it.
pub proof fn lemma_moves_right(m: Machine, inputs: Seq<Event>, fuel: nat)
    requires
        0 <= m.mem_p,
        0 <= m.cmd_p <= m.commands.len(),
        forall|i: int| m.cmd_p <= i < m.commands.len() ==> m.commands[i] == Command::XiangLing,
        fuel >= m.commands.len() - m.cmd_p,
    ensures
        ({
            let k = m.commands.len() - m.cmd_p;
            let t = m.run(inputs, fuel);
            &&& t.status == Status::Halted
            &&& t.output =~= Seq::<Output>::empty()
            &&& t.consumed == 0
            &&& t.machine.cmd_p == m.commands.len()
            &&& t.machine.mem_p == m.mem_p + k
            &&& t.machine.mem =~= if k == 0 {
                m.mem
            } else {
                grown(m.mem, m.mem_p + k)
            }
            &&& t.machine.register == m.register
            &&& t.machine.commands == m.commands
        }),
    decreases m.commands.len() - m.cmd_p,
{
    if m.cmd_p < m.commands.len() {
        let next = m.right().advance();
        assert(m.step(Event::Nothing) == Ok::<(Machine, Output), crate::error::Error>(
            (next, Output::Nothing),
        ));
        assert(m.demand(Command::XiangLing) == Request::Nothing);
        lemma_moves_right(next, inputs, (fuel - 1) as nat);
        assert(inputs.skip(0) =~= inputs);
        if m.commands.len() - m.cmd_p > 1 {
            lemma_grown_chain(m.mem, m.mem_p + 1, m.mem_p + (m.commands.len() - m.cmd_p));
        }
    }
}

/// Growing a tape for a position and then for a later one is growing it for
/// the later one.
proof fn lemma_grown_chain(mem: Seq<i32>, p: int, q: int)
    requires
        0 <= p <= q,
    ensures
        grown(grown(mem, p), q) =~= grown(mem, q),
{
}

/// A program of `k` moves to the right, run on a machine that has not run
/// yet, leaves a tape of exactly `k + 1` zero cells with the data pointer on
/// cell `k`. (For no move at all the tape stays empty.)
pub proof fn law_moves_right_grow_tape(k: nat, inputs: Seq<Event>, fuel: nat)
    requires
        k >= 1,
        fuel >= k,
    ensures
        ({
            let t = Machine::fresh().load(moves_right(k)).run(inputs, fuel);
            &&& t.status == Status::Halted
            &&& t.machine.mem == zeros(k + 1)
            &&& t.machine.mem_p == k
            &&& t.output == Seq::<Output>::empty()
        }),
{
    let m = Machine::fresh().load(moves_right(k));
    lemma_moves_right(m, inputs, fuel);
    let t = m.run(inputs, fuel);
    assert(t.machine.mem =~= zeros(k + 1));
}

/// A move to the left at data pointer zero changes nothing, whatever the tape
/// holds; as an instruction it only lets the instruction pointer pass.
pub proof fn law_move_left_at_zero(m: Machine, input: Event)
    requires
        m.mem_p == 0,
    ensures
        m.left() == m,
        m.left().left() == m.left(),
        m.execute(Command::HuTao, input) == Ok::<(Machine, Output), crate::error::Error>(
            (m.advance(), Output::Nothing),
        ),
{
}

/// Adding one and taking one away undo each other, in either order, on
/// every value.
pub proof fn law_succ_pred(v: i32)
    ensures
        pred(succ(v)) == v,
        succ(pred(v)) == v,
{
}

/// An increment and then a decrement of the same cell, with no move between
/// them, leave the tape, the data pointer and the register as they were.
pub proof fn law_inc_dec_round_trip(m: Machine, first: Event, second: Event)
    requires
        m.current() is Some,
    ensures
        m.execute(Command::Shogun, first) is Ok,
        m.execute(Command::Shogun, first).unwrap().0.execute(Command::YeLan, second) is Ok,
        ({
            let end = m.execute(Command::Shogun, first).unwrap().0.execute(
                Command::YeLan,
                second,
            ).unwrap().0;
            end == m.at(m.cmd_p + 2)
        }),
{
    let mid = m.execute(Command::Shogun, first).unwrap().0;
    let end = mid.execute(Command::YeLan, second).unwrap().0;
    assert(end.mem =~= m.mem);
}

/// The register alternates. With the register empty, a register move keeps
/// the current cell's value in it and leaves the tape as it is. The next
/// register move, wherever the data pointer then stands, writes that value
/// into the cell there and leaves the register empty.
pub proof fn law_register_alternates(m: Machine, later: Machine, first: Event, second: Event)
    requires
        m.register is None,
        m.current() is Some,
        later.register == m.current(),
        later.current() is Some,
    ensures
        m.execute(Command::Miko, first) == Ok::<(Machine, Output), crate::error::Error>(
            (m.keep(m.current()).advance(), Output::Nothing),
        ),
        m.execute(Command::Miko, first).unwrap().0.mem == m.mem,
        m.execute(Command::Miko, first).unwrap().0.register == m.current(),
        later.execute(Command::Miko, second) is Ok,
        later.execute(Command::Miko, second).unwrap().0.current() == m.current(),
        later.execute(Command::Miko, second).unwrap().0.register is None,
        later.execute(Command::Miko, second).unwrap().0.mem == later.mem.update(
            later.mem_p,
            m.current().unwrap(),
        ),
{
}

/// Where an instruction wants nothing read, what it does is the same
/// whatever the console has at hand.
pub proof fn law_demand_nothing(m: Machine, cmd: Command, a: Event, b: Event)
    requires
        m.demand(cmd) == Request::Nothing,
    ensures
        m.execute(cmd, a) == m.execute(cmd, b),
    decreases m.cmd_p, (if cmd == Command::NingGuang { 1int } else { 0int }),
{
    match cmd {
        Command::Ao => {
            crate::scan::lemma_backward_target_below(m.commands, m.cmd_p);
            match crate::scan::backward_target(m.commands, m.cmd_p) {
                Some(t) => {
                    if 0 <= t < m.mem.len() {
                        match Command::of_code(m.mem[t] as int) {
                            Some(c) => {
                                law_demand_nothing(m.at(t), c, a, b);
                            },
                            None => {},
                        }
                    }
                },
                None => {},
            }
        },
        Command::NingGuang => {
            match m.named() {
                Ok(c) => {
                    if c != Command::NingGuang {
                        law_demand_nothing(m, c, a, b);
                    }
                },
                Err(_) => {},
            }
        },
        _ => {},
    }
}

/// How a run ends. It reads no more inputs than there are, and neither reads
/// nor writes more often than it had steps. It ends halted exactly when the
/// instruction pointer has left the program; paused, only with its steps used
/// up. The program is never changed, and the machine stays one that it can be.
pub proof fn law_run_ends(m: Machine, inputs: Seq<Event>, fuel: nat)
    requires
        m.wf(),
    ensures
        ({
            let t = m.run(inputs, fuel);
            &&& t.machine.wf()
            &&& t.machine.commands == m.commands
            &&& t.consumed <= inputs.len()
            &&& t.consumed <= fuel
            &&& t.output.len() <= fuel
            &&& t.status == Status::Halted <==> t.machine.halted()
        }),
    decreases fuel,
{
    if !m.halted() && fuel > 0 {
        let reads = m.reads(inputs);
        let used: nat = if reads { 1 } else { 0 };
        let input = if reads { inputs[0] } else { Event::Nothing };
        lemma_execute_wf(m, m.commands[m.cmd_p], input);
        match m.step(input) {
            Ok((next, out)) => {
                law_run_ends(next, inputs.skip(used as int), (fuel - 1) as nat);
            },
            Err(_) => {},
        }
    }
}

/// A run reads no more inputs than there are.
pub proof fn lemma_run_consumed(m: Machine, inputs: Seq<Event>, fuel: nat)
    ensures
        m.run(inputs, fuel).consumed <= inputs.len(),
    decreases fuel,
{
    if !m.halted() && fuel > 0 {
        let reads = m.reads(inputs);
        let used: nat = if reads { 1 } else { 0 };
        let input = if reads { inputs[0] } else { Event::Nothing };
        match m.step(input) {
            Ok((next, out)) => {
                lemma_run_consumed(next, inputs.skip(used as int), (fuel - 1) as nat);
            },
            Err(_) => {},
        }
    }
}

/// A run that was paused and is taken up again, with the inputs that it has
/// not read, does what the run would have done with the steps of both.
pub proof fn law_run_resumes(m: Machine, inputs: Seq<Event>, a: nat, b: nat)
    ensures
        ({
            let first = m.run(inputs, a);
            let whole = m.run(inputs, a + b);
            if first.status == Status::Paused {
                let second = first.machine.run(inputs.skip(first.consumed as int), b);
                &&& whole.machine == second.machine
                &&& whole.status == second.status
                &&& whole.output == first.output + second.output
                &&& whole.consumed == first.consumed + second.consumed
            } else {
                whole == first
            }
        }),
    decreases a,
{
    let first = m.run(inputs, a);
    let whole = m.run(inputs, a + b);
    if m.halted() {
    } else if a == 0 {
        assert(inputs.skip(0) =~= inputs);
        assert(first.output + whole.output =~= whole.output);
    } else {
        let reads = m.reads(inputs);
        let used: nat = if reads { 1 } else { 0 };
        let input = if reads { inputs[0] } else { Event::Nothing };
        match m.step(input) {
            Ok((next, out)) => {
                let rest = inputs.skip(used as int);
                law_run_resumes(next, rest, (a - 1) as nat, b);
                let inner = next.run(rest, (a - 1) as nat);
                assert(a + b - 1 == (a - 1) as nat + b);
                if inner.status == Status::Paused {
                    lemma_run_consumed(next, rest, (a - 1) as nat);
                    let second = inner.machine.run(rest.skip(inner.consumed as int), b);
                    assert(rest.skip(inner.consumed as int) =~= inputs.skip(
                        first.consumed as int,
                    ));
                    assert(whole.output =~= first.output + second.output);
                }
            },
            Err(_) => {},
        }
    }
}

} // verus!
