use crate::command::Command;
use crate::console::{line_value, Event, Output, Request};
use crate::error::Error;
use crate::scan::{
    backward_target, forward_target, lemma_backward_target_below, lemma_forward_target_bounds,
};
use vstd::prelude::*;

verus! {

/// The state of the machine as a mathematical value.
pub struct Machine {
    /// The tape.
    pub mem: Seq<i32>,
    /// The data pointer.
    pub mem_p: int,
    /// The instruction pointer.
    pub cmd_p: int,
    /// The register.
    pub register: Option<i32>,
    /// The program.
    pub commands: Seq<Command>,
}

/// How a run ended.
#[derive(Clone, Copy, Debug, PartialEq, Eq, Structural)]
pub enum Status {
    /// The instruction pointer left the program.
    Halted,
    /// An instruction failed.
    Failed(Error),
    /// The steps allowed were used up before the program ended.
    Paused,
}

/// A run as a mathematical value: where the machine ended, what was written
/// on the way, how many of the inputs were read, and how the run ended.
pub struct Trace {
    pub machine: Machine,
    pub output: Seq<Output>,
    pub consumed: nat,
    pub status: Status,
}

impl Trace {
    /// This run, told after `output` was written and `consumed` inputs were
    /// read.
    pub open spec fn after(self, output: Seq<Output>, consumed: nat) -> Trace {
        Trace { output: output + self.output, consumed: consumed + self.consumed, ..self }
    }
}

/// What one instruction adds to what was written.
pub open spec fn written(out: Output) -> Seq<Output> {
    if out == Output::Nothing {
        Seq::empty()
    } else {
        seq![out]
    }
}

/// `mem`, extended by zero cells as far as needed for `p` to be an index.
pub open spec fn grown(mem: Seq<i32>, p: int) -> Seq<i32> {
    if p < mem.len() {
        mem
    } else {
        mem + Seq::new((p + 1 - mem.len()) as nat, |i: int| 0i32)
    }
}

/// The low eight bits of a cell, read as a character.
pub open spec fn cell_char(v: i32) -> char {
    ((v as int) % 256) as char
}

/// One more than `v`, wrapping round at the top of the range.
pub open spec fn succ(v: i32) -> i32 {
    if v == i32::MAX {
        i32::MIN
    } else {
        (v + 1) as i32
    }
}

/// One less than `v`, wrapping round at the bottom of the range.
pub open spec fn pred(v: i32) -> i32 {
    if v == i32::MIN {
        i32::MAX
    } else {
        (v - 1) as i32
    }
}

impl Machine {
    /// The machine before anything has run: empty tape, both pointers at
    /// zero, empty register, no program.
    pub open spec fn fresh() -> Machine {
        Machine { mem: Seq::empty(), mem_p: 0, cmd_p: 0, register: None, commands: Seq::empty() }
    }

    /// The data pointer stands on a cell, or on position zero of an empty
    /// tape; the instruction pointer is not negative; the program is short
    /// enough for the instruction pointer to be counted in a machine word.
    pub open spec fn wf(self) -> bool {
        &&& 0 <= self.cmd_p
        &&& 0 <= self.mem_p
        &&& self.mem_p < self.mem.len() || (self.mem_p == 0 && self.mem.len() == 0)
        &&& 2 * self.commands.len() < usize::MAX
    }

    /// The instruction pointer has left the program.
    pub open spec fn halted(self) -> bool {
        self.cmd_p >= self.commands.len()
    }

    /// The cell under the data pointer, if the tape holds it.
    pub open spec fn current(self) -> Option<i32> {
        if 0 <= self.mem_p < self.mem.len() {
            Some(self.mem[self.mem_p])
        } else {
            None
        }
    }

    /// This machine with `v` in the cell under the data pointer.
    pub open spec fn store(self, v: i32) -> Machine {
        Machine { mem: self.mem.update(self.mem_p, v), ..self }
    }

    /// This machine with the data pointer one to the right, the tape grown to
    /// hold it.
    pub open spec fn right(self) -> Machine {
        Machine { mem: grown(self.mem, self.mem_p + 1), mem_p: self.mem_p + 1, ..self }
    }

    /// This machine with the data pointer one to the left, or unchanged at
    /// position zero.
    pub open spec fn left(self) -> Machine {
        if self.mem_p <= 0 {
            self
        } else {
            Machine { mem_p: self.mem_p - 1, ..self }
        }
    }

    /// This machine with the instruction pointer at `ip`.
    pub open spec fn at(self, ip: int) -> Machine {
        Machine { cmd_p: ip, ..self }
    }

    /// This machine with the instruction pointer one further.
    pub open spec fn advance(self) -> Machine {
        self.at(self.cmd_p + 1)
    }

    /// This machine with `v` in the register.
    pub open spec fn keep(self, r: Option<i32>) -> Machine {
        Machine { register: r, ..self }
    }

    /// This machine at the start of `commands`.
    pub open spec fn load(self, commands: Seq<Command>) -> Machine {
        Machine { cmd_p: 0, commands, ..self }
    }

    /// The instruction that the current cell names.
    pub open spec fn named(self) -> Result<Command, Error> {
        match self.current() {
            None => Err(Error::Lookup),
            Some(v) => match Command::of_code(v as int) {
                None => Err(Error::Decode),
                Some(c) => Ok(c),
            },
        }
    }

    /// What executing `cmd` does, with `input` at hand: the next state and
    /// what is to be written, or the error that aborts the run.
    ///
    /// `cmd` need not be the instruction under the instruction pointer: a
    /// backward jump and indirect execution run an instruction that a tape
    /// cell names as if it stood at the instruction pointer.
    pub open spec fn execute(self, cmd: Command, input: Event) -> Result<(Machine, Output), Error>
        decreases self.cmd_p, (if cmd == Command::NingGuang { 1int } else { 0int }),
    {
        match cmd {
            Command::Ao => match backward_target(self.commands, self.cmd_p) {
                None => Ok((self.advance(), Output::Nothing)),
                Some(t) => {
                    if !(0 <= t < self.mem.len()) {
                        Err(Error::Lookup)
                    } else {
                        match Command::of_code(self.mem[t] as int) {
                            None => Err(Error::Decode),
                            Some(c) => {
                                proof {
                                    lemma_backward_target_below(self.commands, self.cmd_p);
                                }
                                self.at(t).execute(c, input)
                            },
                        }
                    }
                },
            },
            Command::HuTao => Ok((self.left().advance(), Output::Nothing)),
            Command::XiangLing => Ok((self.right().advance(), Output::Nothing)),
            Command::NingGuang => match self.named() {
                Err(e) => Err(e),
                Ok(c) => {
                    if c == Command::NingGuang {
                        Err(Error::Indirection)
                    } else {
                        match self.execute(c, input) {
                            Err(e) => Err(e),
                            Ok((next, out)) => Ok((next.advance(), out)),
                        }
                    }
                },
            },
            Command::KeQing => match self.current() {
                None => Err(Error::Lookup),
                Some(v) => {
                    if v == 0 {
                        match input {
                            Event::Byte(b) => Ok((self.store(b as i32).advance(), Output::Nothing)),
                            _ => Err(Error::Io),
                        }
                    } else {
                        Ok((self.advance(), Output::Char(cell_char(v))))
                    }
                },
            },
            Command::YeLan => match self.current() {
                None => Err(Error::Lookup),
                Some(v) => Ok((self.store(pred(v)).advance(), Output::Nothing)),
            },
            Command::Shogun => match self.current() {
                None => Err(Error::Lookup),
                Some(v) => Ok((self.store(succ(v)).advance(), Output::Nothing)),
            },
            Command::Ayaka => match self.current() {
                None => Err(Error::Lookup),
                Some(v) => {
                    if v != 0 {
                        Ok((self.advance(), Output::Nothing))
                    } else {
                        Ok((self.at(forward_target(self.commands, self.cmd_p)), Output::Nothing))
                    }
                },
            },
            Command::Yoimiya => match self.current() {
                None => Err(Error::Lookup),
                Some(_) => Ok((self.store(0).advance(), Output::Nothing)),
            },
            Command::Miko => match self.current() {
                None => Err(Error::Lookup),
                Some(v) => match self.register {
                    Some(held) => Ok((self.store(held).keep(None).advance(), Output::Nothing)),
                    None => Ok((self.keep(Some(v)).advance(), Output::Nothing)),
                },
            },
            Command::Barbara => match self.current() {
                None => Err(Error::Lookup),
                Some(v) => Ok((self.advance(), Output::Int(v))),
            },
            Command::Klee => match input {
                Event::Line(line) => match line_value(line) {
                    None => Err(Error::Parse),
                    Some(v) => match self.current() {
                        None => Err(Error::Lookup),
                        Some(_) => Ok((self.store(v).advance(), Output::Nothing)),
                    },
                },
                _ => Err(Error::Io),
            },
        }
    }

    /// What executing `cmd` wants to have read first. Where this is
    /// `Request::Nothing`, `execute` does not look at its input.
    pub open spec fn demand(self, cmd: Command) -> Request
        decreases self.cmd_p, (if cmd == Command::NingGuang { 1int } else { 0int }),
    {
        match cmd {
            Command::Ao => match backward_target(self.commands, self.cmd_p) {
                None => Request::Nothing,
                Some(t) => {
                    if !(0 <= t < self.mem.len()) {
                        Request::Nothing
                    } else {
                        match Command::of_code(self.mem[t] as int) {
                            None => Request::Nothing,
                            Some(c) => {
                                proof {
                                    lemma_backward_target_below(self.commands, self.cmd_p);
                                }
                                self.at(t).demand(c)
                            },
                        }
                    }
                },
            },
            Command::NingGuang => match self.named() {
                Err(_) => Request::Nothing,
                Ok(c) => {
                    if c == Command::NingGuang {
                        Request::Nothing
                    } else {
                        self.demand(c)
                    }
                },
            },
            Command::KeQing => if self.current() == Some(0i32) {
                Request::Byte
            } else {
                Request::Nothing
            },
            Command::Klee => Request::Line,
            _ => Request::Nothing,
        }
    }

    /// What the instruction under the instruction pointer does.
    pub open spec fn step(self, input: Event) -> Result<(Machine, Output), Error>
        recommends
            !self.halted(),
    {
        self.execute(self.commands[self.cmd_p], input)
    }

    /// Whether the instruction under the instruction pointer takes the first
    /// of `inputs`: it does when it wants something read and there is
    /// something left.
    pub open spec fn reads(self, inputs: Seq<Event>) -> bool
        recommends
            !self.halted(),
    {
        self.demand(self.commands[self.cmd_p]) != Request::Nothing && inputs.len() > 0
    }

    /// The run of at most `fuel` instructions from this state. Each
    /// instruction that wants something read takes the next of `inputs`, or
    /// `Event::Nothing` when none is left. The run ends when the instruction
    /// pointer leaves the program, at the first error, or when `fuel` is used
    /// up. After an error the machine is as it was before the failing
    /// instruction.
    pub open spec fn run(self, inputs: Seq<Event>, fuel: nat) -> Trace
        decreases fuel,
    {
        if self.halted() {
            Trace { machine: self, output: Seq::empty(), consumed: 0, status: Status::Halted }
        } else if fuel == 0 {
            Trace { machine: self, output: Seq::empty(), consumed: 0, status: Status::Paused }
        } else {
            let reads = self.reads(inputs);
            let used: nat = if reads { 1 } else { 0 };
            let input = if reads { inputs[0] } else { Event::Nothing };
            match self.step(input) {
                Err(e) => Trace {
                    machine: self,
                    output: Seq::empty(),
                    consumed: used,
                    status: Status::Failed(e),
                },
                Ok((next, out)) => next.run(inputs.skip(used as int), (fuel - 1) as nat).after(
                    written(out),
                    used,
                ),
            }
        }
    }
}

/// Executing an instruction of a running machine leaves a state that the
/// machine can be in, with the same program, and an instruction pointer that
/// has not gone further than the program's length beyond where it was (one
/// more for indirect execution).
pub proof fn lemma_execute_wf(m: Machine, cmd: Command, input: Event)
    requires
        m.wf(),
        !m.halted(),
    ensures
        match m.execute(cmd, input) {
            Ok((next, _)) => {
                &&& next.wf()
                &&& next.commands == m.commands
                &&& next.cmd_p <= m.commands.len() + m.cmd_p + (if cmd == Command::NingGuang {
                    1int
                } else {
                    0int
                })
            },
            Err(_) => true,
        },
    decreases m.cmd_p, (if cmd == Command::NingGuang { 1int } else { 0int }),
{
    match cmd {
        Command::Ao => {
            lemma_backward_target_below(m.commands, m.cmd_p);
            match backward_target(m.commands, m.cmd_p) {
                Some(t) => {
                    if 0 <= t < m.mem.len() {
                        match Command::of_code(m.mem[t] as int) {
                            Some(c) => {
                                lemma_execute_wf(m.at(t), c, input);
                            },
                            None => {},
                        }
                    }
                },
                None => {},
            }
        },
        Command::NingGuang => {
            match m.named() {
                Ok(c) => {
                    if c != Command::NingGuang {
                        lemma_execute_wf(m, c, input);
                    }
                },
                Err(_) => {},
            }
        },
        Command::Ayaka => {
            lemma_forward_target_bounds(m.commands, m.cmd_p);
        },
        _ => {},
    }
}

} // verus!
