use crate::command::Command;
use crate::console::{events, read_int, Input, Output, Request};
use crate::error::Error;
use crate::machine::{
    cell_char, grown, lemma_execute_wf, pred, succ, written, Machine, Status,
};
use crate::scan::{find_backward, find_forward, lemma_backward_target_below};
use vstd::prelude::*;

verus! {

/// What a run wrote, how many of its inputs it read, and how it ended.
pub struct Report {
    pub output: Vec<Output>,
    pub consumed: usize,
    pub status: Status,
}

/// The machine: tape, data pointer, instruction pointer, register and program.
pub struct Core {
    mem: Vec<i32>,
    mem_p: usize,
    cmd_p: usize,
    register: Option<i32>,
    commands: Vec<Command>,
}

impl View for Core {
    type V = Machine;

    closed spec fn view(&self) -> Machine {
        Machine {
            mem: self.mem@,
            mem_p: self.mem_p as int,
            cmd_p: self.cmd_p as int,
            register: self.register,
            commands: self.commands@,
        }
    }
}

impl Core {
    /// The state is one that the machine can be in: see `Machine::wf`.
    pub open spec fn wf(&self) -> bool {
        self@.wf()
    }

    /// A machine that has not run yet.
    pub fn new() -> (core: Core)
        ensures
            core@ == Machine::fresh(),
            core.wf(),
    {
        Core { mem: Vec::new(), mem_p: 0, cmd_p: 0, register: None, commands: Vec::new() }
    }

    /// Moves the data pointer one cell to the right. The tape grows by zero
    /// cells until it holds the cell that the pointer has reached: one cell
    /// at most, but for the empty tape, where the cell that the pointer
    /// leaves is allocated as well.
    pub fn forward_p(&mut self)
        requires
            old(self).wf(),
        ensures
            final(self)@ == old(self)@.right(),
            final(self).wf(),
    {
        assert(self.mem_p <= self.mem.len());
        self.mem_p = self.mem_p + 1;
        while self.mem_p >= self.mem.len()
            invariant
                self.mem_p == old(self).mem_p + 1,
                self.cmd_p == old(self).cmd_p,
                self.register == old(self).register,
                self.commands == old(self).commands,
                old(self).mem.len() <= self.mem.len(),
                self.mem.len() == old(self).mem.len() || self.mem.len() <= self.mem_p + 1,
                self.mem@ =~= old(self).mem@ + Seq::new(
                    (self.mem.len() - old(self).mem.len()) as nat,
                    |i: int| 0i32,
                ),
            decreases self.mem_p + 1 - self.mem.len(),
        {
            self.mem.push(0);
        }
        assert(self.mem@ =~= grown(old(self).mem@, self.mem_p as int));
    }

    /// Moves the data pointer one cell to the left. At position zero nothing
    /// changes.
    pub fn backward_p(&mut self)
        ensures
            final(self)@ == old(self)@.left(),
            old(self)@.mem_p == 0 ==> final(self)@ == old(self)@,
    {
        if self.mem_p > 0 {
            self.mem_p = self.mem_p - 1;
        }
    }

    /// The cell under the data pointer.
    pub fn get_value(&self) -> (r: Result<i32, Error>)
        ensures
            r == match self@.current() {
                Some(v) => Ok::<i32, Error>(v),
                None => Err(Error::Lookup),
            },
    {
        if self.mem_p < self.mem.len() {
            Ok(self.mem[self.mem_p])
        } else {
            Err(Error::Lookup)
        }
    }

    /// The instruction that the cell under the data pointer names.
    pub fn get_cmd(&self) -> (r: Result<Command, Error>)
        ensures
            r == self@.named(),
    {
        match self.get_value() {
            Ok(v) => Command::from_code(v),
            Err(e) => Err(e),
        }
    }

    /// Writes `v` into the cell under the data pointer.
    pub fn set_value(&mut self, v: i32) -> (r: Result<(), Error>)
        ensures
            match old(self)@.current() {
                Some(_) => r == Ok::<(), Error>(()) && final(self)@ == old(self)@.store(v),
                None => r == Err::<(), Error>(Error::Lookup) && final(self)@ == old(self)@,
            },
    {
        if self.mem_p < self.mem.len() {
            self.mem.set(self.mem_p, v);
            Ok(())
        } else {
            Err(Error::Lookup)
        }
    }

    /// Takes one from the cell under the data pointer, wrapping round.
    pub fn decrease(&mut self) -> (r: Result<(), Error>)
        ensures
            match old(self)@.current() {
                Some(v) => r == Ok::<(), Error>(()) && final(self)@ == old(self)@.store(pred(v)),
                None => r == Err::<(), Error>(Error::Lookup) && final(self)@ == old(self)@,
            },
    {
        if self.mem_p < self.mem.len() {
            let v: i32 = self.mem[self.mem_p];
            self.mem.set(self.mem_p, v.wrapping_sub(1));
            Ok(())
        } else {
            Err(Error::Lookup)
        }
    }

    /// Adds one to the cell under the data pointer, wrapping round.
    pub fn increase(&mut self) -> (r: Result<(), Error>)
        ensures
            match old(self)@.current() {
                Some(v) => r == Ok::<(), Error>(()) && final(self)@ == old(self)@.store(succ(v)),
                None => r == Err::<(), Error>(Error::Lookup) && final(self)@ == old(self)@,
            },
    {
        if self.mem_p < self.mem.len() {
            let v: i32 = self.mem[self.mem_p];
            self.mem.set(self.mem_p, v.wrapping_add(1));
            Ok(())
        } else {
            Err(Error::Lookup)
        }
    }

    /// What the register holds.
    pub fn get_reg(&self) -> (r: Option<i32>)
        ensures
            r == self@.register,
    {
        self.register
    }

    /// Puts `v` into the register.
    pub fn set_reg(&mut self, v: i32)
        ensures
            final(self)@ == old(self)@.keep(Some(v)),
    {
        self.register = Some(v);
    }

    /// Empties the register.
    pub fn clear_reg(&mut self)
        ensures
            final(self)@ == old(self)@.keep(None),
    {
        self.register = None;
    }

    /// The data pointer.
    pub fn mem_p(&self) -> (r: usize)
        ensures
            r == self@.mem_p,
    {
        self.mem_p
    }

    /// The instruction pointer.
    pub fn cmd_p(&self) -> (r: usize)
        ensures
            r == self@.cmd_p,
    {
        self.cmd_p
    }

    /// The tape.
    pub fn mem(&self) -> (r: &Vec<i32>)
        ensures
            r@ == self@.mem,
    {
        &self.mem
    }

    /// The program.
    pub fn commands(&self) -> (r: &Vec<Command>)
        ensures
            r@ == self@.commands,
    {
        &self.commands
    }

    /// Tells whether the instruction pointer has left the program.
    pub fn halted(&self) -> (r: bool)
        ensures
            r == self@.halted(),
    {
        self.cmd_p >= self.commands.len()
    }

    /// Puts the machine at the start of `commands`. Tape, data pointer and
    /// register stay as they are.
    pub fn load(&mut self, commands: Vec<Command>)
        requires
            2 * commands.len() < usize::MAX,
        ensures
            final(self)@ == old(self)@.load(commands@),
    {
        self.cmd_p = 0;
        self.commands = commands;
    }

    /// Executes `cmd` as the instruction under the instruction pointer, with
    /// `input` as what the console supplied for it. Returns what is to be
    /// written. On an error the machine is as it was.
    pub fn handle_cmd(&mut self, cmd: &Command, input: &Input) -> (r: Result<Output, Error>)
        requires
            old(self).wf(),
            !old(self)@.halted(),
        ensures
            match old(self)@.execute(*cmd, input@) {
                Ok((next, out)) => r == Ok::<Output, Error>(out) && final(self)@ == next,
                Err(e) => r == Err::<Output, Error>(e) && final(self)@ == old(self)@,
            },
            final(self).wf(),
        decreases old(self)@.cmd_p, (if *cmd == Command::NingGuang { 1int } else { 0int }),
    {
        proof {
            lemma_execute_wf(self@, *cmd, input@);
        }
        let mut out: Output = Output::Nothing;
        match cmd {
            Command::Ao => {
                proof {
                    lemma_backward_target_below(self@.commands, self@.cmd_p);
                }
                match find_backward(&self.commands, self.cmd_p) {
                    Some(t) => {
                        if t >= self.mem.len() {
                            return Err(Error::Lookup);
                        }
                        let named = Command::from_code(self.mem[t])?;
                        let ip: usize = self.cmd_p;
                        self.cmd_p = t;
                        return match self.handle_cmd(&named, input) {
                            Ok(o) => Ok(o),
                            Err(e) => {
                                self.cmd_p = ip;
                                Err(e)
                            },
                        };
                    },
                    None => {},
                }
            },
            Command::HuTao => {
                self.backward_p();
            },
            Command::XiangLing => {
                self.forward_p();
            },
            Command::NingGuang => {
                let named = self.get_cmd()?;
                if named == Command::NingGuang {
                    return Err(Error::Indirection);
                }
                proof {
                    lemma_execute_wf(self@, named, input@);
                }
                out = self.handle_cmd(&named, input)?;
            },
            Command::KeQing => {
                let v: i32 = self.get_value()?;
                if v == 0 {
                    match input {
                        Input::Byte(b) => {
                            self.set_value(*b as i32)?;
                        },
                        _ => {
                            return Err(Error::Io);
                        },
                    }
                } else {
                    out = Output::Char(low_char(v));
                }
            },
            Command::YeLan => {
                self.decrease()?;
            },
            Command::Shogun => {
                self.increase()?;
            },
            Command::Ayaka => {
                let v: i32 = self.get_value()?;
                if v == 0 {
                    self.cmd_p = find_forward(&self.commands, self.cmd_p);
                    return Ok(Output::Nothing);
                }
            },
            Command::Yoimiya => {
                self.set_value(0)?;
            },
            Command::Miko => {
                match self.get_reg() {
                    Some(held) => {
                        self.set_value(held)?;
                        self.clear_reg();
                    },
                    None => {
                        let v: i32 = self.get_value()?;
                        self.set_reg(v);
                    },
                }
            },
            Command::Barbara => {
                let v: i32 = self.get_value()?;
                out = Output::Int(v);
            },
            Command::Klee => {
                match input {
                    Input::Line(line) => {
                        let v: i32 = read_int(line.as_str())?;
                        self.set_value(v)?;
                    },
                    _ => {
                        return Err(Error::Io);
                    },
                }
            },
        }
        self.cmd_p = self.cmd_p + 1;
        Ok(out)
    }

    /// Executes the instruction under the instruction pointer.
    pub fn step(&mut self, input: &Input) -> (r: Result<Output, Error>)
        requires
            old(self).wf(),
            !old(self)@.halted(),
        ensures
            match old(self)@.step(input@) {
                Ok((next, out)) => r == Ok::<Output, Error>(out) && final(self)@ == next,
                Err(e) => r == Err::<Output, Error>(e) && final(self)@ == old(self)@,
            },
            final(self).wf(),
    {
        let cmd: Command = self.commands[self.cmd_p];
        self.handle_cmd(&cmd, input)
    }

    /// What the instruction under the instruction pointer wants to have read
    /// before it runs.
    pub fn request(&self) -> (r: Request)
        requires
            !self@.halted(),
        ensures
            r == self@.demand(self@.commands[self@.cmd_p]),
    {
        self.demand_at(self.commands[self.cmd_p], self.cmd_p)
    }

    /// Runs `commands` from their start for at most `fuel` instructions, on the
    /// tape, data pointer and register that the machine has. Each instruction
    /// that wants something read takes the next of `inputs`.
    pub fn run(&mut self, commands: Vec<Command>, inputs: &Vec<Input>, fuel: usize) -> (r: Report)
        requires
            old(self).wf(),
            2 * commands.len() < usize::MAX,
        ensures
            final(self).wf(),
            ({
                let t = old(self)@.load(commands@).run(events(inputs@), fuel as nat);
                &&& final(self)@ == t.machine
                &&& r.output@ == t.output
                &&& r.consumed == t.consumed
                &&& r.status == t.status
            }),
    {
        self.load(commands);
        assert(events(inputs@).skip(0) =~= events(inputs@));
        self.resume(inputs, 0, fuel)
    }

    /// Runs on from where the machine stands for at most `fuel` instructions.
    /// Each instruction that wants something read takes the next of `inputs`,
    /// of which the first `skip` count as read already. The number of inputs
    /// reported as read counts from there.
    #[verifier::loop_isolation(false)]
    pub fn resume(&mut self, inputs: &Vec<Input>, skip: usize, fuel: usize) -> (r: Report)
        requires
            old(self).wf(),
            skip <= inputs.len(),
        ensures
            final(self).wf(),
            ({
                let t = old(self)@.run(events(inputs@).skip(skip as int), fuel as nat);
                &&& final(self)@ == t.machine
                &&& r.output@ == t.output
                &&& r.consumed == t.consumed
                &&& r.status == t.status
            }),
    {
        let ghost start = self@;
        let ghost all = events(inputs@);
        let nothing = Input::Nothing;
        let mut output: Vec<Output> = Vec::new();
        let mut used: usize = skip;
        let mut left: usize = fuel;
        proof {
            let t = start.run(all.skip(skip as int), fuel as nat);
            assert(Seq::<Output>::empty() + t.output =~= t.output);
        }
        loop
            invariant
                self.wf(),
                skip <= used <= inputs.len(),
                start.run(all.skip(skip as int), fuel as nat) == self@.run(
                    all.skip(used as int),
                    left as nat,
                ).after(output@, (used - skip) as nat),
            decreases left,
        {
            let ghost rest = all.skip(used as int);
            if self.halted() {
                assert(output@ + Seq::<Output>::empty() =~= output@);
                return Report { output, consumed: used - skip, status: Status::Halted };
            }
            if left == 0 {
                assert(output@ + Seq::<Output>::empty() =~= output@);
                return Report { output, consumed: used - skip, status: Status::Paused };
            }
            let reads: bool = self.request() != Request::Nothing && used < inputs.len();
            let input: &Input = if reads {
                &inputs[used]
            } else {
                &nothing
            };
            let taken: usize = if reads {
                1
            } else {
                0
            };
            proof {
                assert(reads == self@.reads(rest));
                if reads {
                    assert(rest[0] == inputs@[used as int]@);
                }
                assert(rest.skip(taken as int) =~= all.skip(used + taken));
            }
            match self.step(input) {
                Err(e) => {
                    assert(output@ + Seq::<Output>::empty() =~= output@);
                    return Report {
                        output,
                        consumed: used + taken - skip,
                        status: Status::Failed(e),
                    };
                },
                Ok(out) => {
                    let ghost before = output@;
                    match out {
                        Output::Nothing => {},
                        _ => {
                            output.push(out);
                        },
                    }
                    used = used + taken;
                    left = left - 1;
                    proof {
                        let t = self@.run(all.skip(used as int), left as nat);
                        assert(output@ =~= before + written(out));
                        assert((before + written(out)) + t.output =~= before + (written(out)
                            + t.output));
                    }
                },
            }
        }
    }

    fn demand_at(&self, cmd: Command, ip: usize) -> (r: Request)
        requires
            ip < self.commands.len(),
        ensures
            r == self@.at(ip as int).demand(cmd),
        decreases ip, (if cmd == Command::NingGuang { 1int } else { 0int }),
    {
        match cmd {
            Command::Ao => {
                proof {
                    lemma_backward_target_below(self@.commands, ip as int);
                }
                match find_backward(&self.commands, ip) {
                    Some(t) => {
                        if t >= self.mem.len() {
                            return Request::Nothing;
                        }
                        match Command::from_code(self.mem[t]) {
                            Ok(named) => self.demand_at(named, t),
                            Err(_) => Request::Nothing,
                        }
                    },
                    None => Request::Nothing,
                }
            },
            Command::NingGuang => {
                match self.get_cmd() {
                    Ok(named) => {
                        if named == Command::NingGuang {
                            Request::Nothing
                        } else {
                            self.demand_at(named, ip)
                        }
                    },
                    Err(_) => Request::Nothing,
                }
            },
            Command::KeQing => {
                match self.get_value() {
                    Ok(v) => {
                        if v == 0 {
                            Request::Byte
                        } else {
                            Request::Nothing
                        }
                    },
                    Err(_) => Request::Nothing,
                }
            },
            Command::Klee => Request::Line,
            _ => Request::Nothing,
        }
    }
}

/// The low eight bits of a cell, read as a character.
pub fn low_char(v: i32) -> (c: char)
    ensures
        c == cell_char(v),
{
    let b: u8 = (v & 0xff) as u8;
    assert(b as int == (v as int) % 256) by (bit_vector)
        requires
            b == (v & 0xff) as u8,
    ;
    b as char
}

} // verus!
