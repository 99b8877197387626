use crate::error::Error;
use vstd::prelude::*;

verus! {

/// One instruction of the machine.
#[derive(Clone, Copy, Debug, PartialEq, Eq, Structural)]
pub enum Command {
    /// Loop close: jump back.
    Ao,
    /// Move the data pointer one cell to the left.
    HuTao,
    /// Move the data pointer one cell to the right.
    XiangLing,
    /// Execute the instruction that the current cell names.
    NingGuang,
    /// Read a character into a zero cell, or write a non-zero cell as a character.
    KeQing,
    /// Subtract one from the current cell.
    YeLan,
    /// Add one to the current cell.
    Shogun,
    /// Loop open: jump forward if the current cell is zero.
    Ayaka,
    /// Set the current cell to zero.
    Yoimiya,
    /// Move a value into or out of the register.
    Miko,
    /// Write the current cell as a decimal integer.
    Barbara,
    /// Read a decimal integer into the current cell.
    Klee,
}

impl Command {
    /// The number that stands for this instruction in a tape cell.
    pub open spec fn code(self) -> int {
        match self {
            Command::Ao => 0,
            Command::HuTao => 1,
            Command::XiangLing => 2,
            Command::NingGuang => 3,
            Command::KeQing => 4,
            Command::YeLan => 5,
            Command::Shogun => 6,
            Command::Ayaka => 7,
            Command::Yoimiya => 8,
            Command::Miko => 9,
            Command::Barbara => 10,
            Command::Klee => 11,
        }
    }

    /// The instruction that a cell value names, if it names one.
    pub open spec fn of_code(v: int) -> Option<Command> {
        if v == 0 {
            Some(Command::Ao)
        } else if v == 1 {
            Some(Command::HuTao)
        } else if v == 2 {
            Some(Command::XiangLing)
        } else if v == 3 {
            Some(Command::NingGuang)
        } else if v == 4 {
            Some(Command::KeQing)
        } else if v == 5 {
            Some(Command::YeLan)
        } else if v == 6 {
            Some(Command::Shogun)
        } else if v == 7 {
            Some(Command::Ayaka)
        } else if v == 8 {
            Some(Command::Yoimiya)
        } else if v == 9 {
            Some(Command::Miko)
        } else if v == 10 {
            Some(Command::Barbara)
        } else if v == 11 {
            Some(Command::Klee)
        } else {
            None
        }
    }

    /// The number that stands for this instruction in a tape cell.
    pub fn opcode(&self) -> (r: i32)
        ensures
            r == self.code(),
    {
        match self {
            Command::Ao => 0,
            Command::HuTao => 1,
            Command::XiangLing => 2,
            Command::NingGuang => 3,
            Command::KeQing => 4,
            Command::YeLan => 5,
            Command::Shogun => 6,
            Command::Ayaka => 7,
            Command::Yoimiya => 8,
            Command::Miko => 9,
            Command::Barbara => 10,
            Command::Klee => 11,
        }
    }

    /// Decodes a cell value. Values outside `0..=11` name no instruction.
    pub fn from_code(v: i32) -> (r: Result<Command, Error>)
        ensures
            r == match Command::of_code(v as int) {
                Some(c) => Ok::<Command, Error>(c),
                None => Err(Error::Decode),
            },
    {
        match v {
            0 => Ok(Command::Ao),
            1 => Ok(Command::HuTao),
            2 => Ok(Command::XiangLing),
            3 => Ok(Command::NingGuang),
            4 => Ok(Command::KeQing),
            5 => Ok(Command::YeLan),
            6 => Ok(Command::Shogun),
            7 => Ok(Command::Ayaka),
            8 => Ok(Command::Yoimiya),
            9 => Ok(Command::Miko),
            10 => Ok(Command::Barbara),
            11 => Ok(Command::Klee),
            _ => Err(Error::Decode),
        }
    }
}

/// Decoding undoes encoding, and only the twelve codes decode.
pub proof fn law_code_round_trip(c: Command, v: int)
    ensures
        Command::of_code(c.code()) == Some(c),
        0 <= c.code() <= 11,
        Command::of_code(v) == Some(c) <==> v == c.code(),
        Command::of_code(v) is Some <==> 0 <= v <= 11,
{
}

} // verus!
