use vstd::prelude::*;

verus! {

/// Why a run was aborted. Every error ends the run.
#[derive(Clone, Copy, Debug, PartialEq, Eq, Structural)]
pub enum Error {
    /// A token that is no instruction, or a cell value that names none.
    Decode,
    /// A cell was asked for that the tape does not hold.
    Lookup,
    /// The line read for an integer is no integer.
    Parse,
    /// The console supplied nothing where something had to be read.
    Io,
    /// Indirect execution was pointed at indirect execution.
    Indirection,
}

impl Error {
    /// What to tell the user.
    pub open spec fn text(self) -> Seq<char> {
        match self {
            Error::Decode => "invalid command"@,
            Error::Lookup => "value not found"@,
            Error::Parse => "not a valid integer"@,
            Error::Io => "failed to read from the console"@,
            Error::Indirection => "infinite command 3"@,
        }
    }

    /// What to tell the user.
    pub fn message(&self) -> (r: &'static str)
        ensures
            r@ == self.text(),
    {
        match self {
            Error::Decode => "invalid command",
            Error::Lookup => "value not found",
            Error::Parse => "not a valid integer",
            Error::Io => "failed to read from the console",
            Error::Indirection => "infinite command 3",
        }
    }
}

} // verus!
