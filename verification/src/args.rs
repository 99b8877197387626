use vstd::prelude::*;
use vstd::string::StringExecFns;

verus! {

/// Why the arguments of an invocation were refused.
#[derive(Clone, Copy, Debug, PartialEq, Eq, Structural)]
pub enum ArgError {
    /// Fewer than three arguments, the program's own name counted.
    Missing,
    /// The mode is not `file`.
    Mode,
}

impl ArgError {
    /// What to tell the user.
    pub open spec fn text(self) -> Seq<char> {
        match self {
            ArgError::Missing => "no enough args"@,
            ArgError::Mode => "invalid execute mode, should be file"@,
        }
    }

    /// What to tell the user.
    pub fn message(&self) -> (r: &'static str)
        ensures
            r@ == self.text(),
    {
        match self {
            ArgError::Missing => "no enough args",
            ArgError::Mode => "invalid execute mode, should be file",
        }
    }
}

/// Reads the arguments of an invocation: the program's own name, the mode,
/// which must be `file`, and the path of the file to run, which is returned.
/// What follows the path is not looked at.
pub fn parse_args(args: &Vec<String>) -> (r: Result<String, ArgError>)
    ensures
        match r {
            Ok(path) => args.len() >= 3 && args[1]@ == "file"@ && path@ == args[2]@,
            Err(ArgError::Missing) => args.len() < 3,
            Err(ArgError::Mode) => args.len() >= 3 && args[1]@ != "file"@,
        },
{
    if args.len() < 3 {
        Err(ArgError::Missing)
    } else {
        let mode = String::from_str("file");
        if args[1] == mode {
            Ok(args[2].clone())
        } else {
            Err(ArgError::Mode)
        }
    }
}

} // verus!
