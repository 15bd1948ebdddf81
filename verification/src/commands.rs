//! Operator commands of an inspection session and the wrap-around
//! selection logic of its lists.
use vstd::prelude::*;

verus! {

/// An operator command of the inspection session.
#[derive(Clone, Copy, Debug)]
pub enum Command {
    /// Spawn the target process and take trace control of it.
    StartProcess,
    /// Parse the target's symbol map into a function table.
    ParsePerfMap,
}

impl Command {
    /// The label under which the command is listed.
    pub fn title(self) -> (r: &'static str)
        ensures
            self is StartProcess ==> r@ == "Start process"@,
            self is ParsePerfMap ==> r@ == "Parse perfmap output"@,
    {
        match self {
            Command::StartProcess => "Start process",
            Command::ParsePerfMap => "Parse perfmap output",
        }
    }
}

/// Which input surface of the session is active.
#[derive(Debug, Clone, Copy, PartialEq, Eq, Structural)]
pub enum Mode {
    /// Keys drive the lists.
    Normal,
    /// Keys feed the popup naming the process to start.
    StartProcessPopup,
}

/// The selection one step down a list of `len` items, wrapping from the
/// last entry back to the first.
pub fn next_wrapping(i: usize, len: usize) -> (r: usize)
    requires
        len > 0,
    ensures
        r < len,
        r as int == if i + 1 >= len {
            0int
        } else {
            i + 1
        },
{
    if i >= len - 1 {
        0
    } else {
        i + 1
    }
}

/// The selection one step up a list of `len` items, wrapping from the
/// first entry back to the last.
pub fn prev_wrapping(i: usize, len: usize) -> (r: usize)
    requires
        len > 0,
    ensures
        i < len ==> r < len,
        r as int == if i == 0 {
            len - 1
        } else {
            i - 1
        },
{
    if i == 0 {
        len - 1
    } else {
        i - 1
    }
}

} // verus!
