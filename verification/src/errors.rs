//! Error taxonomy of the tracing core.
use vstd::prelude::*;

verus! {

/// A symbol-map line could not be parsed: a malformed hex field or a
/// missing column aborts the whole parse, never yielding a partial table.
#[derive(Clone, Copy, Debug, PartialEq, Eq, Structural)]
pub enum ParseError {
    /// A line held fewer than three whitespace-separated fields.
    MissingColumn,
    /// An address or size field was not a valid hexadecimal number.
    MalformedHex,
}

/// Acquiring trace control over the target failed.
#[derive(Clone, Copy, Debug, PartialEq, Eq, Structural)]
pub enum AttachError {
    /// No process with the given id exists.
    NoSuchProcess,
    /// The caller is not permitted to trace the target.
    PermissionDenied,
    /// Another controller already traces the target, or the kernel
    /// refused for a reason carried as a raw errno value.
    Other(i32),
}

/// A word transfer between tracer and target failed, or the stop the
/// operation needed never came; carries the raw errno value.
#[derive(Clone, Copy, Debug, PartialEq, Eq, Structural)]
pub enum MemoryAccessError {
    /// The kernel refused the word transfer (unmapped address,
    /// permission, or target not in a stopped state).
    Refused(i32),
    /// The requested span runs past the end of the target's address
    /// space, so no word could sit there.
    BeyondAddressSpace,
}

/// The breakpoint protocol was misused or interrupted.
#[derive(Clone, Copy, Debug, PartialEq, Eq, Structural)]
pub enum BreakpointError {
    /// A breakpoint is already recorded at this address.
    AlreadyArmed,
    /// The target stopped on a trap at an address with no matching
    /// armed breakpoint record; carries the faulting address.
    UnknownTrap(u64),
    /// The target stopped for something other than the trap signal;
    /// carries the stop signal number, or 0 for a stop without one.
    UnexpectedStop(i32),
    /// The target is gone: it exited or was killed before the trap.
    TargetGone,
    /// A word transfer underneath the protocol failed.
    Memory(MemoryAccessError),
    /// A tracer control operation failed; carries the raw errno value.
    Tracer(i32),
}

/// The readiness barrier could not be observed.
#[derive(Clone, Copy, Debug, PartialEq, Eq, Structural)]
pub enum BarrierError {
    /// The target exited before the marked memory region was created.
    TargetGone,
    /// The caller's stop budget ran out before the barrier was seen.
    BudgetExhausted,
    /// A tracer control operation failed; carries the raw errno value.
    Tracer(i32),
}

} // verus!
