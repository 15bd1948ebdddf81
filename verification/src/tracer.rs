//! Process tracer: owns the exclusive trace relationship with one target
//! process. Everything that touches the target's memory or registers goes
//! through this module.
//!
//! The handle keeps a model of target memory: a map from word-aligned-or-not
//! start addresses to the 8-byte word the tracer last saw or wrote there.
//! The model is trusted to match the target only while the target is
//! stopped, so every operation that lets the target run again clears it.
//! Writing a word also drops any tracked word that shares a byte with it.
//! The model assumes the single-writer discipline of this design: one
//! controlling thread, one trace relationship, and a target whose other
//! threads (if any) do not touch the tracked words while it is stopped.
//!
//! The handle also keeps a log of the actions the tracer performed on
//! the target, in order. The log only ever grows: it is history, not a
//! claim about current state, so letting the target run does not clear
//! it. Contracts over the log force an operation to have really issued
//! its writes, rewinds and steps, in order.
use vstd::prelude::*;

use crate::errors::AttachError;
use crate::errors::MemoryAccessError;

use nix::sys::ptrace;
use nix::sys::wait::waitpid;
use nix::sys::wait::WaitStatus;
use nix::unistd::Pid;

verus! {

/// Signal number of the trap raised by the software breakpoint opcode.
pub const TRAP_SIGNAL: i32 = 5;

/// Observable life-cycle state of the traced target.
#[derive(Clone, Copy, Debug, PartialEq, Eq, Structural)]
pub enum TraceState {
    /// Stopped by a signal or an explicit interrupt; holds the signal.
    Stopped(i32),
    /// Stopped at a syscall boundary.
    SyscallStop,
    /// Resumed; no word transfer is possible until the next wait.
    Running,
    /// Exited or killed; nothing more can be done with the handle.
    Gone,
}

/// One observed state change of the target, as the kernel reports it.
#[derive(Clone, Copy, Debug, PartialEq, Eq, Structural)]
pub enum WaitOutcome {
    /// Normal exit with the given code.
    Exited(i32),
    /// Killed by the given signal.
    Signaled(i32),
    /// Stopped by the given signal.
    Stopped(i32),
    /// Stopped by a trace event with the given event value.
    TraceEvent(i32),
    /// Stopped at a syscall boundary.
    SyscallStop,
    /// Resumed by a continue signal.
    Continued,
    /// No state change to report.
    StillAlive,
}

/// The target's life-cycle state after one observed state change.
pub open spec fn spec_state_after(prev: TraceState, o: WaitOutcome) -> TraceState {
    match o {
        WaitOutcome::Exited(_) => TraceState::Gone,
        WaitOutcome::Signaled(_) => TraceState::Gone,
        WaitOutcome::Stopped(sig) => TraceState::Stopped(sig),
        WaitOutcome::TraceEvent(_) => TraceState::Stopped(TRAP_SIGNAL),
        WaitOutcome::SyscallStop => TraceState::SyscallStop,
        WaitOutcome::Continued => prev,
        WaitOutcome::StillAlive => prev,
    }
}

/// Two 8-byte words starting at these addresses share at least one byte.
pub open spec fn words_overlap(a: u64, b: u64) -> bool {
    (a <= b && b - a < 8) || (b < a && a - b < 8)
}

/// The tracked-memory model after writing `w` at `addr`: the written word
/// is known, any word sharing a byte with it is forgotten, and every
/// other tracked word keeps its value.
pub open spec fn poke_model(m: Map<u64, u64>, addr: u64, w: u64) -> Map<u64, u64> {
    Map::new(
        |k: u64| k == addr || (m.contains_key(k) && !words_overlap(k, addr)),
        |k: u64|
            if k == addr {
                w
            } else {
                m[k]
            },
    )
}

/// One action the tracer performed on the target, as recorded in the
/// handle's log.
pub enum TraceAction {
    /// An 8-byte word was written into the target at this address.
    WroteWord(u64, u64),
    /// The target's instruction pointer was rewritten to this address.
    SetInstructionPointer(u64),
    /// The target was let run for exactly one instruction.
    SteppedOnce,
    /// The target was let run freely.
    Resumed,
    /// The target was let run to its next syscall boundary.
    ResumedToSyscall,
}

/// Registers of the stopped target that the tracing core reads.
#[derive(Clone, Copy, Debug)]
pub struct RegSnapshot {
    /// The syscall number at a syscall stop.
    pub syscall_number: u64,
    /// The syscall return register; at syscall entry it holds the
    /// kernel's not-yet-decided sentinel.
    pub syscall_ret: u64,
    /// The first syscall argument register.
    pub arg0: u64,
    /// The instruction pointer.
    pub ip: u64,
}

/// Relies on nix::sys::ptrace::seize with the syscall-tracing option:
/// acquires trace control of a running process without stopping it; the
/// kernel's refusals are told apart by their errno.
#[verifier::external_body]
fn seize_raw(pid: i32) -> (r: Result<(), AttachError>) {
    match ptrace::seize(Pid::from_raw(pid), ptrace::Options::PTRACE_O_TRACESYSGOOD) {
        Ok(()) => Ok(()),
        Err(nix::errno::Errno::ESRCH) => Err(AttachError::NoSuchProcess),
        Err(nix::errno::Errno::EPERM) => Err(AttachError::PermissionDenied),
        Err(e) => Err(AttachError::Other(e as i32)),
    }
}

/// Relies on nix::sys::ptrace::interrupt: asks the kernel to stop the
/// seized target.
#[verifier::external_body]
fn interrupt_raw(pid: i32) -> (r: Result<(), i32>) {
    ptrace::interrupt(Pid::from_raw(pid)).map_err(|e| e as i32)
}

/// Relies on nix::sys::ptrace::cont: lets the stopped target run.
#[verifier::external_body]
fn cont_raw(pid: i32) -> (r: Result<(), i32>) {
    ptrace::cont(Pid::from_raw(pid), None).map_err(|e| e as i32)
}

/// Relies on nix::sys::ptrace::step: lets the stopped target execute one
/// instruction.
#[verifier::external_body]
fn step_raw(pid: i32) -> (r: Result<(), i32>) {
    ptrace::step(Pid::from_raw(pid), None).map_err(|e| e as i32)
}

/// Relies on nix::sys::ptrace::syscall: lets the stopped target run to
/// its next syscall boundary.
#[verifier::external_body]
fn syscall_raw(pid: i32) -> (r: Result<(), i32>) {
    ptrace::syscall(Pid::from_raw(pid), None).map_err(|e| e as i32)
}

/// Relies on nix::sys::wait::waitpid: blocks until the target changes
/// state and passes the kernel's report on, one arm per report kind,
/// with signals as their numbers.
#[verifier::external_body]
fn wait_raw(pid: i32) -> (r: Result<WaitOutcome, i32>) {
    match waitpid(Pid::from_raw(pid), None) {
        Ok(WaitStatus::Exited(_, code)) => Ok(WaitOutcome::Exited(code)),
        Ok(WaitStatus::Signaled(_, sig, _)) => Ok(WaitOutcome::Signaled(sig as i32)),
        Ok(WaitStatus::Stopped(_, sig)) => Ok(WaitOutcome::Stopped(sig as i32)),
        Ok(WaitStatus::PtraceEvent(_, _, ev)) => Ok(WaitOutcome::TraceEvent(ev)),
        Ok(WaitStatus::PtraceSyscall(_)) => Ok(WaitOutcome::SyscallStop),
        Ok(WaitStatus::Continued(_)) => Ok(WaitOutcome::Continued),
        Ok(WaitStatus::StillAlive) => Ok(WaitOutcome::StillAlive),
        Err(e) => Err(e as i32),
    }
}

/// Relies on nix::sys::ptrace::getregs: copies the registers the core
/// needs out of the stopped target's register file.
#[verifier::external_body]
fn getregs_raw(pid: i32) -> (r: Result<RegSnapshot, i32>) {
    match ptrace::getregs(Pid::from_raw(pid)) {
        Ok(regs) => Ok(
            RegSnapshot {
                syscall_number: regs.orig_rax,
                syscall_ret: regs.rax,
                arg0: regs.rdi,
                ip: regs.rip,
            },
        ),
        Err(e) => Err(e as i32),
    }
}

/// Relies on nix::sys::ptrace::getregs and nix::sys::ptrace::setregs:
/// rewrites the stopped target's instruction pointer and leaves every
/// other register as it was.
#[verifier::external_body]
fn set_ip_raw(pid: i32, ip: u64) -> (r: Result<(), i32>) {
    let pid = Pid::from_raw(pid);
    match ptrace::getregs(pid) {
        Ok(mut regs) => {
            regs.rip = ip;
            ptrace::setregs(pid, regs).map_err(|e| e as i32)
        },
        Err(e) => Err(e as i32),
    }
}

/// The exclusive trace relationship with one target process: its id, the
/// tracer's view of its life-cycle state, and the model of the words of
/// target memory whose current value the tracer knows.
pub struct ProcessHandle {
    pid: i32,
    state: TraceState,
    mem: Ghost<Map<u64, u64>>,
    log: Ghost<Seq<TraceAction>>,
}

impl ProcessHandle {
    /// The id of the traced process.
    pub closed spec fn pid_spec(&self) -> i32 {
        self.pid
    }

    /// The tracer's view of the target's life-cycle state.
    pub closed spec fn state_spec(&self) -> TraceState {
        self.state
    }

    /// The words of target memory whose current value the tracer knows.
    pub closed spec fn mem_spec(&self) -> Map<u64, u64> {
        self.mem@
    }

    /// The actions performed on the target so far, oldest first.
    pub closed spec fn log_spec(&self) -> Seq<TraceAction> {
        self.log@
    }

    /// The id of the traced process.
    pub fn pid(&self) -> (r: i32)
        ensures
            r == self.pid_spec(),
    {
        self.pid
    }

    /// The tracer's view of the target's life-cycle state.
    pub fn state(&self) -> (r: TraceState)
        ensures
            r == self.state_spec(),
    {
        self.state
    }

    /// Acquires non-stopping trace control over an existing process,
    /// issues an explicit interrupt, and waits for the first stop.
    /// Fails, creating nothing, if the process does not exist, the
    /// caller may not trace it, or it is already traced.
    pub fn attach(pid: i32) -> (r: Result<ProcessHandle, AttachError>)
        ensures
            match r {
                Ok(h) => {
                    &&& h.pid_spec() == pid
                    &&& !(h.state_spec() is Running)
                    &&& !(h.state_spec() is Gone)
                    &&& h.mem_spec() == Map::<u64, u64>::empty()
                    &&& h.log_spec() == Seq::<TraceAction>::empty()
                },
                Err(_) => true,
            },
    {
        match seize_raw(pid) {
            Ok(()) => {},
            Err(e) => {
                return Err(e);
            },
        }
        match interrupt_raw(pid) {
            Ok(()) => {},
            Err(e) => {
                return Err(AttachError::Other(e));
            },
        }
        match wait_raw(pid) {
            Ok(WaitOutcome::Stopped(sig)) => Ok(
                ProcessHandle {
                    pid,
                    state: TraceState::Stopped(sig),
                    mem: Ghost(Map::empty()),
                    log: Ghost(Seq::empty()),
                },
            ),
            Ok(WaitOutcome::TraceEvent(_)) => Ok(
                ProcessHandle {
                    pid,
                    state: TraceState::Stopped(TRAP_SIGNAL),
                    mem: Ghost(Map::empty()),
                    log: Ghost(Seq::empty()),
                },
            ),
            Ok(WaitOutcome::SyscallStop) => Ok(
                ProcessHandle {
                    pid,
                    state: TraceState::SyscallStop,
                    mem: Ghost(Map::empty()),
                    log: Ghost(Seq::empty()),
                },
            ),
            Ok(WaitOutcome::Exited(_)) => Err(AttachError::NoSuchProcess),
            Ok(WaitOutcome::Signaled(_)) => Err(AttachError::NoSuchProcess),
            Ok(_) => Err(AttachError::Other(0)),
            Err(e) => Err(AttachError::Other(e)),
        }
    }

    /// Relies on nix::sys::ptrace::read (PTRACE_PEEKDATA): transfers the
    /// 8-byte word at `addr` out of the stopped target. The kernel reads
    /// the target's real memory, so a word the model tracks is read back
    /// unchanged, and the word read becomes tracked.
    #[verifier::external_body]
    pub fn read_word(&mut self, addr: u64) -> (r: Result<u64, MemoryAccessError>)
        ensures
            final(self).pid_spec() == old(self).pid_spec(),
            final(self).state_spec() == old(self).state_spec(),
            final(self).log_spec() == old(self).log_spec(),
            match r {
                Ok(w) => {
                    &&& (old(self).mem_spec().contains_key(addr) ==> w == old(
                        self,
                    ).mem_spec()[addr])
                    &&& final(self).mem_spec() == old(self).mem_spec().insert(addr, w)
                },
                Err(_) => final(self).mem_spec() == old(self).mem_spec(),
            },
    {
        match ptrace::read(Pid::from_raw(self.pid), addr as usize as ptrace::AddressType) {
            Ok(w) => Ok(w as u64),
            Err(e) => Err(MemoryAccessError::Refused(e as i32)),
        }
    }

    /// Relies on nix::sys::ptrace::write (PTRACE_POKEDATA): transfers
    /// the 8-byte word `w` into the stopped target at `addr`. On success
    /// the model knows the word at `addr` and forgets any tracked word
    /// that shares a byte with it; on failure nothing was written.
    #[verifier::external_body]
    pub fn write_word(&mut self, addr: u64, w: u64) -> (r: Result<(), MemoryAccessError>)
        ensures
            final(self).pid_spec() == old(self).pid_spec(),
            final(self).state_spec() == old(self).state_spec(),
            match r {
                Ok(_) => {
                    &&& final(self).mem_spec() == poke_model(old(self).mem_spec(), addr, w)
                    &&& final(self).log_spec() == old(self).log_spec().push(
                        TraceAction::WroteWord(addr, w),
                    )
                },
                Err(_) => {
                    &&& final(self).mem_spec() == old(self).mem_spec()
                    &&& final(self).log_spec() == old(self).log_spec()
                },
            },
    {
        match ptrace::write(Pid::from_raw(self.pid), addr as usize as ptrace::AddressType, w as i64)
        {
            Ok(()) => Ok(()),
            Err(e) => Err(MemoryAccessError::Refused(e as i32)),
        }
    }

    /// Lets the stopped target run until its next stop. The model of
    /// target memory is dropped: the target runs arbitrary code while
    /// the tracer is not looking.
    pub fn resume(&mut self) -> (r: Result<(), i32>)
        ensures
            final(self).pid_spec() == old(self).pid_spec(),
            match r {
                Ok(_) => {
                    &&& final(self).state_spec() is Running
                    &&& final(self).mem_spec() == Map::<u64, u64>::empty()
                    &&& final(self).log_spec() == old(self).log_spec().push(
                        TraceAction::Resumed,
                    )
                },
                Err(_) => *final(self) == *old(self),
            },
    {
        match cont_raw(self.pid) {
            Ok(()) => {
                self.state = TraceState::Running;
                proof {
                    self.mem@ = Map::empty();
                    self.log@ = self.log@.push(TraceAction::Resumed);
                }
                Ok(())
            },
            Err(e) => Err(e),
        }
    }

    /// Lets the stopped target execute exactly one instruction; the stop
    /// after it must still be waited for. Drops the memory model.
    pub fn singlestep(&mut self) -> (r: Result<(), i32>)
        ensures
            final(self).pid_spec() == old(self).pid_spec(),
            match r {
                Ok(_) => {
                    &&& final(self).state_spec() is Running
                    &&& final(self).mem_spec() == Map::<u64, u64>::empty()
                    &&& final(self).log_spec() == old(self).log_spec().push(
                        TraceAction::SteppedOnce,
                    )
                },
                Err(_) => *final(self) == *old(self),
            },
    {
        match step_raw(self.pid) {
            Ok(()) => {
                self.state = TraceState::Running;
                proof {
                    self.mem@ = Map::empty();
                    self.log@ = self.log@.push(TraceAction::SteppedOnce);
                }
                Ok(())
            },
            Err(e) => Err(e),
        }
    }

    /// Lets the stopped target run to its next syscall boundary; the
    /// stop there must still be waited for. Drops the memory model.
    pub fn step_to_syscall(&mut self) -> (r: Result<(), i32>)
        ensures
            final(self).pid_spec() == old(self).pid_spec(),
            match r {
                Ok(_) => {
                    &&& final(self).state_spec() is Running
                    &&& final(self).mem_spec() == Map::<u64, u64>::empty()
                    &&& final(self).log_spec() == old(self).log_spec().push(
                        TraceAction::ResumedToSyscall,
                    )
                },
                Err(_) => *final(self) == *old(self),
            },
    {
        match syscall_raw(self.pid) {
            Ok(()) => {
                self.state = TraceState::Running;
                proof {
                    self.mem@ = Map::empty();
                    self.log@ = self.log@.push(TraceAction::ResumedToSyscall);
                }
                Ok(())
            },
            Err(e) => Err(e),
        }
    }

    /// Blocks until the target's state changes and records the change.
    pub fn wait(&mut self) -> (r: Result<WaitOutcome, i32>)
        ensures
            final(self).pid_spec() == old(self).pid_spec(),
            final(self).mem_spec() == old(self).mem_spec(),
            final(self).log_spec() == old(self).log_spec(),
            match r {
                Ok(o) => final(self).state_spec() == spec_state_after(old(self).state_spec(), o),
                Err(_) => *final(self) == *old(self),
            },
    {
        match wait_raw(self.pid) {
            Ok(o) => {
                self.state = match o {
                    WaitOutcome::Exited(_) => TraceState::Gone,
                    WaitOutcome::Signaled(_) => TraceState::Gone,
                    WaitOutcome::Stopped(sig) => TraceState::Stopped(sig),
                    WaitOutcome::TraceEvent(_) => TraceState::Stopped(TRAP_SIGNAL),
                    WaitOutcome::SyscallStop => TraceState::SyscallStop,
                    WaitOutcome::Continued => self.state,
                    WaitOutcome::StillAlive => self.state,
                };
                Ok(o)
            },
            Err(e) => Err(e),
        }
    }

    /// Reads the registers the core needs out of the stopped target.
    pub fn registers(&self) -> (r: Result<RegSnapshot, i32>) {
        getregs_raw(self.pid)
    }

    /// Rewinds or redirects the stopped target's instruction pointer;
    /// memory and every other register keep their values.
    pub fn set_instruction_pointer(&mut self, ip: u64) -> (r: Result<(), i32>)
        ensures
            final(self).pid_spec() == old(self).pid_spec(),
            final(self).state_spec() == old(self).state_spec(),
            final(self).mem_spec() == old(self).mem_spec(),
            match r {
                Ok(_) => final(self).log_spec() == old(self).log_spec().push(
                    TraceAction::SetInstructionPointer(ip),
                ),
                Err(_) => *final(self) == *old(self),
            },
    {
        match set_ip_raw(self.pid, ip) {
            Ok(()) => {
                proof {
                    self.log@ = self.log@.push(TraceAction::SetInstructionPointer(ip));
                }
                Ok(())
            },
            Err(e) => Err(e),
        }
    }
}

} // verus!
