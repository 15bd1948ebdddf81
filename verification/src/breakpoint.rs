//! Breakpoint manager: installs, detects, and removes ephemeral software
//! breakpoints at absolute addresses in live target code, preserving every
//! byte not meant to change.
//!
//! Inserting reads the full 8-byte word at the address, replaces only its
//! least-significant byte with the trap opcode, writes the word back, and
//! records the pristine word. A trap stop reports an instruction pointer
//! one byte past the trap; the manager subtracts one to recover the
//! faulting address. Restoring writes the pristine word back, rewinds the
//! instruction pointer, and single-steps once so the original instruction
//! executes undisturbed.
use vstd::prelude::*;

use crate::errors::BreakpointError;
use crate::tracer::poke_model;
use crate::tracer::ProcessHandle;
use crate::tracer::TraceAction;
use crate::tracer::TraceState;
use crate::tracer::WaitOutcome;
use crate::tracer::TRAP_SIGNAL;

verus! {

/// The one-byte opcode that deterministically raises a catchable trap.
pub const TRAP_OPCODE: u8 = 0xCC;

/// The word at a breakpoint address once the trap byte is patched in:
/// the low byte becomes the trap opcode, the upper seven bytes are kept.
pub open spec fn spec_patched(w: u64) -> u64 {
    (w & 0xFFFF_FFFF_FFFF_FF00) | (TRAP_OPCODE as u64)
}

/// Patching puts the trap opcode in the low byte and leaves the upper
/// seven bytes of the original word untouched.
pub proof fn lemma_patched_word(w: u64)
    ensures
        spec_patched(w) & 0xFF == TRAP_OPCODE as u64,
        spec_patched(w) >> 8 == w >> 8,
{
    assert(((w & 0xFFFF_FFFF_FFFF_FF00) | 0xCC) & 0xFF == 0xCC) by (bit_vector);
    assert(((w & 0xFFFF_FFFF_FFFF_FF00) | 0xCC) >> 8 == w >> 8) by (bit_vector);
}

/// The patched word, as written into the target.
pub fn patched_word(w: u64) -> (r: u64)
    ensures
        r == spec_patched(w),
{
    (w & 0xFFFF_FFFF_FFFF_FF00) | (TRAP_OPCODE as u64)
}

/// One ephemeral software breakpoint: its address, the pristine 8-byte
/// word read before patching, and whether the trap byte is in place.
#[derive(Clone, Copy, Debug, PartialEq, Eq, Structural)]
pub struct Breakpoint {
    /// Absolute address of the patched byte in the target.
    pub addr: u64,
    /// The untouched word that was at `addr` before patching.
    pub original_word: u64,
    /// Whether the trap byte is currently in place.
    pub armed: bool,
}

/// Whether some record in `s` sits at `addr`.
pub open spec fn spec_has_record(s: Seq<Breakpoint>, addr: u64) -> bool {
    exists|i: int| 0 <= i < s.len() && s[i].addr == addr
}

/// Well-formed records: distinct addresses, every record armed.
pub open spec fn spec_wf_records(s: Seq<Breakpoint>) -> bool {
    &&& forall|i: int, j: int| 0 <= i < j < s.len() ==> s[i].addr != s[j].addr
    &&& forall|i: int| 0 <= i < s.len() ==> s[i].armed
}

/// The actions that restoring a breakpoint must perform, in order: the
/// pristine word written back over the trap, the instruction pointer
/// rewound to the breakpoint address, and exactly one single step, so
/// the original instruction executes undisturbed.
pub open spec fn spec_restore_actions(bp: Breakpoint) -> Seq<TraceAction> {
    seq![
        TraceAction::WroteWord(bp.addr, bp.original_word),
        TraceAction::SetInstructionPointer(bp.addr),
        TraceAction::SteppedOnce,
    ]
}

/// The breakpoint records of one trace session.
#[derive(Debug)]
pub struct BreakpointManager {
    records: Vec<Breakpoint>,
}

impl BreakpointManager {
    /// The current records, in insertion order.
    pub closed spec fn records_seq(&self) -> Seq<Breakpoint> {
        self.records@
    }

    /// Addresses are distinct and every record is armed.
    pub open spec fn wf(&self) -> bool {
        spec_wf_records(self.records_seq())
    }

    /// A manager with no breakpoints.
    pub fn new() -> (r: BreakpointManager)
        ensures
            r.wf(),
            r.records_seq() == Seq::<Breakpoint>::empty(),
    {
        BreakpointManager { records: Vec::new() }
    }

    /// Number of armed breakpoints.
    pub fn len(&self) -> (r: usize)
        ensures
            r == self.records_seq().len(),
    {
        self.records.len()
    }

    /// Index of the record at `addr`, if one exists.
    fn find(&self, addr: u64) -> (r: Option<usize>)
        ensures
            match r {
                Some(i) => i < self.records_seq().len() && self.records_seq()[i as int].addr
                    == addr,
                None => !spec_has_record(self.records_seq(), addr),
            },
    {
        let n = self.records.len();
        let mut i: usize = 0;
        loop
            invariant
                i <= n,
                n == self.records@.len(),
                forall|j: int| 0 <= j < i ==> self.records@[j].addr != addr,
            decreases n - i,
        {
            if i == n {
                return None;
            }
            if self.records[i].addr == addr {
                return Some(i);
            }
            i = i + 1;
        }
    }

    /// Whether a breakpoint is recorded at `addr`.
    pub fn contains(&self, addr: u64) -> (r: bool)
        ensures
            r == spec_has_record(self.records_seq(), addr),
    {
        match self.find(addr) {
            Some(_) => true,
            None => false,
        }
    }

    /// Whether this exact record is current.
    pub fn is_recorded(&self, bp: &Breakpoint) -> (r: bool)
        ensures
            r == exists|i: int|
                0 <= i < self.records_seq().len() && self.records_seq()[i] == *bp,
    {
        let n = self.records.len();
        let mut i: usize = 0;
        loop
            invariant
                i <= n,
                n == self.records@.len(),
                forall|j: int| 0 <= j < i ==> self.records@[j] != *bp,
            decreases n - i,
        {
            if i == n {
                return false;
            }
            if self.records[i] == *bp {
                proof {
                    assert(self.records_seq()[i as int] == *bp);
                }
                return true;
            }
            i = i + 1;
        }
    }

    /// Installs a breakpoint at `addr`: reads the word there, writes it
    /// back with the trap byte patched in, and records the pristine
    /// word. Refused if a breakpoint is already recorded at `addr`.
    pub fn insert(&mut self, h: &mut ProcessHandle, addr: u64) -> (r: Result<
        Breakpoint,
        BreakpointError,
    >)
        requires
            old(self).wf(),
        ensures
            final(self).wf(),
            final(h).pid_spec() == old(h).pid_spec(),
            final(h).state_spec() == old(h).state_spec(),
            spec_has_record(old(self).records_seq(), addr) <==> r == Err::<
                Breakpoint,
                BreakpointError,
            >(BreakpointError::AlreadyArmed),
            match r {
                Ok(bp) => {
                    &&& bp.addr == addr
                    &&& bp.armed
                    &&& (old(h).mem_spec().contains_key(addr) ==> bp.original_word == old(
                        h,
                    ).mem_spec()[addr])
                    &&& final(h).mem_spec() == poke_model(
                        old(h).mem_spec().insert(addr, bp.original_word),
                        addr,
                        spec_patched(bp.original_word),
                    )
                    &&& final(h).mem_spec().contains_key(addr)
                    &&& final(h).mem_spec()[addr] == spec_patched(bp.original_word)
                    &&& final(h).log_spec() == old(h).log_spec().push(
                        TraceAction::WroteWord(addr, spec_patched(bp.original_word)),
                    )
                    &&& final(self).records_seq() == old(self).records_seq().push(bp)
                },
                Err(_) => final(self).records_seq() == old(self).records_seq(),
            },
    {
        if self.contains(addr) {
            return Err(BreakpointError::AlreadyArmed);
        }
        let w = match h.read_word(addr) {
            Ok(w) => w,
            Err(e) => {
                return Err(BreakpointError::Memory(e));
            },
        };
        let patched = patched_word(w);
        match h.write_word(addr, patched) {
            Ok(()) => {},
            Err(e) => {
                return Err(BreakpointError::Memory(e));
            },
        }
        let bp = Breakpoint { addr, original_word: w, armed: true };
        self.records.push(bp);
        proof {
            assert(self.records@.drop_last() =~= old(self).records@);
        }
        Ok(bp)
    }

    /// Resumes the target and blocks until its next stop. A stop on the
    /// trap signal reports an instruction pointer one byte past the
    /// trap; subtracting one recovers the faulting address, which is
    /// matched against the records. Whatever the target executed first,
    /// a reported hit is one of the armed records; a trap at an address
    /// with no record surfaces the unknown-trap error.
    pub fn wait_for_hit(&self, h: &mut ProcessHandle) -> (r: Result<Breakpoint, BreakpointError>)
        requires
            self.wf(),
        ensures
            final(h).pid_spec() == old(h).pid_spec(),
            match r {
                Ok(bp) => {
                    &&& exists|i: int|
                        0 <= i < self.records_seq().len() && self.records_seq()[i] == bp
                    &&& bp.armed
                    &&& final(h).state_spec() == TraceState::Stopped(TRAP_SIGNAL)
                },
                Err(BreakpointError::UnknownTrap(a)) => !spec_has_record(self.records_seq(), a),
                Err(_) => true,
            },
    {
        match h.resume() {
            Ok(()) => {},
            Err(e) => {
                return Err(BreakpointError::Tracer(e));
            },
        }
        let o = match h.wait() {
            Ok(o) => o,
            Err(e) => {
                return Err(BreakpointError::Tracer(e));
            },
        };
        match o {
            WaitOutcome::Stopped(sig) => {
                if sig != TRAP_SIGNAL {
                    return Err(BreakpointError::UnexpectedStop(sig));
                }
                let regs = match h.registers() {
                    Ok(regs) => regs,
                    Err(e) => {
                        return Err(BreakpointError::Tracer(e));
                    },
                };
                if regs.ip == 0 {
                    return Err(BreakpointError::UnexpectedStop(sig));
                }
                let fault = regs.ip - 1;
                match self.find(fault) {
                    Some(i) => Ok(self.records[i]),
                    None => Err(BreakpointError::UnknownTrap(fault)),
                }
            },
            WaitOutcome::Exited(_) => Err(BreakpointError::TargetGone),
            WaitOutcome::Signaled(_) => Err(BreakpointError::TargetGone),
            _ => Err(BreakpointError::UnexpectedStop(0)),
        }
    }

    /// Writes the saved original word back over the trap, rewinds the
    /// instruction pointer to the breakpoint address, and single-steps
    /// exactly once so the original instruction executes undisturbed.
    /// With `persistent` the trap is then patched in again and the
    /// record kept; otherwise the record is discarded. The action log
    /// pins the protocol: on success the tracer really performed the
    /// restore write, the rewind and the one step, in that order, so a
    /// record is never dropped without its pristine word written back;
    /// `lemma_insert_restore_round_trip` gives the byte-for-byte round
    /// trip of the words so written.
    pub fn restore_and_step(
        &mut self,
        h: &mut ProcessHandle,
        bp: Breakpoint,
        persistent: bool,
    ) -> (r: Result<(), BreakpointError>)
        requires
            old(self).wf(),
            exists|i: int|
                0 <= i < old(self).records_seq().len() && old(self).records_seq()[i] == bp,
        ensures
            final(self).wf(),
            final(h).pid_spec() == old(h).pid_spec(),
            match r {
                Ok(()) => {
                    &&& (persistent ==> {
                        &&& final(self).records_seq() == old(self).records_seq()
                        &&& final(h).mem_spec().contains_key(bp.addr)
                        &&& final(h).mem_spec()[bp.addr] == spec_patched(bp.original_word)
                        &&& final(h).log_spec() == old(h).log_spec() + spec_restore_actions(bp)
                            .push(
                            TraceAction::WroteWord(bp.addr, spec_patched(bp.original_word)),
                        )
                    })
                    &&& (!persistent ==> {
                        &&& (forall|a: u64|
                            spec_has_record(final(self).records_seq(), a) <==> (spec_has_record(
                                old(self).records_seq(),
                                a,
                            ) && a != bp.addr))
                        &&& final(h).log_spec() == old(h).log_spec() + spec_restore_actions(bp)
                    })
                },
                Err(BreakpointError::Memory(_)) => *final(self) == *old(self),
                Err(_) => true,
            },
    {
        match h.write_word(bp.addr, bp.original_word) {
            Ok(()) => {},
            Err(e) => {
                return Err(BreakpointError::Memory(e));
            },
        }
        match h.set_instruction_pointer(bp.addr) {
            Ok(()) => {},
            Err(e) => {
                return Err(BreakpointError::Tracer(e));
            },
        }
        match h.singlestep() {
            Ok(()) => {},
            Err(e) => {
                return Err(BreakpointError::Tracer(e));
            },
        }
        let o = match h.wait() {
            Ok(o) => o,
            Err(e) => {
                return Err(BreakpointError::Tracer(e));
            },
        };
        match o {
            WaitOutcome::Exited(_) => {
                return Err(BreakpointError::TargetGone);
            },
            WaitOutcome::Signaled(_) => {
                return Err(BreakpointError::TargetGone);
            },
            _ => {},
        }
        if persistent {
            let patched = patched_word(bp.original_word);
            match h.write_word(bp.addr, patched) {
                Ok(()) => {
                    proof {
                        assert(h.log_spec() =~= old(h).log_spec() + spec_restore_actions(bp).push(
                            TraceAction::WroteWord(bp.addr, spec_patched(bp.original_word)),
                        ));
                    }
                    Ok(())
                },
                Err(e) => Err(BreakpointError::Memory(e)),
            }
        } else {
            self.discard_record(bp.addr);
            proof {
                assert(h.log_spec() =~= old(h).log_spec() + spec_restore_actions(bp));
            }
            Ok(())
        }
    }

    /// Unconditionally writes the saved original word back and discards
    /// the record; safe even if the breakpoint never triggered.
    pub fn remove(&mut self, h: &mut ProcessHandle, bp: Breakpoint) -> (r: Result<
        (),
        BreakpointError,
    >)
        requires
            old(self).wf(),
        ensures
            final(self).wf(),
            final(h).pid_spec() == old(h).pid_spec(),
            final(h).state_spec() == old(h).state_spec(),
            match r {
                Ok(()) => {
                    &&& final(h).mem_spec() == poke_model(
                        old(h).mem_spec(),
                        bp.addr,
                        bp.original_word,
                    )
                    &&& final(h).mem_spec().contains_key(bp.addr)
                    &&& final(h).mem_spec()[bp.addr] == bp.original_word
                    &&& final(h).log_spec() == old(h).log_spec().push(
                        TraceAction::WroteWord(bp.addr, bp.original_word),
                    )
                    &&& (forall|a: u64|
                        spec_has_record(final(self).records_seq(), a) <==> (spec_has_record(
                            old(self).records_seq(),
                            a,
                        ) && a != bp.addr))
                },
                Err(_) => *final(self) == *old(self) && final(h).mem_spec() == old(h).mem_spec(),
            },
    {
        match h.write_word(bp.addr, bp.original_word) {
            Ok(()) => {},
            Err(e) => {
                return Err(BreakpointError::Memory(e));
            },
        }
        self.discard_record(bp.addr);
        Ok(())
    }

    /// Drops the record at `addr`, if one exists.
    fn discard_record(&mut self, addr: u64)
        requires
            old(self).wf(),
        ensures
            final(self).wf(),
            forall|a: u64|
                spec_has_record(final(self).records_seq(), a) <==> (spec_has_record(
                    old(self).records_seq(),
                    a,
                ) && a != addr),
    {
        match self.find(addr) {
            None => {
                proof {
                    assert forall|a: u64|
                        spec_has_record(self.records_seq(), a) <==> (spec_has_record(
                            old(self).records_seq(),
                            a,
                        ) && a != addr) by {
                        if spec_has_record(old(self).records_seq(), a) && a == addr {
                            assert(false);
                        }
                    }
                }
            },
            Some(i) => {
                self.records.remove(i);
                proof {
                    let oldr = old(self).records@;
                    let newr = self.records@;
                    assert forall|a: u64|
                        spec_has_record(newr, a) implies (spec_has_record(oldr, a) && a != addr) by {
                        let j = choose|j: int| 0 <= j < newr.len() && newr[j].addr == a;
                        if j < i {
                            assert(oldr[j].addr == a);
                        } else {
                            assert(oldr[j + 1].addr == a);
                        }
                    }
                    assert forall|a: u64|
                        (spec_has_record(oldr, a) && a != addr) implies spec_has_record(newr, a) by {
                        let j = choose|j: int| 0 <= j < oldr.len() && oldr[j].addr == a;
                        if j < i {
                            assert(newr[j].addr == a);
                        } else {
                            assert(j != i);
                            assert(newr[j - 1].addr == a);
                        }
                    }
                }
            },
        }
    }
}

/// With every armed breakpoint sitting at one address, a reported hit
/// names exactly that address, however many other instructions the
/// target executed first.
pub proof fn lemma_hit_reports_armed_address(s: Seq<Breakpoint>, bp: Breakpoint, addr: u64)
    requires
        forall|i: int| 0 <= i < s.len() ==> s[i].addr == addr,
        exists|i: int| 0 <= i < s.len() && s[i] == bp,
    ensures
        bp.addr == addr,
{
    let i = choose|i: int| 0 <= i < s.len() && s[i] == bp;
    assert(s[i].addr == addr);
}

/// Inserting a breakpoint and then restoring its original word
/// round-trips: the tracked word at the address is the pristine word
/// again, byte for byte, and no other tracked word moved.
pub proof fn lemma_insert_restore_round_trip(m: Map<u64, u64>, addr: u64, w: u64)
    ensures
        ({
            let after_insert = poke_model(m.insert(addr, w), addr, spec_patched(w));
            let after_restore = poke_model(after_insert, addr, w);
            &&& after_insert.contains_key(addr)
            &&& after_insert[addr] == spec_patched(w)
            &&& after_restore.contains_key(addr)
            &&& after_restore[addr] == w
            &&& forall|b: u64|
                after_restore.contains_key(b) && b != addr ==> m.contains_key(b)
                    && after_restore[b] == m[b]
        }),
{
}

} // verus!
