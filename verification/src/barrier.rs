//! Syscall synchronizer: advances the target to successive syscall
//! entries until it observes the creation of an anonymous memory region
//! carrying an expected name. JIT runtimes create such a region right
//! after writing their symbol map and before running generated code, so
//! seeing it is the barrier after which JIT addresses are valid to
//! resolve and patch.
use vstd::prelude::*;

use crate::errors::BarrierError;
use crate::errors::MemoryAccessError;
use crate::tracer::ProcessHandle;
use crate::tracer::TraceState;
use crate::tracer::WaitOutcome;
use crate::words::nul_terminated_prefix_matches;
use crate::words::push_le_bytes;
use crate::words::spec_le_bytes;
use crate::words::spec_words_covering;
use crate::words::words_covering;

verus! {

/// Syscall number of the anonymous-memory-file call on this
/// architecture, the call a JIT runtime makes to create its named
/// memory region.
pub const MEMFD_CREATE_SYSCALL: u64 = 319;

/// Value of the syscall-return register at a syscall-entry stop: the
/// kernel parks its not-yet-decided error code there, which tells an
/// entry stop apart from an exit stop.
pub const SYSCALL_ENTRY_SENTINEL: u64 = 0xFFFF_FFFF_FFFF_FFDA;

/// The region name a wasm JIT runtime gives the memory image whose
/// creation marks that code generation has reached the milestone.
pub fn wasm_memory_image_ident() -> (r: &'static str)
    ensures
        r@ == "wasm-memory-image"@,
{
    "wasm-memory-image"
}

/// Reads the candidate name living at `ptr` in the target: exactly one
/// whole-word read per word covering `limit + 1` bytes, the words'
/// bytes concatenated least-significant first. Every word read becomes
/// tracked at its address.
fn read_name_bytes(h: &mut ProcessHandle, ptr: u64, limit: u64) -> (r: Result<
    Vec<u8>,
    MemoryAccessError,
>)
    requires
        limit < 0x1000,
    ensures
        final(h).pid_spec() == old(h).pid_spec(),
        final(h).state_spec() == old(h).state_spec(),
        match r {
            Ok(buf) => {
                &&& buf@.len() == 8 * spec_words_covering((limit + 1) as u64)
                &&& forall|i: int|
                    0 <= i < spec_words_covering((limit + 1) as u64)
                        ==> #[trigger] final(h).mem_spec().contains_key((ptr + 8 * i) as u64)
                &&& forall|i: int|
                    0 <= i < spec_words_covering((limit + 1) as u64) ==> #[trigger] buf@.subrange(
                        8 * i,
                        8 * i + 8,
                    ) == spec_le_bytes(final(h).mem_spec()[(ptr + 8 * i) as u64])
            },
            Err(_) => true,
        },
{
    let nwords = words_covering(limit + 1);
    let mut buf: Vec<u8> = Vec::new();
    let mut i: u64 = 0;
    while i < nwords
        invariant
            nwords as int == spec_words_covering((limit + 1) as u64),
            nwords <= 0x1000,
            i <= nwords,
            buf@.len() == 8 * i,
            h.pid_spec() == old(h).pid_spec(),
            h.state_spec() == old(h).state_spec(),
            i > 0 ==> ptr + 8 * (i as int - 1) <= 0xFFFF_FFFF_FFFF_FFFF,
            forall|j: int|
                0 <= j < i ==> #[trigger] h.mem_spec().contains_key((ptr + 8 * j) as u64),
            forall|j: int|
                0 <= j < i ==> #[trigger] buf@.subrange(8 * j, 8 * j + 8) == spec_le_bytes(
                    h.mem_spec()[(ptr + 8 * j) as u64],
                ),
        decreases nwords - i,
    {
        let addr = match ptr.checked_add(8 * i) {
            Some(a) => a,
            None => {
                return Err(MemoryAccessError::BeyondAddressSpace);
            },
        };
        let w = match h.read_word(addr) {
            Ok(w) => w,
            Err(e) => {
                return Err(e);
            },
        };
        let ghost old_buf = buf@;
        push_le_bytes(&mut buf, w);
        proof {
            assert(addr as int == ptr + 8 * (i as int));
            assert forall|j: int| 0 <= j < i + 1 implies #[trigger] h.mem_spec().contains_key(
                (ptr + 8 * j) as u64,
            ) by {
                assert(0 <= ptr + 8 * j <= 0xFFFF_FFFF_FFFF_FFFF);
                if j == i {
                    assert((ptr + 8 * j) as u64 == addr);
                }
            }
            assert forall|j: int| 0 <= j < i + 1 implies #[trigger] buf@.subrange(
                8 * j,
                8 * j + 8,
            ) == spec_le_bytes(h.mem_spec()[(ptr + 8 * j) as u64]) by {
                assert(0 <= ptr + 8 * j <= 0xFFFF_FFFF_FFFF_FFFF);
                if j < i {
                    assert(buf@.subrange(8 * j, 8 * j + 8) =~= old_buf.subrange(8 * j, 8 * j + 8));
                    assert((ptr + 8 * j) as u64 != addr);
                } else {
                    assert(buf@.subrange(8 * j, 8 * j + 8) =~= spec_le_bytes(w));
                    assert((ptr + 8 * j) as u64 == addr);
                }
            }
        }
        i = i + 1;
    }
    Ok(buf)
}

/// Repeatedly resumes the target to its next syscall boundary and, at
/// each syscall entry, checks for the memory-creation call whose name
/// argument equals `marker`. Returns once the barrier is seen, with the
/// target stopped at that syscall entry. Examines at most `max_stops`
/// stops, so a barrier that never comes surfaces as an exhausted budget
/// instead of blocking forever.
pub fn wait_for_memory_ready(h: &mut ProcessHandle, marker: &[u8], max_stops: u64) -> (r: Result<
    (),
    BarrierError,
>)
    requires
        marker@.len() < 0x1000,
    ensures
        final(h).pid_spec() == old(h).pid_spec(),
        r is Ok ==> final(h).state_spec() == TraceState::SyscallStop,
        max_stops == 0 ==> r == Err::<(), BarrierError>(BarrierError::BudgetExhausted),
{
    let mut budget = max_stops;
    loop
        invariant
            h.pid_spec() == old(h).pid_spec(),
            marker@.len() < 0x1000,
            budget <= max_stops,
        decreases budget,
    {
        if budget == 0 {
            return Err(BarrierError::BudgetExhausted);
        }
        budget = budget - 1;
        match h.step_to_syscall() {
            Ok(()) => {},
            Err(e) => {
                return Err(BarrierError::Tracer(e));
            },
        }
        let o = match h.wait() {
            Ok(o) => o,
            Err(e) => {
                return Err(BarrierError::Tracer(e));
            },
        };
        match o {
            WaitOutcome::SyscallStop => {
                let regs = match h.registers() {
                    Ok(regs) => regs,
                    Err(e) => {
                        return Err(BarrierError::Tracer(e));
                    },
                };
                if regs.syscall_ret == SYSCALL_ENTRY_SENTINEL && regs.syscall_number
                    == MEMFD_CREATE_SYSCALL {
                    match read_name_bytes(h, regs.arg0, marker.len() as u64) {
                        Ok(name) => {
                            if nul_terminated_prefix_matches(name.as_slice(), marker) {
                                return Ok(());
                            }
                        },
                        Err(MemoryAccessError::Refused(e)) => {
                            return Err(BarrierError::Tracer(e));
                        },
                        // A name pointer that close to the end of the
                        // address space cannot hold the marker: keep
                        // looking for the real region.
                        Err(MemoryAccessError::BeyondAddressSpace) => {},
                    }
                }
            },
            WaitOutcome::Exited(_) => {
                return Err(BarrierError::TargetGone);
            },
            WaitOutcome::Signaled(_) => {
                return Err(BarrierError::TargetGone);
            },
            _ => {},
        }
    }
}

} // verus!
