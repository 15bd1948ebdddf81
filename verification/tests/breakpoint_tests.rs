use jit_tracer::patched_word;
use jit_tracer::BreakpointManager;

#[test]
fn patching_sets_only_the_low_byte_to_the_trap_opcode() {
    let patched = patched_word(0x1122334455667788);
    assert_eq!(patched, 0x11223344556677CC);
    assert_eq!(patched & 0xFF, 0xCC);
    assert_eq!(patched >> 8, 0x1122334455667788u64 >> 8);
}

#[test]
fn patching_a_zero_word_leaves_only_the_trap_opcode() {
    assert_eq!(patched_word(0), 0xCC);
}

#[test]
fn patching_keeps_the_upper_seven_bytes_byte_for_byte() {
    let original = 0xDEADBEEF00C3AA55u64;
    let patched = patched_word(original);
    for byte in 1..8u32 {
        assert_eq!((patched >> (8 * byte)) & 0xFF, (original >> (8 * byte)) & 0xFF);
    }
}

#[test]
fn a_fresh_manager_records_nothing() {
    let mgr = BreakpointManager::new();
    assert_eq!(mgr.len(), 0);
    assert!(!mgr.contains(0x1000));
}
