use jit_tracer::next_wrapping;
use jit_tracer::prev_wrapping;
use jit_tracer::AttachError;
use jit_tracer::Command;
use jit_tracer::Mode;
use jit_tracer::ProcessHandle;

#[test]
fn attaching_to_a_nonexistent_process_fails() {
    // Far beyond any real process id the kernel hands out.
    let r = ProcessHandle::attach(0x7FFF_FFF0);
    assert!(matches!(r, Err(AttachError::NoSuchProcess)));
}

#[test]
fn command_titles_are_fixed() {
    assert_eq!(Command::StartProcess.title(), "Start process");
    assert_eq!(Command::ParsePerfMap.title(), "Parse perfmap output");
}

#[test]
fn modes_compare_by_variant() {
    assert_eq!(Mode::Normal, Mode::Normal);
    assert_ne!(Mode::Normal, Mode::StartProcessPopup);
}

#[test]
fn list_selection_wraps_both_ways() {
    assert_eq!(next_wrapping(0, 3), 1);
    assert_eq!(next_wrapping(1, 3), 2);
    assert_eq!(next_wrapping(2, 3), 0);
    assert_eq!(prev_wrapping(0, 3), 2);
    assert_eq!(prev_wrapping(1, 3), 0);
    assert_eq!(prev_wrapping(2, 3), 1);
    assert_eq!(next_wrapping(0, 1), 0);
    assert_eq!(prev_wrapping(0, 1), 0);
}
