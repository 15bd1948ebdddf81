use jit_tracer::disassemble;

#[test]
fn two_nops_and_a_return_decode_whole_within_the_limit() {
    let out = disassemble(&[0x90, 0x90, 0xC3], 3);
    assert!(out.complete);
    assert_eq!(out.lines.len(), 3);
    assert!(out.lines[0].contains("nop"));
    assert!(out.lines[1].contains("nop"));
    assert!(out.lines[2].contains("ret"));
}

#[test]
fn the_byte_limit_excludes_what_lies_past_it() {
    let out = disassemble(&[0x90, 0x90, 0xC3], 2);
    assert!(out.complete);
    assert_eq!(out.lines.len(), 2);
    assert!(out.lines[0].contains("nop"));
    assert!(out.lines[1].contains("nop"));
}

#[test]
fn the_instruction_reaching_the_limit_is_included_whole() {
    // A five-byte call instruction followed by a return: a limit inside
    // the call keeps the whole call and excludes the return.
    let out = disassemble(&[0xE8, 0x00, 0x00, 0x00, 0x00, 0xC3], 2);
    assert!(out.complete);
    assert_eq!(out.lines.len(), 1);
    assert!(out.lines[0].contains("call"));
}

#[test]
fn a_zero_limit_decodes_nothing() {
    let out = disassemble(&[0x90, 0xC3], 0);
    assert!(out.complete);
    assert_eq!(out.lines.len(), 0);
}

#[test]
fn undecodable_bytes_return_the_partial_lines() {
    // One no-op, then a lone prefix byte the decoder cannot finish.
    let out = disassemble(&[0x90, 0x0F], 2);
    assert!(!out.complete);
    assert_eq!(out.lines.len(), 1);
    assert!(out.lines[0].contains("nop"));
}

#[test]
fn running_out_of_bytes_before_the_limit_is_incomplete() {
    let out = disassemble(&[0x90], 10);
    assert!(!out.complete);
    assert_eq!(out.lines.len(), 1);
}

#[test]
fn operand_text_is_rendered_against_a_base_of_zero() {
    let out = disassemble(&[0x90], 1);
    assert!(out.complete);
    assert!(out.lines[0].starts_with("0x0:"));
}
