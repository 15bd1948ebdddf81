use jit_tracer::nul_terminated_prefix_matches;
use jit_tracer::wasm_memory_image_ident;
use jit_tracer::words_covering;

#[test]
fn words_covering_rounds_up_to_whole_words() {
    assert_eq!(words_covering(0), 0);
    assert_eq!(words_covering(1), 1);
    assert_eq!(words_covering(8), 1);
    assert_eq!(words_covering(9), 2);
    assert_eq!(words_covering(16), 2);
    assert_eq!(words_covering(0x34), 7);
}

#[test]
fn marker_name_matches_up_to_the_nul() {
    let mut bytes = b"wasm-memory-image".to_vec();
    bytes.push(0);
    bytes.extend_from_slice(b"junk");
    assert!(nul_terminated_prefix_matches(&bytes, b"wasm-memory-image"));
}

#[test]
fn marker_comparison_is_exact() {
    assert!(nul_terminated_prefix_matches(b"abc", b"abc"));
    assert!(nul_terminated_prefix_matches(b"ab\0c", b"ab"));
    assert!(!nul_terminated_prefix_matches(b"abc\0", b"ab"));
    assert!(!nul_terminated_prefix_matches(b"ab\0", b"abc"));
    assert!(!nul_terminated_prefix_matches(b"\0abc", b"abc"));
    assert!(nul_terminated_prefix_matches(b"\0", b""));
}

#[test]
fn the_memory_image_ident_names_the_wasm_region() {
    assert_eq!(wasm_memory_image_ident(), "wasm-memory-image");
}
