//! Tracing toolkit for inspecting just-in-time-compiled code in a live
//! process: a resolver for runtime-emitted symbol maps, a word-granularity
//! process tracer, a syscall readiness barrier, an ephemeral software
//! breakpoint protocol, and a byte-limited disassembly feed.
mod hex;
mod errors;
mod resolver;
mod tracer;
mod breakpoint;
mod words;
mod barrier;
mod disasm;
mod commands;

pub use hex::parse_hex_u64;
pub use hex::spec_parse_hex_u64;
pub use errors::AttachError;
pub use errors::BarrierError;
pub use errors::BreakpointError;
pub use errors::MemoryAccessError;
pub use errors::ParseError;
pub use resolver::FunctionMapping;
pub use resolver::FunctionMetadata;
pub use tracer::ProcessHandle;
pub use tracer::RegSnapshot;
pub use tracer::TraceAction;
pub use tracer::TraceState;
pub use tracer::WaitOutcome;
pub use breakpoint::Breakpoint;
pub use breakpoint::BreakpointManager;
pub use breakpoint::patched_word;
pub use barrier::wait_for_memory_ready;
pub use barrier::wasm_memory_image_ident;
pub use words::words_covering;
pub use words::nul_terminated_prefix_matches;
pub use disasm::disassemble;
pub use disasm::read_function_bytes;
pub use disasm::DisasmOutput;
pub use commands::Command;
pub use commands::Mode;
pub use commands::next_wrapping;
pub use commands::prev_wrapping;
