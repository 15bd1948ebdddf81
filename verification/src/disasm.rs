//! Disassembler adapter: fetches the bytes of a resolved function out of
//! the target with the tracer's word-granularity primitive and decodes a
//! contiguous instruction stream into readable text lines, cut off at a
//! caller-supplied byte limit.
use vstd::prelude::*;

use capstone::arch::BuildsCapstone;
use capstone::arch::BuildsCapstoneSyntax;

use crate::errors::MemoryAccessError;
use crate::resolver::FunctionMetadata;
use crate::tracer::ProcessHandle;
use crate::words::push_le_bytes;
use crate::words::spec_le_bytes;
use crate::words::spec_words_covering;
use crate::words::words_covering;

verus! {

/// What the decoder yields on the first instruction of a byte stream,
/// with operand text rendered against a display address: the
/// instruction's byte length and its text line, or nothing when the
/// leading bytes are not a whole instruction.
pub uninterp spec fn decode_of(bytes: Seq<u8>, addr: u64) -> Option<(int, Seq<char>)>;

/// Relies on capstone (x86, 64-bit mode, Intel syntax): decodes the
/// first instruction of `b[off..]`, rendering operands against the
/// display address `addr`. The decode depends on the bytes and the
/// address alone; a decoded instruction is at least one byte long and
/// never longer than what remains of the buffer. A failure to build the
/// decoder itself (fixed, valid configuration, so deterministic within
/// a build, out-of-memory aside) is reported as undecodable bytes.
#[verifier::external_body]
fn decode_first(b: &[u8], off: usize, addr: u64) -> (r: Option<(usize, String)>)
    requires
        off <= b@.len(),
    ensures
        match r {
            Some((len, text)) => {
                &&& decode_of(b@.skip(off as int), addr) == Some((len as int, text@))
                &&& 1 <= len
                &&& off + len <= b@.len()
            },
            None => decode_of(b@.skip(off as int), addr) is None,
        },
{
    let cs = match capstone::Capstone::new().x86().mode(capstone::arch::x86::ArchMode::Mode64)
        .syntax(capstone::arch::x86::ArchSyntax::Intel).build() {
        Ok(cs) => cs,
        Err(_) => return None,
    };
    let insns = match cs.disasm_count(&b[off..], addr, 1) {
        Ok(insns) => insns,
        Err(_) => return None,
    };
    match insns.iter().next() {
        Some(insn) => Some((insn.len(), format!("{}", insn))),
        None => None,
    }
}

/// The lines of the byte-limited decode from offset `consumed`: one
/// text line per instruction until the consumed length reaches `limit`,
/// the instruction whose end first reaches or passes the limit included
/// whole. The flag is false when the bytes ran out or stopped decoding
/// before the limit was reached.
pub open spec fn spec_disasm_from(bytes: Seq<u8>, consumed: int, limit: int) -> (
    Seq<Seq<char>>,
    bool,
)
    decreases bytes.len() - consumed,
{
    if consumed >= limit {
        (Seq::<Seq<char>>::empty(), true)
    } else if consumed < 0 || consumed >= bytes.len() {
        (Seq::<Seq<char>>::empty(), false)
    } else {
        match decode_of(bytes.skip(consumed), consumed as u64) {
            None => (Seq::<Seq<char>>::empty(), false),
            Some((len, text)) => {
                if len < 1 || consumed + len > bytes.len() {
                    (Seq::<Seq<char>>::empty(), false)
                } else {
                    let (rest, ok) = spec_disasm_from(bytes, consumed + len, limit);
                    (seq![text] + rest, ok)
                }
            },
        }
    }
}

/// The views of the decoded lines.
pub open spec fn lines_view(ls: Seq<String>) -> Seq<Seq<char>> {
    ls.map_values(|s: String| s@)
}

/// The decoded lines and whether the decode reached the byte limit.
pub struct DisasmOutput {
    /// One line of text per decoded instruction, in stream order.
    pub lines: Vec<String>,
    /// False when undecodable bytes cut the stream short; the lines
    /// already decoded are still present.
    pub complete: bool,
}

/// Decodes the instruction stream at offset 0 with a synthetic base
/// address of 0, one text line per instruction, and stops as soon as
/// the cumulative consumed length reaches or passes `byte_limit`: the
/// instruction whose end first reaches it is included in full, and
/// nothing past it is decoded. On bytes the decoder cannot interpret,
/// the lines already accumulated come back marked incomplete.
pub fn disassemble(bytes: &[u8], byte_limit: usize) -> (r: DisasmOutput)
    ensures
        lines_view(r.lines@) == spec_disasm_from(bytes@, 0, byte_limit as int).0,
        r.complete == spec_disasm_from(bytes@, 0, byte_limit as int).1,
{
    let blen: usize = bytes.len();
    let mut lines: Vec<String> = Vec::new();
    let mut consumed: usize = 0;
    proof {
        assert(lines_view(lines@) =~= Seq::<Seq<char>>::empty());
    }
    loop
        invariant
            blen == bytes@.len(),
            consumed <= blen,
            spec_disasm_from(bytes@, 0, byte_limit as int).0 == lines_view(lines@)
                + spec_disasm_from(bytes@, consumed as int, byte_limit as int).0,
            spec_disasm_from(bytes@, 0, byte_limit as int).1 == spec_disasm_from(
                bytes@,
                consumed as int,
                byte_limit as int,
            ).1,
        decreases blen - consumed,
    {
        if consumed >= byte_limit {
            proof {
                assert(lines_view(lines@) + Seq::<Seq<char>>::empty() =~= lines_view(lines@));
            }
            return DisasmOutput { lines, complete: true };
        }
        if consumed == blen {
            proof {
                assert(lines_view(lines@) + Seq::<Seq<char>>::empty() =~= lines_view(lines@));
            }
            return DisasmOutput { lines, complete: false };
        }
        match decode_first(bytes, consumed, consumed as u64) {
            None => {
                proof {
                    assert(lines_view(lines@) + Seq::<Seq<char>>::empty() =~= lines_view(lines@));
                }
                return DisasmOutput { lines, complete: false };
            },
            Some((len, text)) => {
                let ghost tview = text@;
                let ghost old_lines = lines@;
                lines.push(text);
                proof {
                    assert(lines_view(lines@) =~= lines_view(old_lines).push(tview));
                    let stepped = spec_disasm_from(
                        bytes@,
                        consumed + len,
                        byte_limit as int,
                    );
                    assert(spec_disasm_from(bytes@, consumed as int, byte_limit as int).0
                        == seq![tview] + stepped.0);
                    assert(lines_view(old_lines) + (seq![tview] + stepped.0) =~= lines_view(
                        lines@,
                    ) + stepped.0);
                }
                consumed = consumed + len;
            },
        }
    }
}

/// With the decoder yielding a one-byte instruction on each suffix of a
/// three-byte stream -- such as two one-byte no-ops followed by a
/// one-byte return -- a byte limit of three yields exactly the three
/// instruction lines, consuming exactly the three bytes, and the decode
/// is complete.
pub proof fn lemma_three_one_byte_decodes_full_limit(
    bytes: Seq<u8>,
    t0: Seq<char>,
    t1: Seq<char>,
    t2: Seq<char>,
)
    requires
        bytes.len() == 3,
        decode_of(bytes.skip(0), 0) == Some((1int, t0)),
        decode_of(bytes.skip(1), 1) == Some((1int, t1)),
        decode_of(bytes.skip(2), 2) == Some((1int, t2)),
    ensures
        spec_disasm_from(bytes, 0, 3) == (seq![t0, t1, t2], true),
{
    assert(spec_disasm_from(bytes, 3, 3) == (Seq::<Seq<char>>::empty(), true));
    assert(seq![t2] + Seq::<Seq<char>>::empty() =~= seq![t2]);
    assert(spec_disasm_from(bytes, 2, 3) == (seq![t2], true));
    assert(seq![t1] + seq![t2] =~= seq![t1, t2]);
    assert(spec_disasm_from(bytes, 1, 3) == (seq![t1, t2], true));
    assert(seq![t0] + seq![t1, t2] =~= seq![t0, t1, t2]);
    assert(spec_disasm_from(bytes, 0, 3) == (seq![t0, t1, t2], true));
}

/// With the same decoder values, a byte limit of two keeps exactly the
/// first two instruction lines -- the one whose end reaches the limit
/// is included in full -- and the third instruction past the limit is
/// never decoded.
pub proof fn lemma_three_one_byte_decodes_short_limit(
    bytes: Seq<u8>,
    t0: Seq<char>,
    t1: Seq<char>,
    t2: Seq<char>,
)
    requires
        bytes.len() == 3,
        decode_of(bytes.skip(0), 0) == Some((1int, t0)),
        decode_of(bytes.skip(1), 1) == Some((1int, t1)),
        decode_of(bytes.skip(2), 2) == Some((1int, t2)),
    ensures
        spec_disasm_from(bytes, 0, 2) == (seq![t0, t1], true),
{
    assert(spec_disasm_from(bytes, 2, 2) == (Seq::<Seq<char>>::empty(), true));
    assert(seq![t1] + Seq::<Seq<char>>::empty() =~= seq![t1]);
    assert(spec_disasm_from(bytes, 1, 2) == (seq![t1], true));
    assert(seq![t0] + seq![t1] =~= seq![t0, t1]);
    assert(spec_disasm_from(bytes, 0, 2) == (seq![t0, t1], true));
}

/// Reads the whole words covering a resolved function's code out of the
/// target, least-significant byte first, into one buffer. The buffer is
/// `8 * words` bytes long, so at least `size` bytes: it may extend past
/// the function's true end on the final word, and truncation is the
/// caller's concern. Every word read becomes tracked at its address.
pub fn read_function_bytes(h: &mut ProcessHandle, meta: &FunctionMetadata) -> (r: Result<
    Vec<u8>,
    MemoryAccessError,
>)
    requires
        meta.addr + 8 * spec_words_covering(meta.size) <= 0x1_0000_0000_0000_0000,
    ensures
        final(h).pid_spec() == old(h).pid_spec(),
        final(h).state_spec() == old(h).state_spec(),
        spec_words_covering(meta.size) == 0 ==> r is Ok,
        match r {
            Ok(buf) => {
                &&& buf@.len() == 8 * spec_words_covering(meta.size)
                &&& buf@.len() >= meta.size
                &&& forall|i: int|
                    0 <= i < spec_words_covering(meta.size)
                        ==> #[trigger] final(h).mem_spec().contains_key((meta.addr + 8 * i) as u64)
                &&& forall|i: int|
                    0 <= i < spec_words_covering(meta.size) ==> #[trigger] buf@.subrange(
                        8 * i,
                        8 * i + 8,
                    ) == spec_le_bytes(final(h).mem_spec()[(meta.addr + 8 * i) as u64])
            },
            Err(_) => true,
        },
{
    let n = words_covering(meta.size);
    let mut buf: Vec<u8> = Vec::new();
    let mut i: u64 = 0;
    while i < n
        invariant
            n as int == spec_words_covering(meta.size),
            meta.addr + 8 * (n as int) <= 0x1_0000_0000_0000_0000,
            i <= n,
            buf@.len() == 8 * i,
            h.pid_spec() == old(h).pid_spec(),
            h.state_spec() == old(h).state_spec(),
            forall|j: int|
                0 <= j < i ==> #[trigger] h.mem_spec().contains_key((meta.addr + 8 * j) as u64),
            forall|j: int|
                0 <= j < i ==> #[trigger] buf@.subrange(8 * j, 8 * j + 8) == spec_le_bytes(
                    h.mem_spec()[(meta.addr + 8 * j) as u64],
                ),
        decreases n - i,
    {
        let addr = meta.addr + 8 * i;
        let w = match h.read_word(addr) {
            Ok(w) => w,
            Err(e) => {
                return Err(e);
            },
        };
        let ghost old_buf = buf@;
        push_le_bytes(&mut buf, w);
        proof {
            assert(addr as int == meta.addr + 8 * (i as int));
            assert forall|j: int| 0 <= j < i + 1 implies #[trigger] h.mem_spec().contains_key(
                (meta.addr + 8 * j) as u64,
            ) by {
                assert(0 <= meta.addr + 8 * j < 0x1_0000_0000_0000_0000);
                if j == i {
                    assert((meta.addr + 8 * j) as u64 == addr);
                }
            }
            assert forall|j: int| 0 <= j < i + 1 implies #[trigger] buf@.subrange(
                8 * j,
                8 * j + 8,
            ) == spec_le_bytes(h.mem_spec()[(meta.addr + 8 * j) as u64]) by {
                assert(0 <= meta.addr + 8 * j < 0x1_0000_0000_0000_0000);
                if j < i {
                    assert(buf@.subrange(8 * j, 8 * j + 8) =~= old_buf.subrange(8 * j, 8 * j + 8));
                    assert((meta.addr + 8 * j) as u64 != addr);
                } else {
                    assert(buf@.subrange(8 * j, 8 * j + 8) =~= spec_le_bytes(w));
                    assert((meta.addr + 8 * j) as u64 == addr);
                }
            }
        }
        i = i + 1;
    }
    Ok(buf)
}

} // verus!
