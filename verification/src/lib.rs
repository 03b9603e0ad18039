//! A verified disassembler for a small subset of the 8086 instruction set.
//!
//! The library has two parts: an executable-image reader that locates the
//! code segment inside a Minix-style container ([`binary`]), and an
//! instruction decoder that walks the code bytes and renders one line of
//! assembly text per instruction ([`disasm`]).  The mathematical model of
//! the decoder lives in [`model`]; the text-rendering primitives and their
//! specifications live in [`render`].

use vstd::prelude::*;

pub mod binary;
pub mod disasm;
pub mod model;
pub mod render;

verus! {

/// A failure while reading the container or decoding an instruction.
///
/// Every fetch, dispatch and field decode is fallible; no operation of the
/// library aborts the calling environment.
#[derive(Clone, Copy, Debug, PartialEq, Eq, Structural)]
pub enum DisasmError {
    /// A read would have run past the end of the container buffer.
    OutOfBounds,
    /// The cursor stood exactly at the end of the code segment when a fetch
    /// was attempted mid-instruction.  `offset` is the cursor position.
    EndOfInput { offset: usize },
    /// A fetched opcode byte matched none of the dispatch ranges and did not
    /// stand at the exact end of the code segment.
    UnrecognizedOpcode { offset: usize, byte: u8 },
    /// An internally impossible field combination, such as a width flag
    /// outside 0..=1 handed to the signed-immediate fetch.
    InvariantViolation,
}

/// Little-endian 32-bit read of four bytes of `buf` starting at `idx`.
pub fn read_int(buf: &[u8], idx: usize) -> (r: u32)
    requires
        idx + 4 <= buf@.len(),
    ensures
        r == crate::binary::le32_at(buf@, idx as int),
{
    let v1: u32 = buf[idx] as u32;
    let v2: u32 = (buf[idx + 1] as u32) << 8;
    let v3: u32 = (buf[idx + 2] as u32) << 16;
    let v4: u32 = (buf[idx + 3] as u32) << 24;
    v1 | v2 | v3 | v4
}

/// Run a disassembler to completion: one rendered line per decoded
/// instruction, or the first decode error.
pub fn start<T: crate::disasm::Disasm>(dis: T) -> (r: Result<Vec<String>, DisasmError>)
    ensures
        match r {
            Ok(lines) => crate::model::spec_run(dis.buf()) == Ok::<Seq<Seq<char>>, DisasmError>(
                lines@.map_values(|s: String| s@),
            ),
            Err(e) => crate::model::spec_run(dis.buf()) == Err::<Seq<Seq<char>>, DisasmError>(e),
        },
{
    let mut d = dis;
    d.disasm()
}

} // verus!
