//! The mathematical model of the instruction decoder: what one instruction
//! at a given cursor position decodes to, and what the whole code segment
//! renders as.  The executable decoder in [`crate::disasm`] is proved to
//! return exactly what these functions describe.

use vstd::prelude::*;

use crate::binary::{code_of, container_ok};
use crate::render::{dec_rep_i16, hex_rep, spaces};
use crate::DisasmError;

verus! {

/// Register name for width bit `w` (0: byte registers, 1: word registers)
/// and 3-bit register index `r`.
pub open spec fn reg_name(w: u8, r: u8) -> Seq<char>
    recommends
        w < 2,
        r < 8,
{
    if w == 0 {
        if r == 0 {
            "al"@
        } else if r == 1 {
            "cl"@
        } else if r == 2 {
            "dl"@
        } else if r == 3 {
            "bl"@
        } else if r == 4 {
            "ah"@
        } else if r == 5 {
            "ch"@
        } else if r == 6 {
            "dh"@
        } else {
            "bh"@
        }
    } else {
        if r == 0 {
            "ax"@
        } else if r == 1 {
            "cx"@
        } else if r == 2 {
            "dx"@
        } else if r == 3 {
            "bx"@
        } else if r == 4 {
            "sp"@
        } else if r == 5 {
            "bp"@
        } else if r == 6 {
            "si"@
        } else {
            "di"@
        }
    }
}

/// Base/index text of a memory operand for mode `md` and r/m field `rm`.
/// For `rm == 6` the base is `bp` except in mode 0, the direct-address
/// special case, where there is no base at all.
pub open spec fn base_name(md: u8, rm: u8) -> Seq<char>
    recommends
        md < 4,
        rm < 8,
{
    if rm == 0 {
        "bx+si"@
    } else if rm == 1 {
        "bx+di"@
    } else if rm == 2 {
        "bp+si"@
    } else if rm == 3 {
        "bp+di"@
    } else if rm == 4 {
        "si"@
    } else if rm == 5 {
        "di"@
    } else if rm == 6 {
        if md == 0 {
            ""@
        } else {
            "bp"@
        }
    } else {
        "bx"@
    }
}

/// Operand text for the r/m side: a register name in mode 3
/// (register-direct), otherwise a bracketed effective address whose
/// displacement is shown as four hex digits in the mode-0 direct-address
/// case, as a signed decimal suffix when non-zero otherwise, and omitted
/// when zero.
pub open spec fn ea_text(w: u8, md: u8, rm: u8, disp: i16) -> Seq<char>
    recommends
        w < 2,
        md < 4,
        rm < 8,
{
    if md == 3 {
        reg_name(w, rm)
    } else if disp != 0 && md == 0 {
        "["@ + hex_rep((disp as u16) as nat, 4) + "]"@
    } else if disp != 0 && disp < 0 {
        "["@ + base_name(md, rm) + dec_rep_i16(disp) + "]"@
    } else if disp != 0 {
        "["@ + base_name(md, rm) + "+"@ + dec_rep_i16(disp) + "]"@
    } else {
        "["@ + base_name(md, rm) + "]"@
    }
}

/// The `{:04x}: ` program-counter prefix of every output line.
pub open spec fn pc_text(p: nat) -> Seq<char> {
    hex_rep(p, 4) + ": "@
}

/// Two hex digits for each raw byte, in fetch order.
pub open spec fn raw_hex(raw: Seq<u8>) -> Seq<char>
    decreases raw.len(),
{
    if raw.len() == 0 {
        Seq::empty()
    } else {
        raw_hex(raw.drop_last()) + hex_rep(raw.last() as nat, 2)
    }
}

/// The raw-byte column: the bytes in hex, space-padded on the right to a
/// fixed width of 14 characters.
pub open spec fn raw_text(raw: Seq<u8>) -> Seq<char> {
    if 2 * raw.len() <= 14 {
        raw_hex(raw) + spaces((14 - 2 * raw.len()) as nat)
    } else {
        raw_hex(raw)
    }
}

/// Immediate text under the plain width convention: two hex digits for
/// width 0, four for width 1.
pub open spec fn data_text(w: u8, data: u16) -> Seq<char>
    recommends
        w < 2,
{
    if w == 0 {
        hex_rep(data as nat, 2)
    } else {
        hex_rep(data as nat, 4)
    }
}

/// Immediate text under the sign/width convention of the
/// arithmetic-immediate group: four hex digits for a full word, two for a
/// sign-extended byte.
pub open spec fn sdata_text(s: u8, data: u16) -> Seq<char>
    recommends
        s < 2,
{
    if s == 0 {
        hex_rep(data as nat, 4)
    } else {
        hex_rep(data as nat, 2)
    }
}

/// A rendered `add` line.
pub open spec fn add_line(p: nat, raw: Seq<u8>, d: u8, w: u8, reg: u8, ea: Seq<char>) -> Seq<
    char,
> {
    pc_text(p) + raw_text(raw) + "add "@ + (if d == 0 {
        ea + ", "@ + reg_name(w, reg)
    } else {
        reg_name(w, reg) + ", "@ + ea
    })
}

/// A rendered `sub` line of the arithmetic-immediate group.
pub open spec fn sub_line(p: nat, raw: Seq<u8>, ea: Seq<char>, s: u8, data: u16) -> Seq<char> {
    pc_text(p) + raw_text(raw) + "sub "@ + ea + ", "@ + sdata_text(s, data)
}

/// A rendered `mov` immediate-to-register line.
pub open spec fn mov_line(p: nat, raw: Seq<u8>, w: u8, reg: u8, data: u16) -> Seq<char> {
    pc_text(p) + raw_text(raw) + "mov "@ + reg_name(w, reg) + ", "@ + data_text(w, data)
}

/// A rendered `int` line; the interrupt vector is always one byte.
pub open spec fn int_line(p: nat, raw: Seq<u8>, data: u16) -> Seq<char> {
    pc_text(p) + raw_text(raw) + "int "@ + data_text(0, data)
}

/// The line for a code segment that ends exactly after an opcode byte.
pub open spec fn undefined_line(p: nat, raw: Seq<u8>) -> Seq<char> {
    pc_text(p) + raw_text(raw) + "(undefined)"@
}

/// Mode field: bits 7-6 of a mod/reg/rm byte.
pub open spec fn mrr_md(b: u8) -> u8 {
    (b >> 6) & 3
}

/// Register field: bits 5-3 of a mod/reg/rm byte.
pub open spec fn mrr_reg(b: u8) -> u8 {
    (b >> 3) & 7
}

/// R/m field: bits 2-0 of a mod/reg/rm byte.
pub open spec fn mrr_rm(b: u8) -> u8 {
    b & 7
}

/// The three fields of a mod/reg/rm byte lie in their ranges: the mode is
/// two bits, the register and r/m fields three bits each.
pub proof fn lemma_mrr_fields(b: u8)
    ensures
        mrr_md(b) < 4,
        mrr_reg(b) < 8,
        mrr_rm(b) < 8,
{
    assert((b >> 6) & 3 < 4 && (b >> 3) & 7 < 8 && b & 7 < 8) by (bit_vector);
}

/// Little-endian 16-bit word.
pub open spec fn word_le(lo: u8, hi: u8) -> u16 {
    (lo as u16) | ((hi as u16) << 8)
}

/// Sign extension of a byte to 16 bits.
pub open spec fn sext8(b: u8) -> u16 {
    if b >= 0x80 {
        (0xff00 + b) as u16
    } else {
        b as u16
    }
}

/// How many displacement bytes follow a mod/reg/rm byte: a word for mode 2
/// and for the mode-0 direct-address case, one byte for mode 1, none
/// otherwise.
pub open spec fn disp_size(md: u8, rm: u8) -> nat {
    if md == 0 {
        if rm == 6 {
            2
        } else {
            0
        }
    } else if md == 1 {
        1
    } else if md == 2 {
        2
    } else {
        0
    }
}

/// The displacement value, reading `disp_size(md, rm)` bytes of `t` from
/// position `p`: a little-endian word for the word-sized cases, a
/// sign-extended byte for mode 1, zero when no bytes are read.
pub open spec fn disp_value(t: Seq<u8>, p: int, md: u8, rm: u8) -> i16
    recommends
        0 <= p,
        p + disp_size(md, rm) <= t.len(),
{
    if md == 0 {
        if rm == 6 {
            word_le(t[p], t[p + 1]) as i16
        } else {
            0
        }
    } else if md == 1 {
        sext8(t[p]) as i16
    } else if md == 2 {
        word_le(t[p], t[p + 1]) as i16
    } else {
        0
    }
}

/// What one successfully decoded instruction contributes: its rendered
/// line, the cursor position after it, and whether decoding stops there
/// (the undefined-tail terminal state).
pub struct StepOut {
    pub line: Seq<char>,
    pub next: nat,
    pub stop: bool,
}

/// One step of the ADD register/memory family (opcodes 0x00..=0x03).  A
/// code segment that ends exactly after the opcode byte renders as an
/// undefined line and stops cleanly.
pub open spec fn step_add(t: Seq<u8>, p: nat) -> Result<StepOut, DisasmError>
    recommends
        p < t.len(),
        t[p as int] <= 0x03,
{
    let op = t[p as int];
    if p + 1 == t.len() {
        Ok(
            StepOut {
                line: undefined_line(p, t.subrange(p as int, p as int + 1)),
                next: (p + 1) as nat,
                stop: true,
            },
        )
    } else {
        let w = op & 1;
        let d = (op >> 1) & 1;
        let mrr = t[p as int + 1];
        let md = mrr_md(mrr);
        let reg = mrr_reg(mrr);
        let rm = mrr_rm(mrr);
        if p + 2 + disp_size(md, rm) <= t.len() {
            let disp = disp_value(t, p as int + 2, md, rm);
            let next = (p + 2 + disp_size(md, rm)) as nat;
            Ok(
                StepOut {
                    line: add_line(
                        p,
                        t.subrange(p as int, next as int),
                        d,
                        w,
                        reg,
                        ea_text(w, md, rm, disp),
                    ),
                    next,
                    stop: false,
                },
            )
        } else {
            Err(DisasmError::EndOfInput { offset: t.len() as usize })
        }
    }
}

/// One step of the arithmetic-immediate group (opcodes 0x80..=0x83,
/// rendered as `sub`).  The immediate is a full word for sign bit 0 and a
/// sign-extended byte for sign bit 1; a width bit of 0 is an invariant
/// violation of the signed-immediate fetch.
pub open spec fn step_sub(t: Seq<u8>, p: nat) -> Result<StepOut, DisasmError>
    recommends
        p < t.len(),
        0x80 <= t[p as int] <= 0x83,
{
    let op = t[p as int];
    let s = (op >> 1) & 1;
    let w = op & 1;
    if p + 1 == t.len() {
        Err(DisasmError::EndOfInput { offset: t.len() as usize })
    } else {
        let mrr = t[p as int + 1];
        let md = mrr_md(mrr);
        let reg = mrr_reg(mrr);
        let rm = mrr_rm(mrr);
        if p + 2 + disp_size(md, rm) <= t.len() {
            let disp = disp_value(t, p as int + 2, md, rm);
            let q = (p + 2 + disp_size(md, rm)) as nat;
            if w != 1 {
                Err(DisasmError::InvariantViolation)
            } else if s == 0 {
                if q + 2 <= t.len() {
                    let data = word_le(t[q as int], t[q as int + 1]);
                    let next = (q + 2) as nat;
                    Ok(
                        StepOut {
                            line: sub_line(
                                p,
                                t.subrange(p as int, next as int),
                                ea_text(w, md, rm, disp),
                                s,
                                data,
                            ),
                            next,
                            stop: false,
                        },
                    )
                } else {
                    Err(DisasmError::EndOfInput { offset: t.len() as usize })
                }
            } else {
                if q + 1 <= t.len() {
                    let data = sext8(t[q as int]);
                    let next = (q + 1) as nat;
                    Ok(
                        StepOut {
                            line: sub_line(
                                p,
                                t.subrange(p as int, next as int),
                                ea_text(w, md, rm, disp),
                                s,
                                data,
                            ),
                            next,
                            stop: false,
                        },
                    )
                } else {
                    Err(DisasmError::EndOfInput { offset: t.len() as usize })
                }
            }
        } else {
            Err(DisasmError::EndOfInput { offset: t.len() as usize })
        }
    }
}

/// One step of the MOV immediate-to-register family (opcodes 0xb0..=0xbf):
/// width from bit 3 of the opcode, register index from its low three bits,
/// then a byte or word immediate.
pub open spec fn step_mov(t: Seq<u8>, p: nat) -> Result<StepOut, DisasmError>
    recommends
        p < t.len(),
        0xb0 <= t[p as int] <= 0xbf,
{
    let op = t[p as int];
    let w = (op >> 3) & 1;
    let reg = op & 7;
    if w == 0 {
        if p + 2 <= t.len() {
            let data = t[p as int + 1] as u16;
            Ok(
                StepOut {
                    line: mov_line(p, t.subrange(p as int, p as int + 2), w, reg, data),
                    next: (p + 2) as nat,
                    stop: false,
                },
            )
        } else {
            Err(DisasmError::EndOfInput { offset: t.len() as usize })
        }
    } else {
        if p + 3 <= t.len() {
            let data = word_le(t[p as int + 1], t[p as int + 2]);
            Ok(
                StepOut {
                    line: mov_line(p, t.subrange(p as int, p as int + 3), w, reg, data),
                    next: (p + 3) as nat,
                    stop: false,
                },
            )
        } else {
            Err(DisasmError::EndOfInput { offset: t.len() as usize })
        }
    }
}

/// One step of INT (opcode 0xcd): a one-byte interrupt vector.
pub open spec fn step_int(t: Seq<u8>, p: nat) -> Result<StepOut, DisasmError>
    recommends
        p < t.len(),
        t[p as int] == 0xcd,
{
    if p + 2 <= t.len() {
        let data = t[p as int + 1] as u16;
        Ok(
            StepOut {
                line: int_line(p, t.subrange(p as int, p as int + 2), data),
                next: (p + 2) as nat,
                stop: false,
            },
        )
    } else {
        Err(DisasmError::EndOfInput { offset: t.len() as usize })
    }
}

/// A byte outside every dispatch range: fatal, except at the exact end of
/// the code segment, where it renders as an undefined line and decoding
/// stops cleanly.
pub open spec fn step_unknown(t: Seq<u8>, p: nat) -> Result<StepOut, DisasmError>
    recommends
        p < t.len(),
{
    if p + 1 == t.len() {
        Ok(
            StepOut {
                line: undefined_line(p, t.subrange(p as int, p as int + 1)),
                next: (p + 1) as nat,
                stop: true,
            },
        )
    } else {
        Err(DisasmError::UnrecognizedOpcode { offset: p as usize, byte: t[p as int] })
    }
}

/// One decode step: dispatch on the opcode byte at `p`.
pub open spec fn spec_step(t: Seq<u8>, p: nat) -> Result<StepOut, DisasmError>
    recommends
        p < t.len(),
{
    let op = t[p as int];
    if op <= 0x03 {
        step_add(t, p)
    } else if 0x80 <= op <= 0x83 {
        step_sub(t, p)
    } else if 0xb0 <= op <= 0xbf {
        step_mov(t, p)
    } else if op == 0xcd {
        step_int(t, p)
    } else {
        step_unknown(t, p)
    }
}

/// After any successful decode step the cursor has moved forward and still
/// lies within the code segment: it never exceeds the code length.
pub proof fn lemma_step_in_bounds(t: Seq<u8>, p: nat)
    requires
        p < t.len(),
    ensures
        spec_step(t, p) matches Ok(st) ==> p < st.next <= t.len(),
{
}

/// Decoding from cursor position `p` to the end of the code segment: the
/// rendered lines, or the first error.  A fetch attempted at the very end
/// fails with `EndOfInput`.  The `st.next <= p` branch only keeps the
/// recursion well-founded: `lemma_step_in_bounds` shows a successful step
/// always moves the cursor forward, so that branch is never taken.
pub open spec fn decode_from(t: Seq<u8>, p: nat) -> Result<Seq<Seq<char>>, DisasmError>
    decreases t.len() - p,
{
    if p >= t.len() {
        Err(DisasmError::EndOfInput { offset: p as usize })
    } else {
        match spec_step(t, p) {
            Err(e) => Err(e),
            Ok(st) => {
                if st.stop || st.next >= t.len() || st.next <= p {
                    Ok(seq![st.line])
                } else {
                    match decode_from(t, st.next) {
                        Ok(rest) => Ok(seq![st.line] + rest),
                        Err(e) => Err(e),
                    }
                }
            },
        }
    }
}

/// A failing decode step fails the whole remaining decode.
pub proof fn lemma_decode_err(t: Seq<u8>, p: nat, e: DisasmError)
    requires
        p < t.len(),
        spec_step(t, p) == Err::<StepOut, DisasmError>(e),
    ensures
        decode_from(t, p) == Err::<Seq<Seq<char>>, DisasmError>(e),
{
}

/// A step that stops, or that ends exactly at the code length, contributes
/// the last line of the decode.
pub proof fn lemma_decode_last(t: Seq<u8>, p: nat, st: StepOut)
    requires
        p < t.len(),
        spec_step(t, p) == Ok::<StepOut, DisasmError>(st),
        st.stop || st.next >= t.len(),
    ensures
        decode_from(t, p) == Ok::<Seq<Seq<char>>, DisasmError>(seq![st.line]),
{
}

/// A step followed by more code contributes its line in front of the
/// decode of the rest.
pub proof fn lemma_decode_cons(t: Seq<u8>, p: nat, st: StepOut)
    requires
        p < t.len(),
        spec_step(t, p) == Ok::<StepOut, DisasmError>(st),
        !st.stop,
        p < st.next < t.len(),
    ensures
        decode_from(t, p) == match decode_from(t, st.next) {
            Ok(rest) => Ok::<Seq<Seq<char>>, DisasmError>(seq![st.line] + rest),
            Err(e) => Err::<Seq<Seq<char>>, DisasmError>(e),
        },
{
}

/// The disassembly of a whole code segment, starting at cursor 0.
pub open spec fn spec_disasm(t: Seq<u8>) -> Result<Seq<Seq<char>>, DisasmError> {
    decode_from(t, 0)
}

/// The disassembly of a whole container: extract the code segment, then
/// decode it; an invalid container fails with `OutOfBounds`.
pub open spec fn spec_run(buf: Seq<u8>) -> Result<Seq<Seq<char>>, DisasmError> {
    if container_ok(buf) {
        spec_disasm(code_of(buf))
    } else {
        Err(DisasmError::OutOfBounds)
    }
}

/// Immediate widths: under the plain width convention an instruction with
/// width 0 fetches exactly one raw byte and renders its immediate in
/// exactly two hex digits, and one with width 1 fetches exactly two raw
/// bytes and renders in exactly four; the INT immediate is always one byte
/// rendered in two digits, whatever the width convention would say.  The
/// raw-byte counts stand in the immediate-fetch postconditions; the
/// rendered widths are proved here.
pub proof fn lemma_immediate_width(w: u8, data: u16)
    requires
        w < 2,
        w == 0 ==> data < 0x100,
    ensures
        w == 0 ==> data_text(w, data).len() == 2,
        w == 1 ==> data_text(w, data).len() == 4,
{
    assert(crate::render::pow16(0) == 1);
    assert(crate::render::pow16(1) == 16);
    assert(crate::render::pow16(2) == 256);
    if w == 0 {
        crate::render::lemma_hex_rep_len(data as nat, 2);
    } else {
        assert(crate::render::pow16(3) == 4096);
        assert(crate::render::pow16(4) == 65536);
        crate::render::lemma_hex_rep_len(data as nat, 4);
    }
}

/// Decoding is deterministic: identical bytes decode to an identical
/// sequence of output lines.  Together with the decoder's postcondition,
/// which pins its result to `spec_run` of its input, re-running the decoder
/// on identical bytes produces identical output.
pub proof fn lemma_disasm_deterministic(b1: Seq<u8>, b2: Seq<u8>)
    requires
        b1 == b2,
    ensures
        spec_run(b1) == spec_run(b2),
{
}

} // verus!

