//! The instruction decoder: walks the code segment byte by byte, decodes
//! one instruction at a time and renders one line of assembly text per
//! instruction.  Every function is proved against the model in
//! [`crate::model`].

use vstd::prelude::*;
use vstd::string::StringExecFns;

use crate::binary::{code_of, container_ok, BinData};
use crate::model::{
    add_line, base_name, data_text, decode_from, disp_size, disp_value, ea_text, int_line,
    lemma_decode_cons, lemma_decode_err, lemma_decode_last, lemma_mrr_fields, mov_line, mrr_md,
    mrr_reg, mrr_rm, pc_text, raw_hex, raw_text, reg_name, sdata_text, sext8, spec_run,
    spec_step, sub_line, undefined_line, word_le, StepOut,
};
use crate::render::{dec_str_i16, hex_str, spaces};
use crate::DisasmError;

verus! {

/// The longest supported instruction: opcode, mod/reg/rm, a word
/// displacement and a word immediate.
pub const MAX_RAW: usize = 6;

/// The transient record of one instruction being decoded: its flag and
/// field values, the resolved displacement and immediate, and the raw bytes
/// consumed so far, in fetch order.
pub struct OpCode {
    /// Sign flag of the arithmetic-immediate group.
    pub s: u8,
    /// Direction flag: which operand is the destination.
    pub d: u8,
    /// Width flag: byte (0) or word (1) operands.
    pub w: u8,
    /// Addressing mode, bits 7-6 of the mod/reg/rm byte.
    pub md: u8,
    /// R/m field, bits 2-0 of the mod/reg/rm byte.
    pub rm: u8,
    /// Register field, bits 5-3 of the mod/reg/rm byte.
    pub reg: u8,
    /// The immediate value, zero- or sign-extended to 16 bits.
    pub data: u16,
    /// The resolved displacement.
    pub disp: i16,
    /// The raw bytes consumed for this instruction, capped at `MAX_RAW`.
    pub raw: Vec<u8>,
}

impl OpCode {
    /// The control fields, everything but the raw-byte record: one value to
    /// say "unchanged" with.
    pub open spec fn ctrl(self) -> (u8, u8, u8, u8, u8, u8, u16, i16) {
        (self.s, self.d, self.w, self.md, self.rm, self.reg, self.data, self.disp)
    }

    /// A fresh record with every field zero and no raw bytes.
    pub fn new() -> (r: Self)
        ensures
            r.ctrl() == (0u8, 0u8, 0u8, 0u8, 0u8, 0u8, 0u16, 0i16),
            r.raw@ == Seq::<u8>::empty(),
    {
        OpCode { s: 0, d: 0, w: 0, md: 0, rm: 0, reg: 0, data: 0, disp: 0, raw: Vec::new() }
    }

    /// Reset the record between loop iterations: the next decode step
    /// starts from a fresh record, every field zero and no raw bytes.
    pub fn clear(&mut self)
        ensures
            final(self).ctrl() == (0u8, 0u8, 0u8, 0u8, 0u8, 0u8, 0u16, 0i16),
            final(self).raw@ == Seq::<u8>::empty(),
    {
        self.s = 0;
        self.d = 0;
        self.w = 0;
        self.md = 0;
        self.rm = 0;
        self.reg = 0;
        self.data = 0;
        self.disp = 0;
        self.raw.clear();
    }

    /// Append one fetched byte to the raw-byte record.
    pub fn add_raw_data(&mut self, d: u8)
        requires
            old(self).raw@.len() < MAX_RAW,
        ensures
            final(self).raw@ == old(self).raw@.push(d),
            final(self).ctrl() == old(self).ctrl(),
    {
        self.raw.push(d);
    }

    /// Record the resolved displacement.
    pub fn set_disp(&mut self, disp: i16)
        ensures
            final(self).disp == disp,
            final(self).raw@ == old(self).raw@,
            final(self).s == old(self).s,
            final(self).d == old(self).d,
            final(self).w == old(self).w,
            final(self).md == old(self).md,
            final(self).rm == old(self).rm,
            final(self).reg == old(self).reg,
            final(self).data == old(self).data,
    {
        self.disp = disp;
    }
}

/// A disassembler that runs a decode loop over code bytes it pulls out of a
/// container.
pub trait Disasm {
    /// The raw container bytes the disassembler reads.
    spec fn buf(&self) -> Seq<u8>;

    /// Decode the whole code segment, one rendered line per instruction.
    /// The result is exactly what `spec_run` says of the container bytes.
    fn disasm(&mut self) -> (r: Result<Vec<String>, DisasmError>)
        ensures
            final(self).buf() == old(self).buf(),
            match r {
                Ok(lines) => spec_run(old(self).buf()) == Ok::<Seq<Seq<char>>, DisasmError>(
                    lines@.map_values(|s: String| s@),
                ),
                Err(e) => spec_run(old(self).buf()) == Err::<Seq<Seq<char>>, DisasmError>(e),
            },
    ;
}

/// The 8086 instruction decoder: a cursor over the code bytes of a
/// container.
pub struct I8086Disasm<T> {
    binary: T,
    text: Option<Vec<u8>>,
    pc: usize,
}

impl<T: BinData> I8086Disasm<T> {
    /// A decoder over the given container, with the cursor at zero.
    pub fn new(bindata: T) -> (r: Self)
        ensures
            r.buf() == bindata.buf(),
    {
        I8086Disasm { binary: bindata, text: None, pc: 0 }
    }
}

impl<T> I8086Disasm<T> {
    /// The `{:04x}: ` program-counter prefix of an output line.
    pub fn get_pc_str(prev_pc: usize) -> (r: String)
        ensures
            r@ == pc_text(prev_pc as nat),
    {
        let mut s = hex_str(prev_pc as u64, 4);
        s.append(": ");
        proof {
            reveal_strlit(": ");
            assert(s@ =~= pc_text(prev_pc as nat));
        }
        s
    }

    /// The raw-byte column: two hex digits per consumed byte, space-padded
    /// to 14 characters.
    pub fn get_rawdata_str(opcode: &OpCode) -> (r: String)
        requires
            opcode.raw@.len() <= MAX_RAW,
        ensures
            r@ == raw_text(opcode.raw@),
    {
        let mut line = String::new();
        let mut i: usize = 0;
        while i < opcode.raw.len()
            invariant
                i <= opcode.raw@.len(),
                line@ == raw_hex(opcode.raw@.take(i as int)),
            decreases opcode.raw@.len() - i,
        {
            let h = hex_str(opcode.raw[i] as u64, 2);
            line.append(h.as_str());
            proof {
                assert(opcode.raw@.take(i + 1).drop_last() =~= opcode.raw@.take(i as int));
                assert(line@ =~= raw_hex(opcode.raw@.take(i + 1)));
            }
            i = i + 1;
        }
        proof {
            assert(opcode.raw@.take(opcode.raw@.len() as int) =~= opcode.raw@);
        }
        let mut j: usize = 2 * opcode.raw.len();
        while j < 14
            invariant
                2 * opcode.raw@.len() <= j <= 14,
                line@ == raw_hex(opcode.raw@) + spaces((j - 2 * opcode.raw@.len()) as nat),
            decreases 14 - j,
        {
            line.append(" ");
            proof {
                reveal_strlit(" ");
                assert(line@ =~= raw_hex(opcode.raw@) + spaces(
                    (j + 1 - 2 * opcode.raw@.len()) as nat,
                ));
            }
            j = j + 1;
        }
        proof {
            assert(line@ =~= raw_text(opcode.raw@));
        }
        line
    }

    /// The register name for width bit `w` and register index `reg`.
    pub fn get_reg_str(w: u8, reg: u8) -> (r: String)
        requires
            w < 2,
            reg < 8,
        ensures
            r@ == reg_name(w, reg),
    {
        if w == 0 {
            if reg == 0 {
                String::from_str("al")
            } else if reg == 1 {
                String::from_str("cl")
            } else if reg == 2 {
                String::from_str("dl")
            } else if reg == 3 {
                String::from_str("bl")
            } else if reg == 4 {
                String::from_str("ah")
            } else if reg == 5 {
                String::from_str("ch")
            } else if reg == 6 {
                String::from_str("dh")
            } else {
                String::from_str("bh")
            }
        } else {
            if reg == 0 {
                String::from_str("ax")
            } else if reg == 1 {
                String::from_str("cx")
            } else if reg == 2 {
                String::from_str("dx")
            } else if reg == 3 {
                String::from_str("bx")
            } else if reg == 4 {
                String::from_str("sp")
            } else if reg == 5 {
                String::from_str("bp")
            } else if reg == 6 {
                String::from_str("si")
            } else {
                String::from_str("di")
            }
        }
    }

    /// The r/m-side operand text: a register name in mode 3, otherwise the
    /// bracketed effective address with its displacement suffix.
    pub fn get_effective_addr(opcode: &OpCode) -> (r: String)
        requires
            opcode.w < 2,
            opcode.md < 4,
            opcode.rm < 8,
        ensures
            r@ == ea_text(opcode.w, opcode.md, opcode.rm, opcode.disp),
    {
        if opcode.md == 3 {
            return Self::get_reg_str(opcode.w, opcode.rm);
        }
        let mem: &'static str = if opcode.rm == 0 {
            "bx+si"
        } else if opcode.rm == 1 {
            "bx+di"
        } else if opcode.rm == 2 {
            "bp+si"
        } else if opcode.rm == 3 {
            "bp+di"
        } else if opcode.rm == 4 {
            "si"
        } else if opcode.rm == 5 {
            "di"
        } else if opcode.rm == 6 {
            if opcode.md == 0 {
                ""
            } else {
                "bp"
            }
        } else {
            "bx"
        };
        proof {
            assert(mem@ == base_name(opcode.md, opcode.rm));
        }
        let mut r = String::from_str("[");
        if opcode.disp != 0 && opcode.md == 0 {
            let h = hex_str((opcode.disp as u16) as u64, 4);
            r.append(h.as_str());
            r.append("]");
        } else if opcode.disp != 0 {
            r.append(mem);
            if opcode.disp >= 0 {
                r.append("+");
            }
            let d = dec_str_i16(opcode.disp);
            r.append(d.as_str());
            r.append("]");
        } else {
            r.append(mem);
            r.append("]");
        }
        proof {
            assert(r@ =~= ea_text(opcode.w, opcode.md, opcode.rm, opcode.disp));
        }
        r
    }

    /// Immediate text under the plain width convention.
    pub fn get_data_str(opcode: &OpCode) -> (r: String)
        requires
            opcode.w < 2,
        ensures
            r@ == data_text(opcode.w, opcode.data),
    {
        if opcode.w == 0 {
            hex_str(opcode.data as u64, 2)
        } else {
            hex_str(opcode.data as u64, 4)
        }
    }

    /// Immediate text under the sign/width convention of the
    /// arithmetic-immediate group.
    pub fn get_sdata_str(opcode: &OpCode) -> (r: String)
        requires
            opcode.s < 2,
            opcode.w == 1,
        ensures
            r@ == sdata_text(opcode.s, opcode.data),
    {
        if opcode.s == 0 {
            hex_str(opcode.data as u64, 4)
        } else {
            hex_str(opcode.data as u64, 2)
        }
    }

    /// Render an `add` line.
    pub fn dump_add(opcode: &OpCode, prev_pc: usize) -> (r: String)
        requires
            opcode.w < 2,
            opcode.d < 2,
            opcode.md < 4,
            opcode.rm < 8,
            opcode.reg < 8,
            opcode.raw@.len() <= MAX_RAW,
        ensures
            r@ == add_line(
                prev_pc as nat,
                opcode.raw@,
                opcode.d,
                opcode.w,
                opcode.reg,
                ea_text(opcode.w, opcode.md, opcode.rm, opcode.disp),
            ),
    {
        let mut line = Self::get_pc_str(prev_pc);
        let rawpart = Self::get_rawdata_str(opcode);
        line.append(rawpart.as_str());
        line.append("add ");
        let reg_str = Self::get_reg_str(opcode.w, opcode.reg);
        let ef_addr = Self::get_effective_addr(opcode);
        if opcode.d == 0 {
            line.append(ef_addr.as_str());
            line.append(", ");
            line.append(reg_str.as_str());
        } else {
            line.append(reg_str.as_str());
            line.append(", ");
            line.append(ef_addr.as_str());
        }
        proof {
            assert(line@ =~= add_line(
                prev_pc as nat,
                opcode.raw@,
                opcode.d,
                opcode.w,
                opcode.reg,
                ea_text(opcode.w, opcode.md, opcode.rm, opcode.disp),
            ));
        }
        line
    }

    /// Render a `sub` line of the arithmetic-immediate group.
    pub fn dump_sub(opcode: &OpCode, prev_pc: usize) -> (r: String)
        requires
            opcode.s < 2,
            opcode.w == 1,
            opcode.md < 4,
            opcode.rm < 8,
            opcode.raw@.len() <= MAX_RAW,
        ensures
            r@ == sub_line(
                prev_pc as nat,
                opcode.raw@,
                ea_text(opcode.w, opcode.md, opcode.rm, opcode.disp),
                opcode.s,
                opcode.data,
            ),
    {
        let mut line = Self::get_pc_str(prev_pc);
        let rawpart = Self::get_rawdata_str(opcode);
        line.append(rawpart.as_str());
        line.append("sub ");
        let ef_addr = Self::get_effective_addr(opcode);
        line.append(ef_addr.as_str());
        line.append(", ");
        let sdata = Self::get_sdata_str(opcode);
        line.append(sdata.as_str());
        proof {
            assert(line@ =~= sub_line(
                prev_pc as nat,
                opcode.raw@,
                ea_text(opcode.w, opcode.md, opcode.rm, opcode.disp),
                opcode.s,
                opcode.data,
            ));
        }
        line
    }

    /// Render a `mov` immediate-to-register line.
    pub fn dump_mov(opcode: &OpCode, prev_pc: usize) -> (r: String)
        requires
            opcode.w < 2,
            opcode.reg < 8,
            opcode.raw@.len() <= MAX_RAW,
        ensures
            r@ == mov_line(prev_pc as nat, opcode.raw@, opcode.w, opcode.reg, opcode.data),
    {
        let mut line = Self::get_pc_str(prev_pc);
        let rawpart = Self::get_rawdata_str(opcode);
        line.append(rawpart.as_str());
        line.append("mov ");
        let reg_str = Self::get_reg_str(opcode.w, opcode.reg);
        line.append(reg_str.as_str());
        line.append(", ");
        let data = Self::get_data_str(opcode);
        line.append(data.as_str());
        proof {
            assert(line@ =~= mov_line(
                prev_pc as nat,
                opcode.raw@,
                opcode.w,
                opcode.reg,
                opcode.data,
            ));
        }
        line
    }

    /// Render an `int` line.
    pub fn dump_int(opcode: &OpCode, prev_pc: usize) -> (r: String)
        requires
            opcode.w == 0,
            opcode.raw@.len() <= MAX_RAW,
        ensures
            r@ == int_line(prev_pc as nat, opcode.raw@, opcode.data),
    {
        let mut line = Self::get_pc_str(prev_pc);
        let rawpart = Self::get_rawdata_str(opcode);
        line.append(rawpart.as_str());
        line.append("int ");
        let data = Self::get_data_str(opcode);
        line.append(data.as_str());
        proof {
            assert(line@ =~= int_line(prev_pc as nat, opcode.raw@, opcode.data));
        }
        line
    }

    /// Render the line for a code segment that ends exactly after an opcode
    /// byte.
    pub fn dump_undefined(opcode: &OpCode, prev_pc: usize) -> (r: String)
        requires
            opcode.raw@.len() <= MAX_RAW,
        ensures
            r@ == undefined_line(prev_pc as nat, opcode.raw@),
    {
        let mut line = Self::get_pc_str(prev_pc);
        let rawpart = Self::get_rawdata_str(opcode);
        line.append(rawpart.as_str());
        line.append("(undefined)");
        proof {
            assert(line@ =~= undefined_line(prev_pc as nat, opcode.raw@));
        }
        line
    }

    /// The code bytes the cursor walks, once they are loaded.
    spec fn code(self) -> Seq<u8>
        recommends
            self.text is Some,
    {
        self.text.unwrap()@
    }

    /// Read one byte at the cursor, record it, and advance.  Fails with
    /// `EndOfInput` when the cursor already stands at the code length, so
    /// the cursor never exceeds it.
    fn fetch(&mut self, opcode: &mut OpCode) -> (r: Result<u8, DisasmError>)
        requires
            old(self).text is Some,
            old(opcode).raw@.len() < MAX_RAW,
        ensures
            final(self).text == old(self).text,
            final(self).binary == old(self).binary,
            final(opcode).ctrl() == old(opcode).ctrl(),
            ({
                let t = old(self).code();
                let p = old(self).pc;
                if p < t.len() {
                    &&& r == Ok::<u8, DisasmError>(t[p as int])
                    &&& final(self).pc == p + 1
                    &&& final(opcode).raw@ == old(opcode).raw@ + t.subrange(p as int, p as int + 1)
                } else {
                    &&& r == Err::<u8, DisasmError>(DisasmError::EndOfInput { offset: p })
                    &&& final(self).pc == p
                    &&& final(opcode).raw@ == old(opcode).raw@
                }
            }),
    {
        if let Some(ary) = &self.text {
            if self.pc < ary.len() {
                let op = ary[self.pc];
                opcode.add_raw_data(op);
                self.pc = self.pc + 1;
                proof {
                    assert(opcode.raw@ =~= old(opcode).raw@ + old(self).code().subrange(
                        old(self).pc as int,
                        old(self).pc as int + 1,
                    ));
                }
                Ok(op)
            } else {
                Err(DisasmError::EndOfInput { offset: self.pc })
            }
        } else {
            Err(DisasmError::EndOfInput { offset: self.pc })
        }
    }

    /// Read two bytes at the cursor as a little-endian word, recording both
    /// in read order.
    fn fetch2(&mut self, opcode: &mut OpCode) -> (r: Result<u16, DisasmError>)
        requires
            old(self).text is Some,
            old(opcode).raw@.len() + 2 <= MAX_RAW,
            old(self).pc <= old(self).code().len(),
        ensures
            final(self).text == old(self).text,
            final(self).binary == old(self).binary,
            final(opcode).ctrl() == old(opcode).ctrl(),
            ({
                let t = old(self).code();
                let p = old(self).pc;
                if p + 2 <= t.len() {
                    &&& r == Ok::<u16, DisasmError>(word_le(t[p as int], t[p as int + 1]))
                    &&& final(self).pc == p + 2
                    &&& final(opcode).raw@ == old(opcode).raw@ + t.subrange(p as int, p as int + 2)
                } else {
                    &&& r == Err::<u16, DisasmError>(
                        DisasmError::EndOfInput { offset: t.len() as usize },
                    )
                    &&& final(self).pc <= t.len()
                }
            }),
    {
        let v1 = match self.fetch(opcode) {
            Ok(b) => b,
            Err(e) => {
                return Err(e);
            },
        };
        let v2 = match self.fetch(opcode) {
            Ok(b) => b,
            Err(e) => {
                return Err(e);
            },
        };
        proof {
            let t = old(self).code();
            let p = old(self).pc as int;
            assert(opcode.raw@ =~= old(opcode).raw@ + t.subrange(p, p + 2));
        }
        Ok((v1 as u16) | ((v2 as u16) << 8))
    }

    /// Fetch the immediate under the plain width convention: one byte
    /// zero-extended for width 0, a word for width 1.  The width flag is 0
    /// or 1 by construction of the opcode map; any other value is an
    /// invariant violation, answered defensively rather than acted on.
    fn set_data(&mut self, opcode: &mut OpCode) -> (r: Result<(), DisasmError>)
        requires
            old(self).text is Some,
            old(opcode).raw@.len() + 2 <= MAX_RAW,
            old(self).pc <= old(self).code().len(),
        ensures
            final(self).text == old(self).text,
            final(self).binary == old(self).binary,
            final(opcode).s == old(opcode).s,
            final(opcode).d == old(opcode).d,
            final(opcode).w == old(opcode).w,
            final(opcode).md == old(opcode).md,
            final(opcode).rm == old(opcode).rm,
            final(opcode).reg == old(opcode).reg,
            final(opcode).disp == old(opcode).disp,
            ({
                let t = old(self).code();
                let p = old(self).pc;
                if old(opcode).w >= 2 {
                    &&& r == Err::<(), DisasmError>(DisasmError::InvariantViolation)
                    &&& final(self).pc == p
                    &&& final(opcode).raw@ == old(opcode).raw@
                    &&& final(opcode).data == old(opcode).data
                } else {
                    let k: nat = if old(opcode).w == 0 {
                        1
                    } else {
                        2
                    };
                    if p + k <= t.len() {
                        &&& r == Ok::<(), DisasmError>(())
                        &&& final(opcode).data == (if old(opcode).w == 0 {
                            t[p as int] as u16
                        } else {
                            word_le(t[p as int], t[p as int + 1])
                        })
                        &&& final(self).pc == p + k
                        &&& final(opcode).raw@ == old(opcode).raw@ + t.subrange(
                            p as int,
                            p as int + k,
                        )
                    } else {
                        &&& r == Err::<(), DisasmError>(
                            DisasmError::EndOfInput { offset: t.len() as usize },
                        )
                        &&& final(self).pc <= t.len()
                    }
                }
            }),
    {
        if opcode.w == 0 {
            match self.fetch(opcode) {
                Ok(b) => {
                    opcode.data = b as u16;
                    Ok(())
                },
                Err(e) => Err(e),
            }
        } else if opcode.w == 1 {
            match self.fetch2(opcode) {
                Ok(v) => {
                    opcode.data = v;
                    Ok(())
                },
                Err(e) => Err(e),
            }
        } else {
            Err(DisasmError::InvariantViolation)
        }
    }

    /// Fetch the immediate of the arithmetic-immediate group: a full word
    /// for sign/width (0, 1), a sign-extended byte for (1, 1).  Any other
    /// sign/width pair is an invariant violation, answered defensively
    /// rather than acted on.
    fn set_sdata(&mut self, opcode: &mut OpCode) -> (r: Result<(), DisasmError>)
        requires
            old(self).text is Some,
            old(opcode).raw@.len() + 2 <= MAX_RAW,
            old(self).pc <= old(self).code().len(),
        ensures
            final(self).text == old(self).text,
            final(self).binary == old(self).binary,
            final(opcode).s == old(opcode).s,
            final(opcode).d == old(opcode).d,
            final(opcode).w == old(opcode).w,
            final(opcode).md == old(opcode).md,
            final(opcode).rm == old(opcode).rm,
            final(opcode).reg == old(opcode).reg,
            final(opcode).disp == old(opcode).disp,
            ({
                let t = old(self).code();
                let p = old(self).pc;
                if old(opcode).w != 1 || old(opcode).s >= 2 {
                    &&& r == Err::<(), DisasmError>(DisasmError::InvariantViolation)
                    &&& final(self).pc == p
                    &&& final(opcode).raw@ == old(opcode).raw@
                    &&& final(opcode).data == old(opcode).data
                } else if old(opcode).s == 0 {
                    if p + 2 <= t.len() {
                        &&& r == Ok::<(), DisasmError>(())
                        &&& final(opcode).data == word_le(t[p as int], t[p as int + 1])
                        &&& final(self).pc == p + 2
                        &&& final(opcode).raw@ == old(opcode).raw@ + t.subrange(
                            p as int,
                            p as int + 2,
                        )
                    } else {
                        &&& r == Err::<(), DisasmError>(
                            DisasmError::EndOfInput { offset: t.len() as usize },
                        )
                        &&& final(self).pc <= t.len()
                    }
                } else {
                    if p + 1 <= t.len() {
                        &&& r == Ok::<(), DisasmError>(())
                        &&& final(opcode).data == sext8(t[p as int])
                        &&& final(self).pc == p + 1
                        &&& final(opcode).raw@ == old(opcode).raw@ + t.subrange(
                            p as int,
                            p as int + 1,
                        )
                    } else {
                        &&& r == Err::<(), DisasmError>(
                            DisasmError::EndOfInput { offset: t.len() as usize },
                        )
                        &&& final(self).pc <= t.len()
                    }
                }
            }),
    {
        if opcode.w != 1 || opcode.s >= 2 {
            return Err(DisasmError::InvariantViolation);
        }
        if opcode.s == 0 {
            match self.fetch2(opcode) {
                Ok(v) => {
                    opcode.data = v;
                    Ok(())
                },
                Err(e) => Err(e),
            }
        } else {
            match self.fetch(opcode) {
                Ok(b) => {
                    let data: u16 = if b >= 0x80 {
                        0xff00u16 + (b as u16)
                    } else {
                        b as u16
                    };
                    opcode.data = data;
                    Ok(())
                },
                Err(e) => Err(e),
            }
        }
    }

    /// Resolve the displacement for already-split mode and r/m fields: a
    /// word for mode 2 and the mode-0 direct-address case, a sign-extended
    /// byte for mode 1, and zero for the other mode-0 cases and for mode 3
    /// (register-direct addressing has no displacement).
    fn resolv_disp(&mut self, opcode: &mut OpCode) -> (r: Result<(), DisasmError>)
        requires
            old(self).text is Some,
            old(opcode).raw@.len() + 2 <= MAX_RAW,
            old(self).pc <= old(self).code().len(),
            old(opcode).md < 4,
            old(opcode).rm < 8,
        ensures
            final(self).text == old(self).text,
            final(self).binary == old(self).binary,
            final(opcode).s == old(opcode).s,
            final(opcode).d == old(opcode).d,
            final(opcode).w == old(opcode).w,
            final(opcode).md == old(opcode).md,
            final(opcode).rm == old(opcode).rm,
            final(opcode).reg == old(opcode).reg,
            final(opcode).data == old(opcode).data,
            ({
                let t = old(self).code();
                let p = old(self).pc;
                let md = old(opcode).md;
                let rm = old(opcode).rm;
                if p + disp_size(md, rm) <= t.len() {
                    &&& r == Ok::<(), DisasmError>(())
                    &&& final(opcode).disp == disp_value(t, p as int, md, rm)
                    &&& final(self).pc == p + disp_size(md, rm)
                    &&& final(opcode).raw@ == old(opcode).raw@ + t.subrange(
                        p as int,
                        p as int + disp_size(md, rm),
                    )
                } else {
                    &&& r == Err::<(), DisasmError>(
                        DisasmError::EndOfInput { offset: t.len() as usize },
                    )
                    &&& final(self).pc <= t.len()
                }
            }),
    {
        if opcode.md == 0 {
            if opcode.rm == 6 {
                match self.fetch2(opcode) {
                    Ok(v) => {
                        opcode.set_disp(v as i16);
                        Ok(())
                    },
                    Err(e) => Err(e),
                }
            } else {
                opcode.set_disp(0);
                proof {
                    assert(opcode.raw@ =~= old(opcode).raw@ + old(self).code().subrange(
                        old(self).pc as int,
                        old(self).pc as int,
                    ));
                }
                Ok(())
            }
        } else if opcode.md == 1 {
            match self.fetch(opcode) {
                Ok(b) => {
                    let v: u16 = if b >= 0x80 {
                        0xff00u16 + (b as u16)
                    } else {
                        b as u16
                    };
                    opcode.set_disp(v as i16);
                    Ok(())
                },
                Err(e) => Err(e),
            }
        } else if opcode.md == 2 {
            match self.fetch2(opcode) {
                Ok(v) => {
                    opcode.set_disp(v as i16);
                    Ok(())
                },
                Err(e) => Err(e),
            }
        } else {
            opcode.set_disp(0);
            proof {
                assert(opcode.raw@ =~= old(opcode).raw@ + old(self).code().subrange(
                    old(self).pc as int,
                    old(self).pc as int,
                ));
            }
            Ok(())
        }
    }

    /// Fetch and split a mod/reg/rm byte, then resolve its displacement.
    fn set_mrr(&mut self, opcode: &mut OpCode) -> (r: Result<(), DisasmError>)
        requires
            old(self).text is Some,
            old(opcode).raw@.len() + 3 <= MAX_RAW,
            old(self).pc <= old(self).code().len(),
        ensures
            final(self).text == old(self).text,
            final(self).binary == old(self).binary,
            final(opcode).s == old(opcode).s,
            final(opcode).d == old(opcode).d,
            final(opcode).w == old(opcode).w,
            final(opcode).data == old(opcode).data,
            ({
                let t = old(self).code();
                let p = old(self).pc;
                if p < t.len() {
                    let mrr = t[p as int];
                    let md = mrr_md(mrr);
                    let reg = mrr_reg(mrr);
                    let rm = mrr_rm(mrr);
                    &&& final(opcode).md == md
                    &&& final(opcode).reg == reg
                    &&& final(opcode).rm == rm
                    &&& if p + 1 + disp_size(md, rm) <= t.len() {
                        &&& r == Ok::<(), DisasmError>(())
                        &&& final(opcode).disp == disp_value(t, p as int + 1, md, rm)
                        &&& final(self).pc == p + 1 + disp_size(md, rm)
                        &&& final(opcode).raw@ == old(opcode).raw@ + t.subrange(
                            p as int,
                            p as int + 1 + disp_size(md, rm),
                        )
                    } else {
                        &&& r == Err::<(), DisasmError>(
                            DisasmError::EndOfInput { offset: t.len() as usize },
                        )
                        &&& final(self).pc <= t.len()
                    }
                } else {
                    &&& r == Err::<(), DisasmError>(DisasmError::EndOfInput { offset: p })
                    &&& final(self).pc == p
                    &&& final(opcode).md == old(opcode).md
                    &&& final(opcode).reg == old(opcode).reg
                    &&& final(opcode).rm == old(opcode).rm
                }
            }),
    {
        let mrr = match self.fetch(opcode) {
            Ok(b) => b,
            Err(e) => {
                return Err(e);
            },
        };
        opcode.md = (mrr >> 6) & 3;
        opcode.reg = (mrr >> 3) & 7;
        opcode.rm = mrr & 7;
        proof {
            lemma_mrr_fields(mrr);
        }
        let r = self.resolv_disp(opcode);
        proof {
            if r is Ok {
                let t = old(self).code();
                let p = old(self).pc as int;
                let md = mrr_md(t[p]);
                let rm = mrr_rm(t[p]);
                assert(opcode.raw@ =~= old(opcode).raw@ + t.subrange(
                    p,
                    p + 1 + disp_size(md, rm),
                ));
            }
        }
        r
    }

    /// Decode and render one instruction of the ADD register/memory family,
    /// whose opcode byte `op` has already been fetched.  Returns the
    /// rendered line and whether decoding stops (the undefined-tail case).
    fn do_add(&mut self, opcode: &mut OpCode, prev_pc: usize, op: u8) -> (r: Result<
        (String, bool),
        DisasmError,
    >)
        requires
            old(self).text is Some,
            prev_pc + 1 == old(self).pc,
            old(self).pc <= old(self).code().len(),
            old(opcode).raw@ == old(self).code().subrange(prev_pc as int, prev_pc as int + 1),
            op == old(self).code()[prev_pc as int],
            op <= 0x03,
        ensures
            final(self).text == old(self).text,
            final(self).binary == old(self).binary,
            ({
                let t = old(self).code();
                match r {
                    Ok(pair) => {
                        &&& spec_step(t, prev_pc as nat) == Ok::<StepOut, DisasmError>(
                            StepOut { line: pair.0@, next: final(self).pc as nat, stop: pair.1 },
                        )
                        &&& prev_pc < final(self).pc <= t.len()
                    },
                    Err(e) => spec_step(t, prev_pc as nat) == Err::<StepOut, DisasmError>(e),
                }
            }),
    {
        let n = if let Some(ary) = &self.text {
            ary.len()
        } else {
            0
        };
        if self.pc == n {
            let line = Self::dump_undefined(opcode, prev_pc);
            proof {
                assert(opcode.raw@ =~= old(self).code().subrange(
                    prev_pc as int,
                    prev_pc as int + 1,
                ));
            }
            return Ok((line, true));
        }
        opcode.w = op & 1;
        opcode.d = (op >> 1) & 1;
        proof {
            assert(op & 1 < 2 && (op >> 1) & 1 < 2) by (bit_vector);
        }
        match self.set_mrr(opcode) {
            Ok(()) => {},
            Err(e) => {
                return Err(e);
            },
        }
        proof {
            lemma_mrr_fields(old(self).code()[prev_pc as int + 1]);
            assert(opcode.raw@ =~= old(self).code().subrange(prev_pc as int, self.pc as int));
        }
        let line = Self::dump_add(opcode, prev_pc);
        Ok((line, false))
    }

    /// Decode and render one instruction of the arithmetic-immediate group
    /// (rendered as `sub`), whose opcode byte `op` has already been
    /// fetched.
    fn do_sub(&mut self, opcode: &mut OpCode, prev_pc: usize, op: u8) -> (r: Result<
        (String, bool),
        DisasmError,
    >)
        requires
            old(self).text is Some,
            prev_pc + 1 == old(self).pc,
            old(self).pc <= old(self).code().len(),
            old(opcode).raw@ == old(self).code().subrange(prev_pc as int, prev_pc as int + 1),
            op == old(self).code()[prev_pc as int],
            0x80 <= op <= 0x83,
        ensures
            final(self).text == old(self).text,
            final(self).binary == old(self).binary,
            ({
                let t = old(self).code();
                match r {
                    Ok(pair) => {
                        &&& spec_step(t, prev_pc as nat) == Ok::<StepOut, DisasmError>(
                            StepOut { line: pair.0@, next: final(self).pc as nat, stop: pair.1 },
                        )
                        &&& prev_pc < final(self).pc <= t.len()
                    },
                    Err(e) => spec_step(t, prev_pc as nat) == Err::<StepOut, DisasmError>(e),
                }
            }),
    {
        opcode.s = (op >> 1) & 1;
        opcode.w = op & 1;
        proof {
            assert(op & 1 < 2 && (op >> 1) & 1 < 2) by (bit_vector);
        }
        match self.set_mrr(opcode) {
            Ok(()) => {},
            Err(e) => {
                return Err(e);
            },
        }
        proof {
            lemma_mrr_fields(old(self).code()[prev_pc as int + 1]);
        }
        match self.set_sdata(opcode) {
            Ok(()) => {},
            Err(e) => {
                return Err(e);
            },
        }
        proof {
            assert(opcode.raw@ =~= old(self).code().subrange(prev_pc as int, self.pc as int));
        }
        let line = Self::dump_sub(opcode, prev_pc);
        Ok((line, false))
    }

    /// Decode and render one MOV immediate-to-register instruction, whose
    /// opcode byte `op` has already been fetched.
    fn do_mov(&mut self, opcode: &mut OpCode, prev_pc: usize, op: u8) -> (r: Result<
        (String, bool),
        DisasmError,
    >)
        requires
            old(self).text is Some,
            prev_pc + 1 == old(self).pc,
            old(self).pc <= old(self).code().len(),
            old(opcode).raw@ == old(self).code().subrange(prev_pc as int, prev_pc as int + 1),
            op == old(self).code()[prev_pc as int],
            0xb0 <= op <= 0xbf,
        ensures
            final(self).text == old(self).text,
            final(self).binary == old(self).binary,
            ({
                let t = old(self).code();
                match r {
                    Ok(pair) => {
                        &&& spec_step(t, prev_pc as nat) == Ok::<StepOut, DisasmError>(
                            StepOut { line: pair.0@, next: final(self).pc as nat, stop: pair.1 },
                        )
                        &&& prev_pc < final(self).pc <= t.len()
                    },
                    Err(e) => spec_step(t, prev_pc as nat) == Err::<StepOut, DisasmError>(e),
                }
            }),
    {
        opcode.w = (op >> 3) & 1;
        opcode.reg = op & 7;
        proof {
            assert((op >> 3) & 1 < 2 && op & 7 < 8) by (bit_vector);
        }
        match self.set_data(opcode) {
            Ok(()) => {},
            Err(e) => {
                return Err(e);
            },
        }
        proof {
            assert(opcode.raw@ =~= old(self).code().subrange(prev_pc as int, self.pc as int));
        }
        let line = Self::dump_mov(opcode, prev_pc);
        Ok((line, false))
    }

    /// Decode and render one INT instruction, whose opcode byte has already
    /// been fetched; the interrupt vector is one byte.
    fn do_int(&mut self, opcode: &mut OpCode, prev_pc: usize) -> (r: Result<
        (String, bool),
        DisasmError,
    >)
        requires
            old(self).text is Some,
            prev_pc + 1 == old(self).pc,
            old(self).pc <= old(self).code().len(),
            old(opcode).raw@ == old(self).code().subrange(prev_pc as int, prev_pc as int + 1),
            old(self).code()[prev_pc as int] == 0xcd,
            old(opcode).w == 0,
        ensures
            final(self).text == old(self).text,
            final(self).binary == old(self).binary,
            ({
                let t = old(self).code();
                match r {
                    Ok(pair) => {
                        &&& spec_step(t, prev_pc as nat) == Ok::<StepOut, DisasmError>(
                            StepOut { line: pair.0@, next: final(self).pc as nat, stop: pair.1 },
                        )
                        &&& prev_pc < final(self).pc <= t.len()
                    },
                    Err(e) => spec_step(t, prev_pc as nat) == Err::<StepOut, DisasmError>(e),
                }
            }),
    {
        match self.set_data(opcode) {
            Ok(()) => {},
            Err(e) => {
                return Err(e);
            },
        }
        proof {
            assert(opcode.raw@ =~= old(self).code().subrange(prev_pc as int, self.pc as int));
        }
        let line = Self::dump_int(opcode, prev_pc);
        Ok((line, false))
    }

    /// Handle a byte outside every dispatch range: an undefined line at the
    /// exact end of the code segment, otherwise fatal.
    fn do_unknown(&mut self, opcode: &mut OpCode, prev_pc: usize, op: u8) -> (r: Result<
        (String, bool),
        DisasmError,
    >)
        requires
            old(self).text is Some,
            prev_pc + 1 == old(self).pc,
            old(self).pc <= old(self).code().len(),
            old(opcode).raw@ == old(self).code().subrange(prev_pc as int, prev_pc as int + 1),
            op == old(self).code()[prev_pc as int],
            !(op <= 0x03),
            !(0x80 <= op <= 0x83),
            !(0xb0 <= op <= 0xbf),
            op != 0xcd,
        ensures
            final(self).text == old(self).text,
            final(self).binary == old(self).binary,
            ({
                let t = old(self).code();
                match r {
                    Ok(pair) => {
                        &&& spec_step(t, prev_pc as nat) == Ok::<StepOut, DisasmError>(
                            StepOut { line: pair.0@, next: final(self).pc as nat, stop: pair.1 },
                        )
                        &&& prev_pc < final(self).pc <= t.len()
                    },
                    Err(e) => spec_step(t, prev_pc as nat) == Err::<StepOut, DisasmError>(e),
                }
            }),
    {
        let n = if let Some(ary) = &self.text {
            ary.len()
        } else {
            0
        };
        if self.pc == n {
            let line = Self::dump_undefined(opcode, prev_pc);
            proof {
                assert(opcode.raw@ =~= old(self).code().subrange(
                    prev_pc as int,
                    prev_pc as int + 1,
                ));
            }
            Ok((line, true))
        } else {
            Err(DisasmError::UnrecognizedOpcode { offset: prev_pc, byte: op })
        }
    }
}

impl<T: BinData> Disasm for I8086Disasm<T> {
    closed spec fn buf(&self) -> Seq<u8> {
        self.binary.buf()
    }

    fn disasm(&mut self) -> (r: Result<Vec<String>, DisasmError>) {
        let ghost b0: Seq<u8> = self.buf();
        let text = match self.binary.get_text() {
            Ok(t) => t,
            Err(e) => {
                return Err(e);
            },
        };
        let n = text.len();
        let ghost tc: Seq<u8> = text@;
        self.text = Some(text);
        self.pc = 0;
        let mut lines: Vec<String> = Vec::new();
        let mut opcode = OpCode::new();
        loop
            invariant
                self.text is Some,
                self.text.unwrap()@ == tc,
                self.buf() == b0,
                old(self).buf() == b0,
                container_ok(b0),
                tc == code_of(b0),
                n == tc.len(),
                self.pc <= n,
                opcode.raw@.len() == 0,
                opcode.w == 0,
                match decode_from(tc, self.pc as nat) {
                    Ok(rest) => decode_from(tc, 0) == Ok::<Seq<Seq<char>>, DisasmError>(
                        lines@.map_values(|s: String| s@) + rest,
                    ),
                    Err(e) => decode_from(tc, 0) == Err::<Seq<Seq<char>>, DisasmError>(e),
                },
            decreases n - self.pc,
        {
            let ghost pc0: nat = self.pc as nat;
            let ghost lm0: Seq<Seq<char>> = lines@.map_values(|s: String| s@);
            let prev_pc = self.pc;
            let op = match self.fetch(&mut opcode) {
                Ok(b) => b,
                Err(e) => {
                    return Err(e);
                },
            };
            proof {
                assert(opcode.raw@ =~= tc.subrange(prev_pc as int, prev_pc as int + 1));
            }
            let stepped = if op <= 0x03 {
                self.do_add(&mut opcode, prev_pc, op)
            } else if 0x80 <= op && op <= 0x83 {
                self.do_sub(&mut opcode, prev_pc, op)
            } else if 0xb0 <= op && op <= 0xbf {
                self.do_mov(&mut opcode, prev_pc, op)
            } else if op == 0xcd {
                self.do_int(&mut opcode, prev_pc)
            } else {
                self.do_unknown(&mut opcode, prev_pc, op)
            };
            let (line, stop) = match stepped {
                Ok(pair) => pair,
                Err(e) => {
                    proof {
                        lemma_decode_err(tc, pc0, e);
                    }
                    return Err(e);
                },
            };
            let ghost lv: Seq<char> = line@;
            let ghost st = StepOut { line: lv, next: self.pc as nat, stop };
            lines.push(line);
            proof {
                assert(lines@.map_values(|s: String| s@) =~= lm0 + seq![lv]);
            }
            if stop || self.pc == n {
                proof {
                    lemma_decode_last(tc, pc0, st);
                }
                return Ok(lines);
            }
            proof {
                lemma_decode_cons(tc, pc0, st);
                assert(lm0 + (seq![lv] + (match decode_from(tc, st.next) {
                    Ok(rest) => rest,
                    Err(_) => seq![],
                })) =~= (lm0 + seq![lv]) + (match decode_from(tc, st.next) {
                    Ok(rest) => rest,
                    Err(_) => seq![],
                }));
            }
            opcode.clear();
        }
    }
}

} // verus!
