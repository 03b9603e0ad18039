use minix_disasm::binary::{BinData, MinixBinData};
use minix_disasm::disasm::{Disasm, I8086Disasm, OpCode};
use minix_disasm::{read_int, start, DisasmError};

/// Build a container: a 32-byte header whose code-length field at offset 8
/// holds `code.len()` little-endian, followed by the code bytes.
fn container(code: &[u8]) -> Vec<u8> {
    let mut buf = vec![0u8; 32];
    let n = code.len() as u32;
    buf[8] = (n & 0xff) as u8;
    buf[9] = ((n >> 8) & 0xff) as u8;
    buf[10] = ((n >> 16) & 0xff) as u8;
    buf[11] = ((n >> 24) & 0xff) as u8;
    buf.extend_from_slice(code);
    buf
}

fn run(code: &[u8]) -> Result<Vec<String>, DisasmError> {
    let bin = MinixBinData::new(container(code));
    let dis = I8086Disasm::new(bin);
    start(dis)
}

#[test]
fn read_int_is_little_endian() {
    let buf = [0x78u8, 0x56, 0x34, 0x12];
    assert_eq!(read_int(&buf, 0), 0x12345678);
    assert_eq!(MinixBinData::read_int(&buf, 0), 0x12345678);
}

#[test]
fn read_int_at_offset() {
    let buf = [0u8, 0, 0x01, 0x02, 0x03, 0x04];
    assert_eq!(read_int(&buf, 2), 0x04030201);
}

#[test]
fn text_len_reads_header_field() {
    let buf = container(&[0x90, 0x90, 0x90]);
    let bin = MinixBinData::new(buf);
    assert_eq!(bin.get_text_len(), Ok(3));
}

#[test]
fn text_len_fails_on_short_buffer() {
    let bin = MinixBinData::new(vec![0u8; 11]);
    assert_eq!(bin.get_text_len(), Err(DisasmError::OutOfBounds));
}

#[test]
fn data_len_reads_header_field() {
    let mut buf = container(&[]);
    buf[12] = 0x2a;
    let bin = MinixBinData::new(buf);
    assert_eq!(bin.get_data_len(), Ok(0x2a));
}

#[test]
fn code_view_matches_code_length() {
    let code = [0xb8u8, 0x34, 0x12, 0xcd, 0x21];
    let bin = MinixBinData::new(container(&code));
    let text = bin.get_text().unwrap();
    assert_eq!(text.len() as u32, bin.get_text_len().unwrap());
    assert_eq!(text, code.to_vec());
}

#[test]
fn code_view_fails_when_length_overruns_buffer() {
    let mut buf = container(&[0x90]);
    buf[8] = 0x05;
    let bin = MinixBinData::new(buf);
    assert_eq!(bin.get_text(), Err(DisasmError::OutOfBounds));
}

#[test]
fn code_view_fails_without_header_room() {
    let bin = MinixBinData::new(vec![0u8; 12]);
    assert_eq!(bin.get_text(), Err(DisasmError::OutOfBounds));
}

#[test]
fn mov_word_immediate_to_register() {
    let lines = run(&[0xb8, 0x34, 0x12]).unwrap();
    assert_eq!(lines, vec!["0000: b83412        mov ax, 1234"]);
}

#[test]
fn int_with_byte_vector() {
    let lines = run(&[0xcd, 0x21]).unwrap();
    assert_eq!(lines, vec!["0000: cd21          int 21"]);
}

#[test]
fn add_direct_address() {
    let lines = run(&[0x03, 0x06, 0x10, 0x00]).unwrap();
    assert_eq!(lines, vec!["0000: 03061000      add ax, [0010]"]);
}

#[test]
fn sub_register_direct_byte_immediate() {
    let lines = run(&[0x83, 0xc6, 0x0a]).unwrap();
    assert_eq!(lines, vec!["0000: 83c60a        sub si, 0a"]);
}

#[test]
fn sub_then_undefined_tail() {
    let lines = run(&[0x83, 0xc6, 0x05, 0x0a]).unwrap();
    assert_eq!(
        lines,
        vec!["0000: 83c605        sub si, 05", "0003: 0a            (undefined)"]
    );
}

#[test]
fn undefined_tail_after_add_opcode() {
    let lines = run(&[0x02]).unwrap();
    assert_eq!(lines, vec!["0000: 02            (undefined)"]);
}

#[test]
fn sign_extension_of_ff_shows_full_word() {
    let lines = run(&[0x83, 0xc6, 0xff]).unwrap();
    assert_eq!(lines, vec!["0000: 83c6ff        sub si, ffff"]);
}

#[test]
fn sign_extension_of_7f_stays_small() {
    let lines = run(&[0x83, 0xc6, 0x7f]).unwrap();
    assert_eq!(lines, vec!["0000: 83c67f        sub si, 7f"]);
}

#[test]
fn mov_byte_immediate_to_register() {
    let lines = run(&[0xb0, 0xff]).unwrap();
    assert_eq!(lines, vec!["0000: b0ff          mov al, ff"]);
}

#[test]
fn add_register_direct_operands() {
    let lines = run(&[0x01, 0xd8]).unwrap();
    assert_eq!(lines, vec!["0000: 01d8          add ax, bx"]);
}

#[test]
fn add_negative_byte_displacement() {
    let lines = run(&[0x03, 0x46, 0xfb]).unwrap();
    assert_eq!(lines, vec!["0000: 0346fb        add ax, [bp-5]"]);
}

#[test]
fn add_positive_byte_displacement() {
    let lines = run(&[0x03, 0x46, 0x05]).unwrap();
    assert_eq!(lines, vec!["0000: 034605        add ax, [bp+5]"]);
}

#[test]
fn add_word_displacement_to_memory() {
    let lines = run(&[0x01, 0x88, 0x34, 0x12]).unwrap();
    assert_eq!(lines, vec!["0000: 01883412      add [bx+si+4660], cx"]);
}

#[test]
fn add_zero_direct_address_has_empty_base() {
    let lines = run(&[0x03, 0x06, 0x00, 0x00]).unwrap();
    assert_eq!(lines, vec!["0000: 03060000      add ax, []"]);
}

#[test]
fn sub_full_word_immediate() {
    let lines = run(&[0x81, 0xc6, 0x34, 0x12]).unwrap();
    assert_eq!(lines, vec!["0000: 81c63412      sub si, 1234"]);
}

#[test]
fn program_counter_advances_between_lines() {
    let lines = run(&[0xb8, 0x34, 0x12, 0xcd, 0x21]).unwrap();
    assert_eq!(
        lines,
        vec!["0000: b83412        mov ax, 1234", "0003: cd21          int 21"]
    );
}

#[test]
fn unrecognized_opcode_before_end_is_fatal() {
    assert_eq!(
        run(&[0xff, 0x00]),
        Err(DisasmError::UnrecognizedOpcode { offset: 0, byte: 0xff })
    );
}

#[test]
fn unrecognized_opcode_at_exact_end_renders_undefined() {
    let lines = run(&[0xb0, 0x01, 0xff]).unwrap();
    assert_eq!(
        lines,
        vec!["0000: b001          mov al, 01", "0002: ff            (undefined)"]
    );
}

#[test]
fn truncated_mov_fails_with_end_of_input() {
    assert_eq!(run(&[0xb8, 0x34]), Err(DisasmError::EndOfInput { offset: 2 }));
}

#[test]
fn truncated_int_fails_with_end_of_input() {
    assert_eq!(run(&[0xcd]), Err(DisasmError::EndOfInput { offset: 1 }));
}

#[test]
fn truncated_sub_group_fails_with_end_of_input() {
    assert_eq!(run(&[0x80]), Err(DisasmError::EndOfInput { offset: 1 }));
}

#[test]
fn byte_width_sub_group_is_invariant_violation() {
    assert_eq!(run(&[0x80, 0xc0, 0x05]), Err(DisasmError::InvariantViolation));
}

#[test]
fn empty_code_segment_fails_with_end_of_input() {
    assert_eq!(run(&[]), Err(DisasmError::EndOfInput { offset: 0 }));
}

#[test]
fn decoding_is_deterministic_across_runs() {
    let code = [0xb8u8, 0x34, 0x12, 0x03, 0x46, 0xfb, 0xcd, 0x21];
    let first = run(&code);
    let second = run(&code);
    assert_eq!(first, second);
}

#[test]
fn rerunning_one_decoder_gives_identical_lines() {
    let bin = MinixBinData::new(container(&[0xb8, 0x34, 0x12]));
    let mut dis = I8086Disasm::new(bin);
    let first = dis.disasm().unwrap();
    let second = dis.disasm().unwrap();
    assert_eq!(first, second);
}

#[test]
fn register_names_follow_the_8086_table() {
    assert_eq!(I8086Disasm::<MinixBinData>::get_reg_str(0, 0), "al");
    assert_eq!(I8086Disasm::<MinixBinData>::get_reg_str(0, 4), "ah");
    assert_eq!(I8086Disasm::<MinixBinData>::get_reg_str(1, 0), "ax");
    assert_eq!(I8086Disasm::<MinixBinData>::get_reg_str(1, 4), "sp");
    assert_eq!(I8086Disasm::<MinixBinData>::get_reg_str(1, 7), "di");
}

#[test]
fn pc_prefix_is_four_hex_digits() {
    assert_eq!(I8086Disasm::<MinixBinData>::get_pc_str(0x1f), "001f: ");
    assert_eq!(I8086Disasm::<MinixBinData>::get_pc_str(0), "0000: ");
}

fn opcode_with(w: u8, data: u16, raw: Vec<u8>) -> OpCode {
    OpCode { s: 0, d: 0, w, md: 0, rm: 0, reg: 0, data, disp: 0, raw }
}

#[test]
fn byte_immediate_renders_in_two_digits() {
    let op = opcode_with(0, 0x0a, vec![]);
    assert_eq!(I8086Disasm::<MinixBinData>::get_data_str(&op), "0a");
}

#[test]
fn word_immediate_renders_in_four_digits() {
    let op = opcode_with(1, 0x0a, vec![]);
    assert_eq!(I8086Disasm::<MinixBinData>::get_data_str(&op), "000a");
}

#[test]
fn raw_column_pads_to_fourteen_characters() {
    let op = opcode_with(0, 0, vec![0xb8, 0x34, 0x12]);
    assert_eq!(I8086Disasm::<MinixBinData>::get_rawdata_str(&op), "b83412        ");
}

#[test]
fn clear_resets_every_field() {
    let mut op = OpCode {
        s: 1,
        d: 1,
        w: 1,
        md: 2,
        rm: 6,
        reg: 3,
        data: 0x1234,
        disp: -5,
        raw: vec![0x83, 0xc6],
    };
    op.clear();
    assert_eq!(
        (op.s, op.d, op.w, op.md, op.rm, op.reg, op.data, op.disp),
        (0, 0, 0, 0, 0, 0, 0, 0)
    );
    assert!(op.raw.is_empty());
}

#[test]
fn register_direct_after_nonzero_displacement_shows_no_displacement() {
    let lines = run(&[0x03, 0x46, 0x05, 0x01, 0xd8]).unwrap();
    assert_eq!(
        lines,
        vec!["0000: 034605        add ax, [bp+5]", "0003: 01d8          add ax, bx"]
    );
}
