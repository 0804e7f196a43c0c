use cpu_simulator::assembler::{assemble, assemble_checked, assemble_line, AsmError};
use cpu_simulator::isa::{decode, InstrFormat, Opcode};

fn words(src: &str) -> Vec<u32> {
    match assemble(src) {
        Ok(w) => w,
        Err(e) => panic!("assembly failed: {}", e.message()),
    }
}

fn err_text(src: &str) -> String {
    match assemble(src) {
        Ok(_) => panic!("expected an error"),
        Err(e) => e.message(),
    }
}

#[test]
fn addi_encodes_as_i_type() {
    assert_eq!(words("addi x1, x0, 42"), vec![0x02a0_0093]);
}

#[test]
fn register_register_encodings() {
    assert_eq!(words("add x3, x1, x2"), vec![0x0020_81b3]);
    assert_eq!(words("sub x3, x1, x2"), vec![0x4020_81b3]);
}

#[test]
fn abi_register_names() {
    assert_eq!(words("add a0, sp, ra"), vec![0x0011_0533]);
    assert_eq!(words("add s0, fp, zero"), words("add x8, x8, x0"));
    assert_eq!(words("add t6, s11, a7"), words("add x31, x27, x17"));
}

#[test]
fn loads_and_stores() {
    assert_eq!(words("lw x5, 8(x2)"), vec![0x0081_2283]);
    assert_eq!(words("sw x5, 8(x2)"), vec![0x0051_2423]);
    // An offset that does not parse counts as zero.
    assert_eq!(words("lw x1, (x2)"), vec![0x0001_2083]);
}

#[test]
fn pseudo_instructions() {
    assert_eq!(words("nop"), vec![0x0000_0013]);
    assert_eq!(words("li x1, -1"), vec![0xfff0_0093]);
    assert_eq!(words("mv x2, x1"), vec![0x0000_8113]);
    assert_eq!(words("ret"), vec![0x0000_8067]);
    assert_eq!(words("jr x1"), vec![0x0000_8067]);
    assert_eq!(words("not x1, x2"), vec![0xfff1_4093]);
    assert_eq!(words("neg x1, x2"), vec![0x4020_00b3]);
}

#[test]
fn shift_right_arithmetic_immediate_carries_its_marker() {
    assert_eq!(words("srai x1, x2, 3"), vec![0x4031_5093]);
    assert_eq!(words("srli x1, x2, 3"), vec![0x0031_5093]);
}

#[test]
fn upper_immediate_and_jumps() {
    assert_eq!(words("lui x5, 0x12345000"), vec![0x1234_52b7]);
    assert_eq!(words("jal x1, 8"), vec![0x0080_00ef]);
}

#[test]
fn branch_to_earlier_label() {
    let w = words("start:\n  addi x1, x0, 1\n  beq x1, x0, start\n");
    assert_eq!(w, vec![0x0010_0093, 0xfe00_8ee3]);
}

#[test]
fn label_offsets_are_relative_to_the_instruction() {
    let w = words("j end\nnop\nnop\nend:\nnop");
    // end is at 12, the jump at 0
    let d = decode(w[0]).unwrap();
    assert_eq!(d.opcode, Opcode::Jal);
    assert_eq!(d.imm, 12);
    assert_eq!(w.len(), 4);
}

#[test]
fn later_label_definition_wins() {
    let w = words("a:\nnop\na:\nj a");
    assert_eq!(w, vec![0x13, 0x6f]);
}

#[test]
fn comments_and_blank_lines_are_ignored() {
    let w = words("  # a comment\n\naddi x1, x0, 1 # set x1\r\n\n");
    assert_eq!(w, vec![0x0010_0093]);
}

#[test]
fn immediates_in_hex_and_with_signs() {
    assert_eq!(words("addi x1, x0, 0x10"), words("addi x1, x0, 16"));
    assert_eq!(words("addi x1, x0, 0X10"), words("addi x1, x0, 16"));
    assert_eq!(words("addi x1, x0, +5"), words("addi x1, x0, 5"));
    assert_eq!(words("addi x1, x0, 0x-10"), words("addi x1, x0, -16"));
}

#[test]
fn register_numbers_take_an_optional_plus() {
    assert_eq!(words("addi x+5, x0, 1"), words("addi x5, x0, 1"));
}

#[test]
fn unknown_instruction_error() {
    assert_eq!(err_text("foo x1, x2"), "unknown instruction: foo");
    assert_eq!(err_text("loop: nop"), "unknown instruction: loop:");
}

#[test]
fn unknown_register_error() {
    assert_eq!(err_text("add x1, x2, y3"), "unknown register: y3");
    assert_eq!(err_text("add x1, x2, x256"), "unknown register: x256");
    assert_eq!(err_text("add x32, x0, x0"), "unknown register: x32");
    assert_eq!(words("add x31, x0, x0"), vec![0x0000_0fb3]);
    assert_eq!(err_text("add x1, x2, x-1"), "unknown register: x-1");
}

#[test]
fn bad_operands_error() {
    assert_eq!(err_text("add x1, x2"), "bad operands: x1, x2");
    assert_eq!(err_text("lw x1 4(x2)"), "bad operands: x1 4(x2)");
    assert_eq!(err_text("lw x1, 4x2"), "bad operands: 4x2");
}

#[test]
fn undefined_label_error() {
    assert_eq!(err_text("beq x1, x2, nowhere"), "undefined label: nowhere");
    // too large for an i32, so it is taken for a label
    assert_eq!(err_text("addi x1, x0, 0xffffffff"), "undefined label: 0xffffffff");
}

#[test]
fn branch_target_is_resolved_before_the_registers() {
    assert_eq!(err_text("beq y1, x2, nowhere"), "undefined label: nowhere");
}

#[test]
fn first_error_stops_assembly() {
    match assemble("nop\nbad1\nbad2") {
        Err(AsmError::UnknownInstruction(s)) => assert_eq!(s, "bad1"),
        _ => panic!("expected the first error"),
    }
}

#[test]
fn memory_operand_with_parens_reversed_is_refused() {
    assert!(assemble_checked("lw x1, 4)(x2").is_none());
    assert!(assemble_checked("lw x1, 4(x2)").is_some());
}

#[test]
fn error_variants_carry_their_text() {
    match assemble("add x1, x2") {
        Err(AsmError::BadOperands(s)) => assert_eq!(s, "x1, x2"),
        _ => panic!("expected BadOperands"),
    }
    match assemble("jal q, 0") {
        Err(AsmError::UnknownRegister(s)) => assert_eq!(s, "q"),
        _ => panic!("expected UnknownRegister"),
    }
    match assemble("j elsewhere") {
        Err(AsmError::UndefinedLabel(s)) => assert_eq!(s, "elsewhere"),
        _ => panic!("expected UndefinedLabel"),
    }
}

#[test]
fn decoder_reads_back_what_the_assembler_writes() {
    let w = words("addi x7, x3, -5\nsub x1, x2, x3\nbeq x4, x5, 8\nlui x6, 0x7000\nlb x2, -3(x9)");
    let d = decode(w[0]).unwrap();
    assert_eq!((d.opcode, d.format, d.rd, d.rs1, d.imm), (Opcode::Addi, InstrFormat::I, 7, 3, -5));
    let d = decode(w[1]).unwrap();
    assert_eq!((d.opcode, d.rd, d.rs1, d.rs2), (Opcode::Sub, 1, 2, 3));
    let d = decode(w[2]).unwrap();
    assert_eq!((d.opcode, d.format, d.rs1, d.rs2, d.imm), (Opcode::Beq, InstrFormat::B, 4, 5, 8));
    let d = decode(w[3]).unwrap();
    assert_eq!((d.opcode, d.rd, d.imm), (Opcode::Lui, 6, 0x7000));
    let d = decode(w[4]).unwrap();
    assert_eq!((d.opcode, d.rd, d.rs1, d.imm), (Opcode::Lb, 2, 9, -3));
}

#[test]
fn negative_store_offsets_come_back_whole() {
    let w = words("sw x1, -4(x2)");
    assert_eq!(w, vec![0xfe11_2e23]);
    let d = decode(w[0]).unwrap();
    assert_eq!(d.opcode, Opcode::Sw);
    assert_eq!(d.imm, -4);
}

#[test]
fn pseudo_lines_match_their_base_lines() {
    assert_eq!(words("nop"), words("addi x0, x0, 0"));
    assert_eq!(words("mv x5, x6"), words("addi x5, x6, 0"));
    assert_eq!(words("li x7, 300"), words("addi x7, x0, 300"));
    assert_eq!(words("j end\nnop\nend:"), words("jal x0, end\nnop\nend:"));
    assert_eq!(words("jr x9"), words("jalr x0, x9, 0"));
    assert_eq!(words("ret"), words("jalr x0, x1, 0"));
    assert_eq!(words("not x3, x4"), words("xori x3, x4, -1"));
    assert_eq!(words("neg x3, x4"), words("sub x3, x0, x4"));
}

#[test]
fn assembled_program_decodes_line_by_line() {
    let src = "start:\n  add x3, x1, x2\n  lw x5, -8(x2)  # load\n  sw x5, 12(x3)\n  beq x1, x2, start\n  slli x4, x4, 7\n  lui x6, 0x12345000\n  jal ra, start";
    let ws = words(src);
    assert_eq!(ws.len(), 7);
    let d: Vec<_> = ws.iter().map(|w| decode(*w).unwrap()).collect();
    assert_eq!((d[0].opcode, d[0].rd, d[0].rs1, d[0].rs2), (Opcode::Add, 3, 1, 2));
    assert_eq!((d[1].opcode, d[1].rd, d[1].rs1, d[1].imm), (Opcode::Lw, 5, 2, -8));
    assert_eq!((d[2].opcode, d[2].rs1, d[2].rs2, d[2].imm), (Opcode::Sw, 3, 5, 12));
    assert_eq!((d[3].opcode, d[3].rs1, d[3].rs2, d[3].imm), (Opcode::Beq, 1, 2, -12));
    assert_eq!((d[4].opcode, d[4].rd, d[4].rs1, d[4].imm & 31), (Opcode::Slli, 4, 4, 7));
    assert_eq!((d[5].opcode, d[5].rd, d[5].imm), (Opcode::Lui, 6, 0x1234_5000));
    assert_eq!((d[6].opcode, d[6].rd, d[6].imm), (Opcode::Jal, 1, -24));
    assert_eq!(d[0].format, InstrFormat::R);
}

fn line_word(line: &str, pc: u32) -> u32 {
    let labels: Vec<(Vec<char>, u32)> = vec![("top".chars().collect(), 0)];
    match assemble_line(&line.chars().collect(), pc, &labels) {
        Some(Ok(w)) => w,
        _ => panic!("line did not assemble: {}", line),
    }
}

#[test]
fn assemble_line_pseudo_forms_match_base_forms() {
    assert_eq!(line_word("nop", 0), 0x0000_0013);
    assert_eq!(line_word("nop", 0), line_word("addi x0, x0, 0", 0));
    assert_eq!(line_word("j top", 8), line_word("jal x0, top", 8));
    assert_eq!(line_word("not a0, a1", 4), line_word("xori a0, a1, -1", 4));
    let d = decode(line_word("beq x1, x2, top", 8)).unwrap();
    assert_eq!((d.opcode, d.rs1, d.rs2, d.imm), (Opcode::Beq, 1, 2, -8));
}
