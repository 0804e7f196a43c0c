//! The RV32I base integer instruction set: opcodes, instruction formats and
//! the decoder from raw 32-bit instruction words.
use vstd::prelude::*;
use crate::utils::text::{dec_text, idec_text, push_dec, push_idec, push_str};

verus! {

/// Every RV32I instruction that the simulators understand.
#[derive(Clone, Copy, Debug, PartialEq, Eq, Hash, Structural)]
pub enum Opcode {
    // R-type
    Add, Sub, And, Or, Xor, Sll, Srl, Sra, Slt, Sltu,
    // I-type ALU
    Addi, Andi, Ori, Xori, Slli, Srli, Srai, Slti, Sltiu,
    // Loads
    Lb, Lh, Lw, Lbu, Lhu,
    // Stores
    Sb, Sh, Sw,
    // Branches
    Beq, Bne, Blt, Bge, Bltu, Bgeu,
    // Jumps
    Jal, Jalr,
    // Upper immediate
    Lui, Auipc,
}

/// The encoding layout of an instruction word.
#[derive(Clone, Copy, Debug, PartialEq, Eq, Structural)]
pub enum InstrFormat { R, I, S, B, U, J }

/// The fields of a decoded instruction.
#[derive(Clone, Copy, Debug, PartialEq, Eq, Structural)]
pub struct DecodedInstr {
    pub opcode: Opcode,
    pub format: InstrFormat,
    pub rd: u8,
    pub rs1: u8,
    pub rs2: u8,
    pub imm: i32,
}

/// A value to be written back to the destination register of an instruction.
pub struct InstResult {
    pub rd: u8,
    pub result: u32,
    pub format: InstrFormat,
}

// ── Fields of an instruction word ───────────────────────────────────────────

/// Bits 6..0: the major opcode.
pub open spec fn opcode_bits(word: u32) -> u32 { word & 0x7f }

/// Bits 11..7: the destination register.
pub open spec fn rd_field(word: u32) -> u8 { ((word >> 7u32) & 0x1f) as u8 }

/// Bits 14..12.
pub open spec fn funct3_field(word: u32) -> u8 { ((word >> 12u32) & 0x07) as u8 }

/// Bits 19..15: the first source register.
pub open spec fn rs1_field(word: u32) -> u8 { ((word >> 15u32) & 0x1f) as u8 }

/// Bits 24..20: the second source register.
pub open spec fn rs2_field(word: u32) -> u8 { ((word >> 20u32) & 0x1f) as u8 }

/// Bits 31..25.
pub open spec fn funct7_field(word: u32) -> u8 { ((word >> 25u32) & 0x7f) as u8 }

/// The I-type immediate: bits 31..20, sign-extended.
pub open spec fn imm_i(word: u32) -> i32 { (word as i32) >> 20u32 }

/// The S-type immediate: bits 31..25 and 11..7, sign-extended.
pub open spec fn imm_s(word: u32) -> i32 {
    (((word as i32) >> 25u32) << 5u32) | (((word >> 7u32) & 0x1f) as i32)
}

/// The B-type immediate: bits 31, 7, 30..25, 11..8 as imm[12|11|10:5|4:1], sign-extended.
pub open spec fn imm_b(word: u32) -> i32 {
    (((word as i32) >> 31u32) << 12u32)
        | ((((word >> 7u32) & 1) as i32) << 11u32)
        | ((((word >> 25u32) & 0x3f) as i32) << 5u32)
        | ((((word >> 8u32) & 0xf) as i32) << 1u32)
}

/// The U-type immediate: bits 31..12 in place, low bits zero.
pub open spec fn imm_u(word: u32) -> i32 { (word & 0xfffff000) as i32 }

/// The J-type immediate: bits 31, 19..12, 20, 30..21 as imm[20|19:12|11|10:1], sign-extended.
pub open spec fn imm_j(word: u32) -> i32 {
    (((word as i32) >> 31u32) << 20u32)
        | ((((word >> 12u32) & 0xff) as i32) << 12u32)
        | ((((word >> 20u32) & 1) as i32) << 11u32)
        | ((((word >> 21u32) & 0x3ff) as i32) << 1u32)
}

/// The opcode and format named by the major opcode, funct3 and funct7 fields,
/// and which immediate the format carries; `None` for encodings outside RV32I.
pub open spec fn spec_opcode_table(word: u32) -> Option<(Opcode, InstrFormat, i32)> {
    let f3 = funct3_field(word);
    let f7 = funct7_field(word);
    let op = opcode_bits(word);
    if op == 0b0110011 {
        let r = if f3 == 0 && f7 == 0 { Some(Opcode::Add) }
            else if f3 == 0 && f7 == 0x20 { Some(Opcode::Sub) }
            else if f3 == 7 && f7 == 0 { Some(Opcode::And) }
            else if f3 == 6 && f7 == 0 { Some(Opcode::Or) }
            else if f3 == 4 && f7 == 0 { Some(Opcode::Xor) }
            else if f3 == 1 && f7 == 0 { Some(Opcode::Sll) }
            else if f3 == 5 && f7 == 0 { Some(Opcode::Srl) }
            else if f3 == 5 && f7 == 0x20 { Some(Opcode::Sra) }
            else if f3 == 2 && f7 == 0 { Some(Opcode::Slt) }
            else if f3 == 3 && f7 == 0 { Some(Opcode::Sltu) }
            else { None };
        match r { Some(o) => Some((o, InstrFormat::R, 0i32)), None => None }
    } else if op == 0b0010011 {
        let o = if f3 == 0 { Opcode::Addi }
            else if f3 == 7 { Opcode::Andi }
            else if f3 == 6 { Opcode::Ori }
            else if f3 == 4 { Opcode::Xori }
            else if f3 == 1 { Opcode::Slli }
            else if f3 == 5 { if f7 == 0x20 { Opcode::Srai } else { Opcode::Srli } }
            else if f3 == 2 { Opcode::Slti }
            else { Opcode::Sltiu };
        Some((o, InstrFormat::I, imm_i(word)))
    } else if op == 0b0000011 {
        let r = if f3 == 0 { Some(Opcode::Lb) }
            else if f3 == 1 { Some(Opcode::Lh) }
            else if f3 == 2 { Some(Opcode::Lw) }
            else if f3 == 4 { Some(Opcode::Lbu) }
            else if f3 == 5 { Some(Opcode::Lhu) }
            else { None };
        match r { Some(o) => Some((o, InstrFormat::I, imm_i(word))), None => None }
    } else if op == 0b0100011 {
        let r = if f3 == 0 { Some(Opcode::Sb) }
            else if f3 == 1 { Some(Opcode::Sh) }
            else if f3 == 2 { Some(Opcode::Sw) }
            else { None };
        match r { Some(o) => Some((o, InstrFormat::S, imm_s(word))), None => None }
    } else if op == 0b1100011 {
        let r = if f3 == 0 { Some(Opcode::Beq) }
            else if f3 == 1 { Some(Opcode::Bne) }
            else if f3 == 4 { Some(Opcode::Blt) }
            else if f3 == 5 { Some(Opcode::Bge) }
            else if f3 == 6 { Some(Opcode::Bltu) }
            else if f3 == 7 { Some(Opcode::Bgeu) }
            else { None };
        match r { Some(o) => Some((o, InstrFormat::B, imm_b(word))), None => None }
    } else if op == 0b1101111 {
        Some((Opcode::Jal, InstrFormat::J, imm_j(word)))
    } else if op == 0b1100111 {
        Some((Opcode::Jalr, InstrFormat::I, imm_i(word)))
    } else if op == 0b0110111 {
        Some((Opcode::Lui, InstrFormat::U, imm_u(word)))
    } else if op == 0b0010111 {
        Some((Opcode::Auipc, InstrFormat::U, imm_u(word)))
    } else {
        None
    }
}

/// `word` decodes as `op` in the format `f`.
pub open spec fn decodes_as(word: u32, op: Opcode, f: InstrFormat) -> bool {
    spec_decode(word) matches Some(d) && d.opcode == op && d.format == f
}

/// The decoder follows the RV32I encoding table: the major opcode (bits
/// 6..0) picks the group, funct3 (bits 14..12) and, for register-register
/// operations and the immediate right shifts, funct7 (bits 31..25) pick the
/// operation; encodings outside the table decode to nothing.
pub proof fn law_rv32i_table(word: u32)
    ensures
        ({
            let major = opcode_bits(word);
            let f3 = funct3_field(word);
            let f7 = funct7_field(word);
            &&& major == 0x33 ==> {
                &&& (f3 == 0 && f7 == 0) == decodes_as(word, Opcode::Add, InstrFormat::R)
                &&& (f3 == 0 && f7 == 0x20) == decodes_as(word, Opcode::Sub, InstrFormat::R)
                &&& (f3 == 1 && f7 == 0) == decodes_as(word, Opcode::Sll, InstrFormat::R)
                &&& (f3 == 2 && f7 == 0) == decodes_as(word, Opcode::Slt, InstrFormat::R)
                &&& (f3 == 3 && f7 == 0) == decodes_as(word, Opcode::Sltu, InstrFormat::R)
                &&& (f3 == 4 && f7 == 0) == decodes_as(word, Opcode::Xor, InstrFormat::R)
                &&& (f3 == 5 && f7 == 0) == decodes_as(word, Opcode::Srl, InstrFormat::R)
                &&& (f3 == 5 && f7 == 0x20) == decodes_as(word, Opcode::Sra, InstrFormat::R)
                &&& (f3 == 6 && f7 == 0) == decodes_as(word, Opcode::Or, InstrFormat::R)
                &&& (f3 == 7 && f7 == 0) == decodes_as(word, Opcode::And, InstrFormat::R)
            }
            &&& major == 0x13 ==> {
                &&& (f3 == 0) == decodes_as(word, Opcode::Addi, InstrFormat::I)
                &&& (f3 == 1) == decodes_as(word, Opcode::Slli, InstrFormat::I)
                &&& (f3 == 2) == decodes_as(word, Opcode::Slti, InstrFormat::I)
                &&& (f3 == 3) == decodes_as(word, Opcode::Sltiu, InstrFormat::I)
                &&& (f3 == 4) == decodes_as(word, Opcode::Xori, InstrFormat::I)
                &&& (f3 == 5 && f7 != 0x20) == decodes_as(word, Opcode::Srli, InstrFormat::I)
                &&& (f3 == 5 && f7 == 0x20) == decodes_as(word, Opcode::Srai, InstrFormat::I)
                &&& (f3 == 6) == decodes_as(word, Opcode::Ori, InstrFormat::I)
                &&& (f3 == 7) == decodes_as(word, Opcode::Andi, InstrFormat::I)
            }
            &&& major == 0x03 ==> {
                &&& (f3 == 0) == decodes_as(word, Opcode::Lb, InstrFormat::I)
                &&& (f3 == 1) == decodes_as(word, Opcode::Lh, InstrFormat::I)
                &&& (f3 == 2) == decodes_as(word, Opcode::Lw, InstrFormat::I)
                &&& (f3 == 4) == decodes_as(word, Opcode::Lbu, InstrFormat::I)
                &&& (f3 == 5) == decodes_as(word, Opcode::Lhu, InstrFormat::I)
                &&& (f3 == 3 || f3 == 6 || f3 == 7) == (spec_decode(word) is None)
            }
            &&& major == 0x23 ==> {
                &&& (f3 == 0) == decodes_as(word, Opcode::Sb, InstrFormat::S)
                &&& (f3 == 1) == decodes_as(word, Opcode::Sh, InstrFormat::S)
                &&& (f3 == 2) == decodes_as(word, Opcode::Sw, InstrFormat::S)
                &&& (f3 >= 3) == (spec_decode(word) is None)
            }
            &&& major == 0x63 ==> {
                &&& (f3 == 0) == decodes_as(word, Opcode::Beq, InstrFormat::B)
                &&& (f3 == 1) == decodes_as(word, Opcode::Bne, InstrFormat::B)
                &&& (f3 == 4) == decodes_as(word, Opcode::Blt, InstrFormat::B)
                &&& (f3 == 5) == decodes_as(word, Opcode::Bge, InstrFormat::B)
                &&& (f3 == 6) == decodes_as(word, Opcode::Bltu, InstrFormat::B)
                &&& (f3 == 7) == decodes_as(word, Opcode::Bgeu, InstrFormat::B)
                &&& (f3 == 2 || f3 == 3) == (spec_decode(word) is None)
            }
            &&& major == 0x6f ==> decodes_as(word, Opcode::Jal, InstrFormat::J)
            &&& major == 0x67 ==> decodes_as(word, Opcode::Jalr, InstrFormat::I)
            &&& major == 0x37 ==> decodes_as(word, Opcode::Lui, InstrFormat::U)
            &&& major == 0x17 ==> decodes_as(word, Opcode::Auipc, InstrFormat::U)
            &&& !(major == 0x33 || major == 0x13 || major == 0x03 || major == 0x23 || major == 0x63
                || major == 0x6f || major == 0x67 || major == 0x37 || major == 0x17) ==> spec_decode(word) is None
        }),
{
    lemma_word_bits(word);
}

/// The immediates sit where RV32I puts them. With `t` the top bit of the word
/// (the sign): the I-immediate is bits 31..20; the S-immediate is bits
/// 31..25 over bits 11..7; the B-immediate is bit 31 as bit 12, bit 7 as bit
/// 11, bits 30..25 as bits 10..5 and bits 11..8 as bits 4..1; the
/// J-immediate is bit 31 as bit 20, bits 19..12 in place, bit 20 as bit 11
/// and bits 30..21 as bits 10..1; each of these is read as a signed number
/// of its width. The U-immediate is bits 31..12 in place, read as a signed
/// 32-bit number.
pub proof fn law_rv32i_immediates(w: u32)
    ensures
        ({
            let t = w >> 31u32;
            let i_raw = (w >> 20u32) as int;
            let s_raw = (w >> 25u32) as int * 32 + ((w >> 7u32) & 0x1f) as int;
            let b_raw = t as int * 4096 + ((w >> 7u32) & 1) as int * 2048 + ((w >> 25u32) & 0x3f) as int * 32
                + ((w >> 8u32) & 0xf) as int * 2;
            let j_raw = t as int * 0x10_0000 + ((w >> 12u32) & 0xff) as int * 4096
                + ((w >> 20u32) & 1) as int * 2048 + ((w >> 21u32) & 0x3ff) as int * 2;
            &&& imm_i(w) as int == if t == 1 { i_raw - 4096 } else { i_raw }
            &&& imm_s(w) as int == if t == 1 { s_raw - 4096 } else { s_raw }
            &&& imm_b(w) as int == if t == 1 { b_raw - 8192 } else { b_raw }
            &&& imm_j(w) as int == if t == 1 { j_raw - 0x20_0000 } else { j_raw }
            &&& imm_u(w) as int == if t == 1 { (w >> 12u32) as int * 4096 - 0x1_0000_0000 } else { (w >> 12u32) as int * 4096 }
        }),
{
    lemma_word_bits(w);
}

/// The bit-level facts about an instruction word that the laws above rest on.
proof fn lemma_word_bits(w: u32)
    by (bit_vector)
    ensures
        w >> 31u32 <= 1,
        w >> 25u32 < 128 && w >> 20u32 < 4096 && w >> 12u32 < 0x10_0000,
        (w >> 7u32) & 0x1f < 32 && (w >> 7u32) & 1 <= 1 && (w >> 25u32) & 0x3f < 64 && (w >> 8u32) & 0xf < 16,
        (w >> 12u32) & 0xff < 256 && (w >> 20u32) & 1 <= 1 && (w >> 21u32) & 0x3ff < 1024
            && (w >> 12u32) & 0x7ffff < 0x80000,
        (w >> 31u32) == 1 ==> ((w as i32) >> 20u32) == (w >> 20u32) as i32 - 4096,
        (w >> 31u32) == 0 ==> ((w as i32) >> 20u32) == (w >> 20u32) as i32,
        (w >> 31u32) == 1 ==> imm_s(w) == ((w >> 25u32) * 32 + ((w >> 7u32) & 0x1f)) as i32 - 4096,
        (w >> 31u32) == 0 ==> imm_s(w) == ((w >> 25u32) * 32 + ((w >> 7u32) & 0x1f)) as i32,
        (w >> 31u32) == 1 ==> imm_b(w) == ((w >> 31u32) * 4096 + ((w >> 7u32) & 1) * 2048 + ((w >> 25u32) & 0x3f) * 32
            + ((w >> 8u32) & 0xf) * 2) as i32 - 8192,
        (w >> 31u32) == 0 ==> imm_b(w) == (((w >> 7u32) & 1) * 2048 + ((w >> 25u32) & 0x3f) * 32
            + ((w >> 8u32) & 0xf) * 2) as i32,
        (w >> 31u32) == 1 ==> imm_j(w) == ((w >> 31u32) * 0x10_0000 + ((w >> 12u32) & 0xff) * 4096
            + ((w >> 20u32) & 1) * 2048 + ((w >> 21u32) & 0x3ff) * 2) as i32 - 0x20_0000,
        (w >> 31u32) == 0 ==> imm_j(w) == (((w >> 12u32) & 0xff) * 4096 + ((w >> 20u32) & 1) * 2048
            + ((w >> 21u32) & 0x3ff) * 2) as i32,
        (w >> 31u32) == 1 ==> imm_u(w) == (((w >> 12u32) & 0x7ffff) * 4096) as i32 - 0x8000_0000,
        (w >> 31u32) == 0 ==> imm_u(w) == (((w >> 12u32) & 0x7ffff) * 4096) as i32,
        (w >> 31u32) == 1 ==> (w >> 12u32) == 0x80000 + ((w >> 12u32) & 0x7ffff),
        (w >> 31u32) == 0 ==> (w >> 12u32) == ((w >> 12u32) & 0x7ffff),
        ((w >> 7u32) & 0x1f) as u8 == (w / 0x80) % 32,
        ((w >> 15u32) & 0x1f) as u8 == (w / 0x8000) % 32,
        ((w >> 20u32) & 0x1f) as u8 == (w / 0x10_0000) % 32,
        (((w >> 12u32) & 0x07) as u8) < 8,
{
}

/// A decoded instruction names the registers in bits 11..7 (rd), 19..15
/// (rs1) and 24..20 (rs2) of its word.
pub proof fn law_register_fields(w: u32)
    ensures
        spec_decode(w) matches Some(d) ==> {
            &&& d.rd as int == (w as int / 0x80) % 32
            &&& d.rs1 as int == (w as int / 0x8000) % 32
            &&& d.rs2 as int == (w as int / 0x10_0000) % 32
        },
{
    lemma_word_bits(w);
}

/// What decoding `word` gives: the table entry together with the register fields.
pub open spec fn spec_decode(word: u32) -> Option<DecodedInstr> {
    match spec_opcode_table(word) {
        Some((opcode, format, imm)) => Some(DecodedInstr {
            opcode,
            format,
            rd: rd_field(word),
            rs1: rs1_field(word),
            rs2: rs2_field(word),
            imm,
        }),
        None => None,
    }
}

/// Decode a raw 32-bit RV32I instruction word.
/// Returns None if the encoding is unrecognized.
pub fn decode(word: u32) -> (r: Option<DecodedInstr>)
    ensures
        r == spec_decode(word),
        r matches Some(d) ==> d.rd < 32 && d.rs1 < 32 && d.rs2 < 32,
{
    let opcode_bits = word & 0x7f;
    let rd: u8 = ((word >> 7u32) & 0x1f) as u8;
    let funct3: u8 = ((word >> 12u32) & 0x07) as u8;
    let rs1: u8 = ((word >> 15u32) & 0x1f) as u8;
    let rs2: u8 = ((word >> 20u32) & 0x1f) as u8;
    let funct7: u8 = ((word >> 25u32) & 0x7f) as u8;
    proof {
        assert((word >> 7u32) & 0x1f < 32) by (bit_vector);
        assert((word >> 15u32) & 0x1f < 32) by (bit_vector);
        assert((word >> 20u32) & 0x1f < 32) by (bit_vector);
    }

    let imm_i: i32 = (word as i32) >> 20u32;
    let imm_s: i32 = (((word as i32) >> 25u32) << 5u32) | (((word >> 7u32) & 0x1f) as i32);
    let imm_b: i32 = (((word as i32) >> 31u32) << 12u32)
        | ((((word >> 7u32) & 1) as i32) << 11u32)
        | ((((word >> 25u32) & 0x3f) as i32) << 5u32)
        | ((((word >> 8u32) & 0xf) as i32) << 1u32);
    let imm_u: i32 = (word & 0xfffff000) as i32;
    let imm_j: i32 = (((word as i32) >> 31u32) << 20u32)
        | ((((word >> 12u32) & 0xff) as i32) << 12u32)
        | ((((word >> 20u32) & 1) as i32) << 11u32)
        | ((((word >> 21u32) & 0x3ff) as i32) << 1u32);

    let (opcode, format, imm) = if opcode_bits == 0b0110011 {
        let op = if funct3 == 0 && funct7 == 0 { Opcode::Add }
            else if funct3 == 0 && funct7 == 0x20 { Opcode::Sub }
            else if funct3 == 7 && funct7 == 0 { Opcode::And }
            else if funct3 == 6 && funct7 == 0 { Opcode::Or }
            else if funct3 == 4 && funct7 == 0 { Opcode::Xor }
            else if funct3 == 1 && funct7 == 0 { Opcode::Sll }
            else if funct3 == 5 && funct7 == 0 { Opcode::Srl }
            else if funct3 == 5 && funct7 == 0x20 { Opcode::Sra }
            else if funct3 == 2 && funct7 == 0 { Opcode::Slt }
            else if funct3 == 3 && funct7 == 0 { Opcode::Sltu }
            else { return None; };
        (op, InstrFormat::R, 0i32)
    } else if opcode_bits == 0b0010011 {
        let op = if funct3 == 0 { Opcode::Addi }
            else if funct3 == 7 { Opcode::Andi }
            else if funct3 == 6 { Opcode::Ori }
            else if funct3 == 4 { Opcode::Xori }
            else if funct3 == 1 { Opcode::Slli }
            else if funct3 == 5 { if funct7 == 0x20 { Opcode::Srai } else { Opcode::Srli } }
            else if funct3 == 2 { Opcode::Slti }
            else { Opcode::Sltiu };
        (op, InstrFormat::I, imm_i)
    } else if opcode_bits == 0b0000011 {
        let op = if funct3 == 0 { Opcode::Lb }
            else if funct3 == 1 { Opcode::Lh }
            else if funct3 == 2 { Opcode::Lw }
            else if funct3 == 4 { Opcode::Lbu }
            else if funct3 == 5 { Opcode::Lhu }
            else { return None; };
        (op, InstrFormat::I, imm_i)
    } else if opcode_bits == 0b0100011 {
        let op = if funct3 == 0 { Opcode::Sb }
            else if funct3 == 1 { Opcode::Sh }
            else if funct3 == 2 { Opcode::Sw }
            else { return None; };
        (op, InstrFormat::S, imm_s)
    } else if opcode_bits == 0b1100011 {
        let op = if funct3 == 0 { Opcode::Beq }
            else if funct3 == 1 { Opcode::Bne }
            else if funct3 == 4 { Opcode::Blt }
            else if funct3 == 5 { Opcode::Bge }
            else if funct3 == 6 { Opcode::Bltu }
            else if funct3 == 7 { Opcode::Bgeu }
            else { return None; };
        (op, InstrFormat::B, imm_b)
    } else if opcode_bits == 0b1101111 {
        (Opcode::Jal, InstrFormat::J, imm_j)
    } else if opcode_bits == 0b1100111 {
        (Opcode::Jalr, InstrFormat::I, imm_i)
    } else if opcode_bits == 0b0110111 {
        (Opcode::Lui, InstrFormat::U, imm_u)
    } else if opcode_bits == 0b0010111 {
        (Opcode::Auipc, InstrFormat::U, imm_u)
    } else {
        return None;
    };

    Some(DecodedInstr { opcode, format, rd, rs1, rs2, imm })
}

/// The register fields of a decoded instruction name one of the 32 registers.
pub proof fn lemma_decode_regs(word: u32)
    ensures
        spec_decode(word) matches Some(d) ==> d.rd < 32 && d.rs1 < 32 && d.rs2 < 32,
{
    assert((word >> 7u32) & 0x1f < 32) by (bit_vector);
    assert((word >> 15u32) & 0x1f < 32) by (bit_vector);
    assert((word >> 20u32) & 0x1f < 32) by (bit_vector);
}


/// The name of an opcode, as `{:?}` writes it.
pub open spec fn opcode_name(op: Opcode) -> Seq<char> {
    match op {
        Opcode::Add => "Add"@,
        Opcode::Sub => "Sub"@,
        Opcode::And => "And"@,
        Opcode::Or => "Or"@,
        Opcode::Xor => "Xor"@,
        Opcode::Sll => "Sll"@,
        Opcode::Srl => "Srl"@,
        Opcode::Sra => "Sra"@,
        Opcode::Slt => "Slt"@,
        Opcode::Sltu => "Sltu"@,
        Opcode::Addi => "Addi"@,
        Opcode::Andi => "Andi"@,
        Opcode::Ori => "Ori"@,
        Opcode::Xori => "Xori"@,
        Opcode::Slli => "Slli"@,
        Opcode::Srli => "Srli"@,
        Opcode::Srai => "Srai"@,
        Opcode::Slti => "Slti"@,
        Opcode::Sltiu => "Sltiu"@,
        Opcode::Lb => "Lb"@,
        Opcode::Lh => "Lh"@,
        Opcode::Lw => "Lw"@,
        Opcode::Lbu => "Lbu"@,
        Opcode::Lhu => "Lhu"@,
        Opcode::Sb => "Sb"@,
        Opcode::Sh => "Sh"@,
        Opcode::Sw => "Sw"@,
        Opcode::Beq => "Beq"@,
        Opcode::Bne => "Bne"@,
        Opcode::Blt => "Blt"@,
        Opcode::Bge => "Bge"@,
        Opcode::Bltu => "Bltu"@,
        Opcode::Bgeu => "Bgeu"@,
        Opcode::Jal => "Jal"@,
        Opcode::Jalr => "Jalr"@,
        Opcode::Lui => "Lui"@,
        Opcode::Auipc => "Auipc"@,
    }
}

/// The name of an opcode, as `{:?}` writes it.
pub fn opcode_str(op: Opcode) -> (r: &'static str)
    ensures
        r@ == opcode_name(op),
{
    match op {
        Opcode::Add => "Add",
        Opcode::Sub => "Sub",
        Opcode::And => "And",
        Opcode::Or => "Or",
        Opcode::Xor => "Xor",
        Opcode::Sll => "Sll",
        Opcode::Srl => "Srl",
        Opcode::Sra => "Sra",
        Opcode::Slt => "Slt",
        Opcode::Sltu => "Sltu",
        Opcode::Addi => "Addi",
        Opcode::Andi => "Andi",
        Opcode::Ori => "Ori",
        Opcode::Xori => "Xori",
        Opcode::Slli => "Slli",
        Opcode::Srli => "Srli",
        Opcode::Srai => "Srai",
        Opcode::Slti => "Slti",
        Opcode::Sltiu => "Sltiu",
        Opcode::Lb => "Lb",
        Opcode::Lh => "Lh",
        Opcode::Lw => "Lw",
        Opcode::Lbu => "Lbu",
        Opcode::Lhu => "Lhu",
        Opcode::Sb => "Sb",
        Opcode::Sh => "Sh",
        Opcode::Sw => "Sw",
        Opcode::Beq => "Beq",
        Opcode::Bne => "Bne",
        Opcode::Blt => "Blt",
        Opcode::Bge => "Bge",
        Opcode::Bltu => "Bltu",
        Opcode::Bgeu => "Bgeu",
        Opcode::Jal => "Jal",
        Opcode::Jalr => "Jalr",
        Opcode::Lui => "Lui",
        Opcode::Auipc => "Auipc",
    }
}


/// The name of a format, as `{:?}` writes it.
pub open spec fn format_name(f: InstrFormat) -> Seq<char> {
    match f {
        InstrFormat::R => "R"@,
        InstrFormat::I => "I"@,
        InstrFormat::S => "S"@,
        InstrFormat::B => "B"@,
        InstrFormat::U => "U"@,
        InstrFormat::J => "J"@,
    }
}

/// A decoded instruction as `{:?}` writes it.
pub open spec fn decoded_text(d: DecodedInstr) -> Seq<char> {
    "DecodedInstr { opcode: "@ + opcode_name(d.opcode) + ", format: "@ + format_name(d.format)
        + ", rd: "@ + dec_text(d.rd as nat) + ", rs1: "@ + dec_text(d.rs1 as nat) + ", rs2: "@
        + dec_text(d.rs2 as nat) + ", imm: "@ + idec_text(d.imm as int) + " }"@
}

/// Appends a decoded instruction as `{:?}` writes it.
pub fn push_decoded(out: &mut Vec<char>, d: &DecodedInstr)
    ensures
        final(out)@ == old(out)@ + decoded_text(*d),
{
    let ghost start = out@;
    push_str(out, "DecodedInstr { opcode: ");
    push_str(out, opcode_str(d.opcode));
    push_str(out, ", format: ");
    let f = match d.format {
        InstrFormat::R => "R",
        InstrFormat::I => "I",
        InstrFormat::S => "S",
        InstrFormat::B => "B",
        InstrFormat::U => "U",
        InstrFormat::J => "J",
    };
    push_str(out, f);
    push_str(out, ", rd: ");
    push_dec(out, d.rd as u64);
    push_str(out, ", rs1: ");
    push_dec(out, d.rs1 as u64);
    push_str(out, ", rs2: ");
    push_dec(out, d.rs2 as u64);
    push_str(out, ", imm: ");
    push_idec(out, d.imm);
    push_str(out, " }");
    assert(out@ =~= start + decoded_text(*d));
}

} // verus!
