//! A two-pass assembler for RV32I: the first pass strips comments and blank
//! lines and records where each label stands, the second turns each line
//! into an instruction word.
use vstd::prelude::*;
use crate::isa::{
    funct3_field, funct7_field, imm_b, imm_i, imm_j, imm_s, imm_u, opcode_bits, rd_field, rs1_field,
    rs2_field, spec_decode, DecodedInstr, InstrFormat, Opcode,
};
use crate::utils::text::{
    chars_eq, find, find_char, find_whitespace, find_ws, lemma_find_bounds, parse_i32, parse_i32_hex, parse_u8, slice, spec_parse_i32,
    spec_parse_i32_hex, spec_parse_u8, split, split_chars, splitn, splitn_chars, string_of, to_chars, trim, trim_chars,
    dec_text, trim_start, trim_end,
};

verus! {

/// What went wrong with a line of assembly.
#[derive(Clone, Copy, Debug, PartialEq, Eq, Structural)]
pub enum AsmErrorKind {
    UnknownInstruction,
    UnknownRegister,
    BadOperands,
    UndefinedLabel,
    ImmediateOutOfRange,
}

/// An assembly error, with the text it is about.
#[derive(Debug)]
pub enum AsmError {
    UnknownInstruction(String),
    UnknownRegister(String),
    BadOperands(String),
    UndefinedLabel(String),
    ImmediateOutOfRange(String),
}

/// An error as the contracts see it: its kind and its text.
pub type AsmErr = (AsmErrorKind, Seq<char>);

impl View for AsmError {
    type V = (AsmErrorKind, Seq<char>);

    open spec fn view(&self) -> (AsmErrorKind, Seq<char>) {
        match self {
            AsmError::UnknownInstruction(s) => (AsmErrorKind::UnknownInstruction, s@),
            AsmError::UnknownRegister(s) => (AsmErrorKind::UnknownRegister, s@),
            AsmError::BadOperands(s) => (AsmErrorKind::BadOperands, s@),
            AsmError::UndefinedLabel(s) => (AsmErrorKind::UndefinedLabel, s@),
            AsmError::ImmediateOutOfRange(s) => (AsmErrorKind::ImmediateOutOfRange, s@),
        }
    }
}

/// The text that reports an error.
pub open spec fn spec_message(e: (AsmErrorKind, Seq<char>)) -> Seq<char> {
    let prefix = match e.0 {
        AsmErrorKind::UnknownInstruction => "unknown instruction: "@,
        AsmErrorKind::UnknownRegister => "unknown register: "@,
        AsmErrorKind::BadOperands => "bad operands: "@,
        AsmErrorKind::UndefinedLabel => "undefined label: "@,
        AsmErrorKind::ImmediateOutOfRange => "immediate out of range: "@,
    };
    prefix + e.1
}

/// An error of kind `kind` about the text `text`.
fn make_error(kind: AsmErrorKind, text: &Vec<char>) -> (e: AsmError)
    ensures
        e@ == (kind, text@),
{
    let s = string_of(text);
    match kind {
        AsmErrorKind::UnknownInstruction => AsmError::UnknownInstruction(s),
        AsmErrorKind::UnknownRegister => AsmError::UnknownRegister(s),
        AsmErrorKind::BadOperands => AsmError::BadOperands(s),
        AsmErrorKind::UndefinedLabel => AsmError::UndefinedLabel(s),
        AsmErrorKind::ImmediateOutOfRange => AsmError::ImmediateOutOfRange(s),
    }
}

impl AsmError {
    /// The text that reports this error, such as `unknown register: x99`.
    pub fn message(&self) -> (r: String)
        ensures
            r@ == spec_message(self@),
    {
        let (prefix, text) = match self {
            AsmError::UnknownInstruction(s) => ("unknown instruction: ", s),
            AsmError::UnknownRegister(s) => ("unknown register: ", s),
            AsmError::BadOperands(s) => ("bad operands: ", s),
            AsmError::UndefinedLabel(s) => ("undefined label: ", s),
            AsmError::ImmediateOutOfRange(s) => ("immediate out of range: ", s),
        };
        let mut chars = to_chars(prefix);
        let tail = to_chars(text.as_str());
        let ghost head = chars@;
        let mut i: usize = 0;
        while i < tail.len()
            invariant
                i <= tail@.len(),
                chars@ == head + tail@.take(i as int),
            decreases tail@.len() - i,
        {
            chars.push(tail[i]);
            i = i + 1;
            assert(chars@ =~= head + tail@.take(i as int));
        }
        assert(tail@.take(i as int) =~= tail@);
        string_of(&chars)
    }
}

/// A result as the contracts see it.
pub open spec fn res_view<T>(r: Result<T, AsmError>) -> Result<T, AsmErr> {
    match r {
        Ok(v) => Ok(v),
        Err(e) => Err(e@),
    }
}

/// A result that may also stand for a fault (`None`), as the contracts see it.
pub open spec fn opt_res_view<T>(r: Option<Result<T, AsmError>>) -> Option<Result<T, AsmErr>> {
    match r {
        None => None,
        Some(x) => Some(res_view(x)),
    }
}

// ── Encoding ────────────────────────────────────────────────────────────────

/// An R-type word: register-register operations.
pub open spec fn spec_r_type(rd: u8, rs1: u8, rs2: u8, funct3: u32, funct7: u32, opcode: u32) -> u32 {
    opcode | ((rd as u32) << 7u32) | (funct3 << 12u32) | ((rs1 as u32) << 15u32)
        | ((rs2 as u32) << 20u32) | (funct7 << 25u32)
}

/// An I-type word: the low twelve bits of `imm` in bits 31..20.
pub open spec fn spec_i_type(rd: u8, rs1: u8, imm: i32, funct3: u32, opcode: u32) -> u32 {
    opcode | ((rd as u32) << 7u32) | (funct3 << 12u32) | ((rs1 as u32) << 15u32)
        | (((imm as u32) & 0xfff) << 20u32)
}

/// An S-type word: `imm` split over bits 11..7 and 31..25.
pub open spec fn spec_s_type(rs1: u8, rs2: u8, imm: i32, funct3: u32) -> u32 {
    0x23u32 | (funct3 << 12u32) | ((rs1 as u32) << 15u32) | ((rs2 as u32) << 20u32)
        | (((imm as u32) & 0x1f) << 7u32) | (((imm as u32) >> 5u32) << 25u32)
}

/// A B-type word: the branch offset `imm` scattered as imm[12|10:5] and imm[4:1|11].
pub open spec fn spec_b_type(rs1: u8, rs2: u8, imm: i32, funct3: u32) -> u32 {
    let u = imm as u32;
    0x63u32 | (funct3 << 12u32) | ((rs1 as u32) << 15u32) | ((rs2 as u32) << 20u32)
        | (((u >> 11u32) & 1) << 7u32) | (((u >> 1u32) & 0xf) << 8u32)
        | (((u >> 5u32) & 0x3f) << 25u32) | (((u >> 12u32) & 1) << 31u32)
}

/// A U-type word: the upper twenty bits of `imm` in place.
pub open spec fn spec_u_type(rd: u8, imm: i32, opcode: u32) -> u32 {
    opcode | ((rd as u32) << 7u32) | ((imm as u32) & 0xfffff000)
}

/// A J-type word: the jump offset `imm` scattered as imm[20|10:1|11|19:12].
pub open spec fn spec_j_type(rd: u8, imm: i32) -> u32 {
    let u = imm as u32;
    0x6fu32 | ((rd as u32) << 7u32) | (u & 0xff000) | (((u >> 11u32) & 1) << 20u32)
        | (((u >> 1u32) & 0x3ff) << 21u32) | (((u >> 20u32) & 1) << 31u32)
}

pub fn r_type(rd: u8, rs1: u8, rs2: u8, funct3: u32, funct7: u32, opcode: u32) -> (w: u32)
    ensures
        w == spec_r_type(rd, rs1, rs2, funct3, funct7, opcode),
{
    opcode | ((rd as u32) << 7u32) | (funct3 << 12u32) | ((rs1 as u32) << 15u32)
        | ((rs2 as u32) << 20u32) | (funct7 << 25u32)
}

pub fn i_type(rd: u8, rs1: u8, imm: i32, funct3: u32, opcode: u32) -> (w: u32)
    ensures
        w == spec_i_type(rd, rs1, imm, funct3, opcode),
{
    opcode | ((rd as u32) << 7u32) | (funct3 << 12u32) | ((rs1 as u32) << 15u32)
        | (((imm as u32) & 0xfff) << 20u32)
}

pub fn s_type(rs1: u8, rs2: u8, imm: i32, funct3: u32) -> (w: u32)
    ensures
        w == spec_s_type(rs1, rs2, imm, funct3),
{
    let u = imm as u32;
    0x23u32 | (funct3 << 12u32) | ((rs1 as u32) << 15u32) | ((rs2 as u32) << 20u32)
        | ((u & 0x1f) << 7u32) | ((u >> 5u32) << 25u32)
}

pub fn b_type(rs1: u8, rs2: u8, imm: i32, funct3: u32) -> (w: u32)
    ensures
        w == spec_b_type(rs1, rs2, imm, funct3),
{
    let u = imm as u32;
    0x63u32 | (funct3 << 12u32) | ((rs1 as u32) << 15u32) | ((rs2 as u32) << 20u32)
        | (((u >> 11u32) & 1) << 7u32) | (((u >> 1u32) & 0xf) << 8u32)
        | (((u >> 5u32) & 0x3f) << 25u32) | (((u >> 12u32) & 1) << 31u32)
}

pub fn u_type(rd: u8, imm: i32, opcode: u32) -> (w: u32)
    ensures
        w == spec_u_type(rd, imm, opcode),
{
    opcode | ((rd as u32) << 7u32) | ((imm as u32) & 0xfffff000)
}

pub fn j_type(rd: u8, imm: i32) -> (w: u32)
    ensures
        w == spec_j_type(rd, imm),
{
    let u = imm as u32;
    0x6fu32 | ((rd as u32) << 7u32) | (u & 0xff000) | (((u >> 11u32) & 1) << 20u32)
        | (((u >> 1u32) & 0x3ff) << 21u32) | (((u >> 20u32) & 1) << 31u32)
}

// ── Registers ───────────────────────────────────────────────────────────────

/// The register that an ABI name such as `sp` or `a0` stands for.
pub open spec fn abi_register(t: Seq<char>) -> Option<u8> {
    if t == seq!['z', 'e', 'r', 'o'] {
        Some(0u8)
    } else if t == seq!['r', 'a'] {
        Some(1u8)
    } else if t == seq!['s', 'p'] {
        Some(2u8)
    } else if t == seq!['g', 'p'] {
        Some(3u8)
    } else if t == seq!['t', 'p'] {
        Some(4u8)
    } else if t == seq!['t', '0'] {
        Some(5u8)
    } else if t == seq!['t', '1'] {
        Some(6u8)
    } else if t == seq!['t', '2'] {
        Some(7u8)
    } else if t == seq!['s', '0'] {
        Some(8u8)
    } else if t == seq!['f', 'p'] {
        Some(8u8)
    } else if t == seq!['s', '1'] {
        Some(9u8)
    } else if t == seq!['a', '0'] {
        Some(10u8)
    } else if t == seq!['a', '1'] {
        Some(11u8)
    } else if t == seq!['a', '2'] {
        Some(12u8)
    } else if t == seq!['a', '3'] {
        Some(13u8)
    } else if t == seq!['a', '4'] {
        Some(14u8)
    } else if t == seq!['a', '5'] {
        Some(15u8)
    } else if t == seq!['a', '6'] {
        Some(16u8)
    } else if t == seq!['a', '7'] {
        Some(17u8)
    } else if t == seq!['s', '2'] {
        Some(18u8)
    } else if t == seq!['s', '3'] {
        Some(19u8)
    } else if t == seq!['s', '4'] {
        Some(20u8)
    } else if t == seq!['s', '5'] {
        Some(21u8)
    } else if t == seq!['s', '6'] {
        Some(22u8)
    } else if t == seq!['s', '7'] {
        Some(23u8)
    } else if t == seq!['s', '8'] {
        Some(24u8)
    } else if t == seq!['s', '9'] {
        Some(25u8)
    } else if t == seq!['s', '1', '0'] {
        Some(26u8)
    } else if t == seq!['s', '1', '1'] {
        Some(27u8)
    } else if t == seq!['t', '3'] {
        Some(28u8)
    } else if t == seq!['t', '4'] {
        Some(29u8)
    } else if t == seq!['t', '5'] {
        Some(30u8)
    } else if t == seq!['t', '6'] {
        Some(31u8)
    } else {
        None
    }
}

/// The digit character for `n`.
pub open spec fn digit(n: int) -> char {
    (48 + n) as char
}

/// The register name made of the letter `c` and the digit for `n`.
pub open spec fn numbered_name(c: char, n: int) -> Seq<char> {
    seq![c, digit(n)]
}

/// The three-character ABI names.
proof fn lemma_abi_two_digit_names()
    ensures
        abi_register(seq!['s', '1', '0']) == Some(26u8),
        abi_register(seq!['s', '1', '1']) == Some(27u8),
{
    let s10 = seq!['s', '1', '0'];
    let s11 = seq!['s', '1', '1'];
    assert(s10.len() == 3 && s11.len() == 3);
    assert(s10[2] != s11[2]);
}

/// The ABI names stand for the standard RISC-V registers: `zero`, `ra`, `sp`,
/// `gp`, `tp` are x0 to x4; `t0`..`t2` are x5..x7; `s0` (also `fp`) and `s1`
/// are x8 and x9; `a0`..`a7` are x10..x17; `s2`..`s11` are x18..x27; and
/// `t3`..`t6` are x28..x31.
pub proof fn law_abi_registers()
    ensures
        abi_register(seq!['z', 'e', 'r', 'o']) == Some(0u8),
        abi_register(seq!['r', 'a']) == Some(1u8),
        abi_register(seq!['s', 'p']) == Some(2u8),
        abi_register(seq!['g', 'p']) == Some(3u8),
        abi_register(seq!['t', 'p']) == Some(4u8),
        abi_register(seq!['f', 'p']) == Some(8u8),
        forall|n: int| 0 <= n < 3 ==> #[trigger] abi_register(numbered_name('t', n)) == Some((5 + n) as u8),
        forall|n: int| 3 <= n < 7 ==> #[trigger] abi_register(numbered_name('t', n)) == Some((25 + n) as u8),
        forall|n: int| 0 <= n < 2 ==> #[trigger] abi_register(numbered_name('s', n)) == Some((8 + n) as u8),
        forall|n: int| 2 <= n < 10 ==> #[trigger] abi_register(numbered_name('s', n)) == Some((16 + n) as u8),
        abi_register(seq!['s', '1', '0']) == Some(26u8),
        abi_register(seq!['s', '1', '1']) == Some(27u8),
        forall|n: int| 0 <= n < 8 ==> #[trigger] abi_register(numbered_name('a', n)) == Some((10 + n) as u8),
{
    lemma_abi_two_digit_names();
    assert forall|n: int| 0 <= n < 3 implies #[trigger] abi_register(numbered_name('t', n)) == Some((5 + n) as u8) by {
        if n == 0 { assert(digit(n) == '0'); } else if n == 1 { assert(digit(n) == '1'); } else { assert(digit(n) == '2'); }
    }
    assert forall|n: int| 3 <= n < 7 implies #[trigger] abi_register(numbered_name('t', n)) == Some((25 + n) as u8) by {
        if n == 3 { assert(digit(n) == '3'); } else if n == 4 { assert(digit(n) == '4'); }
        else if n == 5 { assert(digit(n) == '5'); } else { assert(digit(n) == '6'); }
    }
    assert forall|n: int| 0 <= n < 2 implies #[trigger] abi_register(numbered_name('s', n)) == Some((8 + n) as u8) by {
        if n == 0 { assert(digit(n) == '0'); } else { assert(digit(n) == '1'); }
    }
    assert forall|n: int| 2 <= n < 10 implies #[trigger] abi_register(numbered_name('s', n)) == Some((16 + n) as u8) by {
        if n == 2 { assert(digit(n) == '2'); } else if n == 3 { assert(digit(n) == '3'); }
        else if n == 4 { assert(digit(n) == '4'); } else if n == 5 { assert(digit(n) == '5'); }
        else if n == 6 { assert(digit(n) == '6'); } else if n == 7 { assert(digit(n) == '7'); }
        else if n == 8 { assert(digit(n) == '8'); } else { assert(digit(n) == '9'); }
    }
    assert forall|n: int| 0 <= n < 8 implies #[trigger] abi_register(numbered_name('a', n)) == Some((10 + n) as u8) by {
        if n == 0 { assert(digit(n) == '0'); } else if n == 1 { assert(digit(n) == '1'); }
        else if n == 2 { assert(digit(n) == '2'); } else if n == 3 { assert(digit(n) == '3'); }
        else if n == 4 { assert(digit(n) == '4'); } else if n == 5 { assert(digit(n) == '5'); }
        else if n == 6 { assert(digit(n) == '6'); } else { assert(digit(n) == '7'); }
    }
}

/// The first letters of the ABI names; none of them is `x`.
proof fn lemma_abi_first_letters()
    ensures
        seq!['z', 'e', 'r', 'o'][0] == 'z',
        seq!['r', 'a'][0] == 'r',
        seq!['s', 'p'][0] == 's',
        seq!['g', 'p'][0] == 'g',
        seq!['t', 'p'][0] == 't',
        seq!['t', '0'][0] == 't',
        seq!['t', '1'][0] == 't',
        seq!['t', '2'][0] == 't',
        seq!['s', '0'][0] == 's',
        seq!['f', 'p'][0] == 'f',
        seq!['s', '1'][0] == 's',
        seq!['a', '0'][0] == 'a',
        seq!['a', '1'][0] == 'a',
        seq!['a', '2'][0] == 'a',
        seq!['a', '3'][0] == 'a',
        seq!['a', '4'][0] == 'a',
        seq!['a', '5'][0] == 'a',
        seq!['a', '6'][0] == 'a',
        seq!['a', '7'][0] == 'a',
        seq!['s', '2'][0] == 's',
        seq!['s', '3'][0] == 's',
        seq!['s', '4'][0] == 's',
        seq!['s', '5'][0] == 's',
        seq!['s', '6'][0] == 's',
        seq!['s', '7'][0] == 's',
        seq!['s', '8'][0] == 's',
        seq!['s', '9'][0] == 's',
        seq!['s', '1', '0'][0] == 's',
        seq!['s', '1', '1'][0] == 's',
        seq!['t', '3'][0] == 't',
        seq!['t', '4'][0] == 't',
        seq!['t', '5'][0] == 't',
        seq!['t', '6'][0] == 't',
{
}

/// The numeric register names: `x` followed by the decimal number of a
/// register from 0 to 31 names that register, and a larger number that a
/// byte holds names none.
pub proof fn law_numeric_registers(n: nat)
    ensures
        n < 32 ==> spec_reg(seq!['x'] + dec_text(n)) == Ok::<u8, AsmErr>(n as u8),
        32 <= n <= 255 ==> spec_reg(seq!['x'] + dec_text(n)) is Err,
{
    crate::utils::text::law_decimal_round_trip(n);
    let d = dec_text(n);
    let s = seq!['x'] + d;
    assert(s[0] == 'x');
    assert(s.last() == d.last());
    assert(trim_start(s) == s);
    assert(trim_end(s) == s);
    lemma_abi_first_letters();
    assert(abi_register(s) is None);
    assert(s.drop_first() =~= d);
}

fn abi_number(t: &Vec<char>) -> (r: Option<u8>)
    ensures
        r == abi_register(t@),
{
    if chars_eq(t.as_slice(), &['z', 'e', 'r', 'o']) {
        return Some(0);
    }
    if chars_eq(t.as_slice(), &['r', 'a']) {
        return Some(1);
    }
    if chars_eq(t.as_slice(), &['s', 'p']) {
        return Some(2);
    }
    if chars_eq(t.as_slice(), &['g', 'p']) {
        return Some(3);
    }
    if chars_eq(t.as_slice(), &['t', 'p']) {
        return Some(4);
    }
    if chars_eq(t.as_slice(), &['t', '0']) {
        return Some(5);
    }
    if chars_eq(t.as_slice(), &['t', '1']) {
        return Some(6);
    }
    if chars_eq(t.as_slice(), &['t', '2']) {
        return Some(7);
    }
    if chars_eq(t.as_slice(), &['s', '0']) {
        return Some(8);
    }
    if chars_eq(t.as_slice(), &['f', 'p']) {
        return Some(8);
    }
    if chars_eq(t.as_slice(), &['s', '1']) {
        return Some(9);
    }
    if chars_eq(t.as_slice(), &['a', '0']) {
        return Some(10);
    }
    if chars_eq(t.as_slice(), &['a', '1']) {
        return Some(11);
    }
    if chars_eq(t.as_slice(), &['a', '2']) {
        return Some(12);
    }
    if chars_eq(t.as_slice(), &['a', '3']) {
        return Some(13);
    }
    if chars_eq(t.as_slice(), &['a', '4']) {
        return Some(14);
    }
    if chars_eq(t.as_slice(), &['a', '5']) {
        return Some(15);
    }
    if chars_eq(t.as_slice(), &['a', '6']) {
        return Some(16);
    }
    if chars_eq(t.as_slice(), &['a', '7']) {
        return Some(17);
    }
    if chars_eq(t.as_slice(), &['s', '2']) {
        return Some(18);
    }
    if chars_eq(t.as_slice(), &['s', '3']) {
        return Some(19);
    }
    if chars_eq(t.as_slice(), &['s', '4']) {
        return Some(20);
    }
    if chars_eq(t.as_slice(), &['s', '5']) {
        return Some(21);
    }
    if chars_eq(t.as_slice(), &['s', '6']) {
        return Some(22);
    }
    if chars_eq(t.as_slice(), &['s', '7']) {
        return Some(23);
    }
    if chars_eq(t.as_slice(), &['s', '8']) {
        return Some(24);
    }
    if chars_eq(t.as_slice(), &['s', '9']) {
        return Some(25);
    }
    if chars_eq(t.as_slice(), &['s', '1', '0']) {
        return Some(26);
    }
    if chars_eq(t.as_slice(), &['s', '1', '1']) {
        return Some(27);
    }
    if chars_eq(t.as_slice(), &['t', '3']) {
        return Some(28);
    }
    if chars_eq(t.as_slice(), &['t', '4']) {
        return Some(29);
    }
    if chars_eq(t.as_slice(), &['t', '5']) {
        return Some(30);
    }
    if chars_eq(t.as_slice(), &['t', '6']) {
        return Some(31);
    }
    None
}


/// What `reg` gives for the operand `s`: an ABI name, or `x` and a number
/// from 0 to 31.
pub open spec fn spec_reg(s: Seq<char>) -> Result<u8, AsmErr> {
    let t = trim(s);
    match abi_register(t) {
        Some(n) => Ok(n),
        None => {
            if t.len() > 0 && t[0] == 'x' {
                match spec_parse_u8(t.drop_first()) {
                    Some(n) => if n < 32 { Ok(n as u8) } else { Err((AsmErrorKind::UnknownRegister, t)) },
                    None => Err((AsmErrorKind::UnknownRegister, t)),
                }
            } else {
                Err((AsmErrorKind::UnknownRegister, t))
            }
        },
    }
}

/// Every register that an operand names is one of the 32.
pub proof fn law_registers_in_range(s: Seq<char>)
    ensures
        spec_reg(s) matches Ok(n) ==> n < 32,
{
}

/// The register named by the operand `s`.
fn reg(s: &Vec<char>) -> (r: Result<u8, AsmError>)
    ensures
        res_view(r) == spec_reg(s@),
{
    let t = trim_chars(s);
    if let Some(n) = abi_number(&t) {
        return Ok(n);
    }
    if t.len() > 0 && t[0] == 'x' {
        let digits = slice(&t, 1, t.len());
        proof {
            assert(digits@ =~= t@.drop_first());
        }
        match parse_u8(&digits) {
            Some(n) => if n < 32 { Ok(n) } else { Err(make_error(AsmErrorKind::UnknownRegister, &t)) },
            None => Err(make_error(AsmErrorKind::UnknownRegister, &t)),
        }
    } else {
        Err(make_error(AsmErrorKind::UnknownRegister, &t))
    }
}


// ── Operands ────────────────────────────────────────────────────────────────

/// The comma-separated operands of `s`, trimmed; the fourth holds whatever follows.
pub open spec fn spec_split_ops(s: Seq<char>) -> Seq<Seq<char>> {
    splitn(s, 4, ',').map_values(|p: Seq<char>| trim(p))
}

fn split_ops(s: &Vec<char>) -> (r: Vec<Vec<char>>)
    ensures
        r.deep_view() == spec_split_ops(s@),
{
    let pieces = splitn_chars(s, 4, ',');
    let mut out: Vec<Vec<char>> = Vec::new();
    let mut i: usize = 0;
    while i < pieces.len()
        invariant
            i <= pieces@.len(),
            pieces.deep_view() == splitn(s@, 4, ','),
            out.deep_view() == spec_split_ops(s@).take(i as int),
        decreases pieces@.len() - i,
    {
        let t = trim_chars(&pieces[i]);
        proof {
            assert(t.deep_view() =~= t@);
            assert(pieces.deep_view()[i as int] == pieces@[i as int]@);
        }
        let ghost before = out.deep_view();
        out.push(t);
        i = i + 1;
        proof {
            assert(out.deep_view() =~= before.push(t@));
            assert(out.deep_view() =~= spec_split_ops(s@).take(i as int));
        }
    }
    proof {
        assert(spec_split_ops(s@).take(i as int) =~= spec_split_ops(s@));
    }
    out
}

/// Two registers.
pub open spec fn spec_reg2(s: Seq<char>) -> Result<(u8, u8), AsmErr> {
    let ops = spec_split_ops(s);
    if ops.len() < 2 {
        Err((AsmErrorKind::BadOperands, s))
    } else {
        match spec_reg(ops[0]) {
            Err(e) => Err(e),
            Ok(a) => match spec_reg(ops[1]) {
                Err(e) => Err(e),
                Ok(b) => Ok((a, b)),
            },
        }
    }
}

fn reg2(s: &Vec<char>) -> (r: Result<(u8, u8), AsmError>)
    ensures
        res_view(r) == spec_reg2(s@),
{
    let ops = split_ops(s);
    if ops.len() < 2 {
        return Err(make_error(AsmErrorKind::BadOperands, s));
    }
    proof {
        assert(ops.deep_view()[0] == ops@[0]@);
        assert(ops.deep_view()[1] == ops@[1]@);
    }
    let a = match reg(&ops[0]) {
        Ok(a) => a,
        Err(e) => return Err(e),
    };
    let b = match reg(&ops[1]) {
        Ok(b) => b,
        Err(e) => return Err(e),
    };
    Ok((a, b))
}

/// Three registers.
pub open spec fn spec_reg3(s: Seq<char>) -> Result<(u8, u8, u8), AsmErr> {
    let ops = spec_split_ops(s);
    if ops.len() < 3 {
        Err((AsmErrorKind::BadOperands, s))
    } else {
        match spec_reg(ops[0]) {
            Err(e) => Err(e),
            Ok(a) => match spec_reg(ops[1]) {
                Err(e) => Err(e),
                Ok(b) => match spec_reg(ops[2]) {
                    Err(e) => Err(e),
                    Ok(c) => Ok((a, b, c)),
                },
            },
        }
    }
}

fn reg3(s: &Vec<char>) -> (r: Result<(u8, u8, u8), AsmError>)
    ensures
        res_view(r) == spec_reg3(s@),
{
    let ops = split_ops(s);
    if ops.len() < 3 {
        return Err(make_error(AsmErrorKind::BadOperands, s));
    }
    proof {
        assert(ops.deep_view()[0] == ops@[0]@);
        assert(ops.deep_view()[1] == ops@[1]@);
        assert(ops.deep_view()[2] == ops@[2]@);
    }
    let a = match reg(&ops[0]) {
        Ok(a) => a,
        Err(e) => return Err(e),
    };
    let b = match reg(&ops[1]) {
        Ok(b) => b,
        Err(e) => return Err(e),
    };
    let c = match reg(&ops[2]) {
        Ok(c) => c,
        Err(e) => return Err(e),
    };
    Ok((a, b, c))
}

// ── Labels and immediates ───────────────────────────────────────────────────

/// The address of the label `name`: the last definition of it wins.
pub open spec fn lookup_label(labels: Seq<(Seq<char>, u32)>, name: Seq<char>) -> Option<u32>
    decreases labels.len(),
{
    if labels.len() == 0 {
        None
    } else if labels.last().0 == name {
        Some(labels.last().1)
    } else {
        lookup_label(labels.drop_last(), name)
    }
}

/// Every label stands at an address that an `i32` can hold.
pub open spec fn labels_fit(labels: Seq<(Seq<char>, u32)>) -> bool {
    forall|i: int| 0 <= i < labels.len() ==> (#[trigger] labels[i]).1 < 0x8000_0000
}

proof fn lemma_lookup_fits(labels: Seq<(Seq<char>, u32)>, name: Seq<char>)
    requires
        labels_fit(labels),
    ensures
        lookup_label(labels, name) matches Some(a) ==> a < 0x8000_0000,
    decreases labels.len(),
{
    if labels.len() > 0 {
        let t = labels.drop_last();
        assert forall|i: int| 0 <= i < t.len() implies (#[trigger] t[i]).1 < 0x8000_0000 by {
            assert(t[i] == labels[i]);
        }
        lemma_lookup_fits(t, name);
        assert(labels[labels.len() - 1] == labels.last());
    }
}

fn find_label(labels: &Vec<(Vec<char>, u32)>, name: &Vec<char>) -> (r: Option<u32>)
    ensures
        r == lookup_label(labels.deep_view(), name@),
{
    let ghost lv = labels.deep_view();
    let mut i: usize = labels.len();
    assert(lv.take(i as int) =~= lv);
    while i > 0
        invariant
            i <= labels@.len(),
            lv == labels.deep_view(),
            lookup_label(lv, name@) == lookup_label(lv.take(i as int), name@),
        decreases i,
    {
        let ghost pre = lv.take(i as int);
        proof {
            assert(pre.last() == lv[i - 1]);
            assert(lv[i - 1] == labels@[i - 1].deep_view());
            assert(pre.drop_last() =~= lv.take(i - 1));
        }
        if chars_eq(labels[i - 1].0.as_slice(), name.as_slice()) {
            proof {
                assert(labels@[i - 1].0.deep_view() =~= labels@[i - 1].0@);
            }
            return Some(labels[i - 1].1);
        }
        proof {
            assert(labels@[i - 1].0.deep_view() =~= labels@[i - 1].0@);
        }
        i = i - 1;
    }
    proof {
        assert(lv.take(0) =~= Seq::<(Seq<char>, u32)>::empty());
    }
    None
}

/// A hexadecimal number written with `0x` or `0X` before it.
pub open spec fn spec_parse_hex(t: Seq<char>) -> Option<int> {
    if t.len() >= 2 && t[0] == '0' && (t[1] == 'x' || t[1] == 'X') {
        spec_parse_i32_hex(t.skip(2))
    } else {
        None
    }
}

fn parse_hex(t: &Vec<char>) -> (r: Option<i32>)
    ensures
        r matches Some(v) ==> spec_parse_hex(t@) == Some(v as int),
        r is None ==> spec_parse_hex(t@) is None,
{
    if t.len() >= 2 && t[0] == '0' && (t[1] == 'x' || t[1] == 'X') {
        let h = slice(t, 2, t.len());
        proof {
            assert(h@ =~= t@.skip(2));
        }
        parse_i32_hex(&h)
    } else {
        None
    }
}

/// An immediate: a decimal or hexadecimal number, or a label, which gives its
/// distance from `pc`.
pub open spec fn spec_resolve(s: Seq<char>, pc: u32, labels: Seq<(Seq<char>, u32)>) -> Result<i32, AsmErr> {
    let t = trim(s);
    match spec_parse_i32(t) {
        Some(n) => Ok(n as i32),
        None => match spec_parse_hex(t) {
            Some(n) => Ok(n as i32),
            None => match lookup_label(labels, t) {
                Some(a) => Ok((a - pc) as i32),
                None => Err((AsmErrorKind::UndefinedLabel, t)),
            },
        },
    }
}

/// The lookup finds the address of the last definition of `name`.
proof fn lemma_lookup_last(labels: Seq<(Seq<char>, u32)>, name: Seq<char>, i: int)
    requires
        0 <= i < labels.len(),
        labels[i].0 == name,
        forall|j: int| i < j < labels.len() ==> (#[trigger] labels[j]).0 != name,
    ensures
        lookup_label(labels, name) == Some(labels[i].1),
    decreases labels.len(),
{
    if i < labels.len() - 1 {
        let front = labels.drop_last();
        assert(labels.last() == labels[labels.len() - 1]);
        assert forall|j: int| i < j < front.len() implies (#[trigger] front[j]).0 != name by {
            assert(front[j] == labels[j]);
        }
        lemma_lookup_last(front, name, i);
    }
}

/// The lookup finds nothing for a name that no label has.
proof fn lemma_lookup_none(labels: Seq<(Seq<char>, u32)>, name: Seq<char>)
    requires
        forall|j: int| 0 <= j < labels.len() ==> (#[trigger] labels[j]).0 != name,
    ensures
        lookup_label(labels, name) is None,
    decreases labels.len(),
{
    if labels.len() > 0 {
        let front = labels.drop_last();
        assert(labels.last() == labels[labels.len() - 1]);
        assert forall|j: int| 0 <= j < front.len() implies (#[trigger] front[j]).0 != name by {
            assert(front[j] == labels[j]);
        }
        lemma_lookup_none(front, name);
    }
}

/// A label operand that is no number stands for the offset from the
/// instruction to the label's address, the last definition of the label
/// counting; a name that no label has is an undefined label.
pub proof fn law_label_offsets(name: Seq<char>, pc: u32, labels: Seq<(Seq<char>, u32)>, i: int)
    requires
        trim(name) == name,
        spec_parse_i32(name) is None,
        spec_parse_hex(name) is None,
    ensures
        (0 <= i < labels.len() && labels[i].0 == name
            && forall|j: int| i < j < labels.len() ==> (#[trigger] labels[j]).0 != name)
            ==> spec_resolve(name, pc, labels) == Ok::<i32, AsmErr>((labels[i].1 - pc) as i32),
        (forall|j: int| 0 <= j < labels.len() ==> (#[trigger] labels[j]).0 != name)
            ==> spec_resolve(name, pc, labels) == Err::<i32, AsmErr>((AsmErrorKind::UndefinedLabel, name)),
{
    if 0 <= i < labels.len() && labels[i].0 == name
        && forall|j: int| i < j < labels.len() ==> (#[trigger] labels[j]).0 != name {
        lemma_lookup_last(labels, name, i);
    }
    if forall|j: int| 0 <= j < labels.len() ==> (#[trigger] labels[j]).0 != name {
        lemma_lookup_none(labels, name);
    }
}

fn resolve(s: &Vec<char>, pc: u32, labels: &Vec<(Vec<char>, u32)>) -> (r: Result<i32, AsmError>)
    requires
        pc < 0x8000_0000,
        labels_fit(labels.deep_view()),
    ensures
        res_view(r) == spec_resolve(s@, pc, labels.deep_view()),
{
    let t = trim_chars(s);
    if let Some(n) = parse_i32(&t) {
        return Ok(n);
    }
    if let Some(n) = parse_hex(&t) {
        return Ok(n);
    }
    proof {
        lemma_lookup_fits(labels.deep_view(), t@);
    }
    match find_label(labels, &t) {
        Some(a) => Ok((a as i32) - (pc as i32)),
        None => Err(make_error(AsmErrorKind::UndefinedLabel, &t)),
    }
}


/// A register and an immediate.
pub open spec fn spec_reg_imm(s: Seq<char>, pc: u32, labels: Seq<(Seq<char>, u32)>) -> Result<(u8, i32), AsmErr> {
    let ops = spec_split_ops(s);
    if ops.len() < 2 {
        Err((AsmErrorKind::BadOperands, s))
    } else {
        match spec_reg(ops[0]) {
            Err(e) => Err(e),
            Ok(a) => match spec_resolve(ops[1], pc, labels) {
                Err(e) => Err(e),
                Ok(imm) => Ok((a, imm)),
            },
        }
    }
}

fn reg_imm(s: &Vec<char>, pc: u32, labels: &Vec<(Vec<char>, u32)>) -> (r: Result<(u8, i32), AsmError>)
    requires
        pc < 0x8000_0000,
        labels_fit(labels.deep_view()),
    ensures
        res_view(r) == spec_reg_imm(s@, pc, labels.deep_view()),
{
    let ops = split_ops(s);
    if ops.len() < 2 {
        return Err(make_error(AsmErrorKind::BadOperands, s));
    }
    proof {
        assert(ops.deep_view()[0] == ops@[0]@);
        assert(ops.deep_view()[1] == ops@[1]@);
    }
    let a = match reg(&ops[0]) {
        Ok(a) => a,
        Err(e) => return Err(e),
    };
    let imm = match resolve(&ops[1], pc, labels) {
        Ok(v) => v,
        Err(e) => return Err(e),
    };
    Ok((a, imm))
}

/// Two registers and an immediate.
pub open spec fn spec_reg_reg_imm(s: Seq<char>, pc: u32, labels: Seq<(Seq<char>, u32)>) -> Result<(u8, u8, i32), AsmErr> {
    let ops = spec_split_ops(s);
    if ops.len() < 3 {
        Err((AsmErrorKind::BadOperands, s))
    } else {
        match spec_reg(ops[0]) {
            Err(e) => Err(e),
            Ok(a) => match spec_reg(ops[1]) {
                Err(e) => Err(e),
                Ok(b) => match spec_resolve(ops[2], pc, labels) {
                    Err(e) => Err(e),
                    Ok(imm) => Ok((a, b, imm)),
                },
            },
        }
    }
}

fn reg_reg_imm(s: &Vec<char>, pc: u32, labels: &Vec<(Vec<char>, u32)>) -> (r: Result<(u8, u8, i32), AsmError>)
    requires
        pc < 0x8000_0000,
        labels_fit(labels.deep_view()),
    ensures
        res_view(r) == spec_reg_reg_imm(s@, pc, labels.deep_view()),
{
    let ops = split_ops(s);
    if ops.len() < 3 {
        return Err(make_error(AsmErrorKind::BadOperands, s));
    }
    proof {
        assert(ops.deep_view()[0] == ops@[0]@);
        assert(ops.deep_view()[1] == ops@[1]@);
        assert(ops.deep_view()[2] == ops@[2]@);
    }
    let a = match reg(&ops[0]) {
        Ok(a) => a,
        Err(e) => return Err(e),
    };
    let b = match reg(&ops[1]) {
        Ok(b) => b,
        Err(e) => return Err(e),
    };
    let imm = match resolve(&ops[2], pc, labels) {
        Ok(v) => v,
        Err(e) => return Err(e),
    };
    Ok((a, b, imm))
}

/// Two registers and a branch target; the target is read first.
pub open spec fn spec_reg_reg_label(s: Seq<char>, pc: u32, labels: Seq<(Seq<char>, u32)>) -> Result<(u8, u8, i32), AsmErr> {
    let ops = spec_split_ops(s);
    if ops.len() < 3 {
        Err((AsmErrorKind::BadOperands, s))
    } else {
        match spec_resolve(ops[2], pc, labels) {
            Err(e) => Err(e),
            Ok(target) => match spec_reg(ops[0]) {
                Err(e) => Err(e),
                Ok(a) => match spec_reg(ops[1]) {
                    Err(e) => Err(e),
                    Ok(b) => Ok((a, b, target)),
                },
            },
        }
    }
}

fn reg_reg_label(s: &Vec<char>, pc: u32, labels: &Vec<(Vec<char>, u32)>) -> (r: Result<(u8, u8, i32), AsmError>)
    requires
        pc < 0x8000_0000,
        labels_fit(labels.deep_view()),
    ensures
        res_view(r) == spec_reg_reg_label(s@, pc, labels.deep_view()),
{
    let ops = split_ops(s);
    if ops.len() < 3 {
        return Err(make_error(AsmErrorKind::BadOperands, s));
    }
    proof {
        assert(ops.deep_view()[0] == ops@[0]@);
        assert(ops.deep_view()[1] == ops@[1]@);
        assert(ops.deep_view()[2] == ops@[2]@);
    }
    let target = match resolve(&ops[2], pc, labels) {
        Ok(v) => v,
        Err(e) => return Err(e),
    };
    let a = match reg(&ops[0]) {
        Ok(a) => a,
        Err(e) => return Err(e),
    };
    let b = match reg(&ops[1]) {
        Ok(b) => b,
        Err(e) => return Err(e),
    };
    Ok((a, b, target))
}

/// A register and a jump target.
pub open spec fn spec_reg_label(s: Seq<char>, pc: u32, labels: Seq<(Seq<char>, u32)>) -> Result<(u8, i32), AsmErr> {
    spec_reg_imm(s, pc, labels)
}

fn reg_label(s: &Vec<char>, pc: u32, labels: &Vec<(Vec<char>, u32)>) -> (r: Result<(u8, i32), AsmError>)
    requires
        pc < 0x8000_0000,
        labels_fit(labels.deep_view()),
    ensures
        res_view(r) == spec_reg_label(s@, pc, labels.deep_view()),
{
    reg_imm(s, pc, labels)
}

/// `offset(base)`: the offset (zero when it does not parse) and the text of
/// the base register; `None` where a `)` comes before the first `(`, a case
/// that slicing the text cannot handle.
pub open spec fn spec_parse_mem_operand(s: Seq<char>) -> Option<Result<(i32, Seq<char>), AsmErr>> {
    match find(s, '(') {
        None => Some(Err((AsmErrorKind::BadOperands, s))),
        Some(l) => match find(s, ')') {
            None => Some(Err((AsmErrorKind::BadOperands, s))),
            Some(r) => {
                if r < l + 1 {
                    None
                } else {
                    let off = match spec_parse_i32(trim(s.take(l))) {
                        Some(v) => v as i32,
                        None => 0i32,
                    };
                    Some(Ok((off, s.subrange(l + 1, r))))
                }
            },
        },
    }
}

fn parse_mem_operand(s: &Vec<char>) -> (r: Option<Result<(i32, Vec<char>), AsmError>>)
    ensures
        r is None ==> spec_parse_mem_operand(s@) is None,
        r matches Some(Err(e)) ==> spec_parse_mem_operand(s@) == Some(Err::<(i32, Seq<char>), AsmErr>(e@)),
        r matches Some(Ok((off, base))) ==> spec_parse_mem_operand(s@) == Some(Ok::<(i32, Seq<char>), AsmErr>((off, base@))),
{
    let l = match find_char(s, '(') {
        Some(l) => l,
        None => return Some(Err(make_error(AsmErrorKind::BadOperands, s))),
    };
    let r = match find_char(s, ')') {
        Some(r) => r,
        None => return Some(Err(make_error(AsmErrorKind::BadOperands, s))),
    };
    proof {
        crate::utils::text::lemma_find_bounds(s@, '(');
        crate::utils::text::lemma_find_bounds(s@, ')');
    }
    if r <= l {
        return None;
    }
    let head = slice(s, 0, l);
    let t = trim_chars(&head);
    proof {
        assert(head@ =~= s@.take(l as int));
    }
    let off: i32 = match parse_i32(&t) {
        Some(v) => v,
        None => 0,
    };
    let base = slice(s, l + 1, r);
    Some(Ok((off, base)))
}

/// A register, a comma and `offset(base)`: gives the register, the base and the offset.
pub open spec fn spec_reg_mem(s: Seq<char>) -> Option<Result<(u8, u8, i32), AsmErr>> {
    match find(s, ',') {
        None => Some(Err((AsmErrorKind::BadOperands, s))),
        Some(c) => match spec_reg(trim(s.take(c))) {
            Err(e) => Some(Err(e)),
            Ok(rd) => match spec_parse_mem_operand(trim(s.skip(c + 1))) {
                None => None,
                Some(Err(e)) => Some(Err(e)),
                Some(Ok((off, base))) => match spec_reg(base) {
                    Err(e) => Some(Err(e)),
                    Ok(b) => Some(Ok((rd, b, off))),
                },
            },
        },
    }
}

/// The stored register, a comma and `offset(base)`: gives the base, the
/// stored register and the offset.
pub open spec fn spec_reg_mem_store(s: Seq<char>) -> Option<Result<(u8, u8, i32), AsmErr>> {
    match spec_reg_mem(s) {
        None => None,
        Some(Err(e)) => Some(Err(e)),
        Some(Ok((rs2, base, off))) => Some(Ok((base, rs2, off))),
    }
}

fn reg_mem(s: &Vec<char>) -> (r: Option<Result<(u8, u8, i32), AsmError>>)
    ensures
        opt_res_view(r) == spec_reg_mem(s@),
{
    let c = match find_char(s, ',') {
        Some(c) => c,
        None => return Some(Err(make_error(AsmErrorKind::BadOperands, s))),
    };
    proof {
        crate::utils::text::lemma_find_bounds(s@, ',');
        assert(c < s@.len());
    }
    let head = slice(s, 0, c);
    let head_t = trim_chars(&head);
    proof {
        assert(head@ =~= s@.take(c as int));
    }
    let rd = match reg(&head_t) {
        Ok(v) => v,
        Err(e) => return Some(Err(e)),
    };
    let n = s.len();
    let tail = slice(s, c + 1, n);
    let rest = trim_chars(&tail);
    proof {
        assert(tail@ =~= s@.skip(c as int + 1));
    }
    let (off, base) = match parse_mem_operand(&rest) {
        None => return None,
        Some(Err(e)) => return Some(Err(e)),
        Some(Ok(p)) => p,
    };
    let b = match reg(&base) {
        Ok(v) => v,
        Err(e) => return Some(Err(e)),
    };
    Some(Ok((rd, b, off)))
}

fn reg_mem_store(s: &Vec<char>) -> (r: Option<Result<(u8, u8, i32), AsmError>>)
    ensures
        opt_res_view(r) == spec_reg_mem_store(s@),
{
    match reg_mem(s) {
        None => None,
        Some(Err(e)) => Some(Err(e)),
        Some(Ok((rs2, base, off))) => Some(Ok((base, rs2, off))),
    }
}


// ── Instructions ────────────────────────────────────────────────────────────

/// What the first word of a line names: a pseudo-instruction, which stands
/// for a base instruction with some operands fixed, or a base instruction.
#[derive(Clone, Copy, Debug, PartialEq, Eq, Structural)]
pub enum Mnemonic {
    Nop,
    Mv,
    Li,
    J,
    Jr,
    Ret,
    Not,
    Neg,
    Base(Opcode),
}

/// The mnemonic that the word `m` names.
pub open spec fn spec_mnemonic(m: Seq<char>) -> Option<Mnemonic> {
    if m == seq!['n', 'o', 'p'] {
        Some(Mnemonic::Nop)
    } else if m == seq!['m', 'v'] {
        Some(Mnemonic::Mv)
    } else if m == seq!['l', 'i'] {
        Some(Mnemonic::Li)
    } else if m == seq!['j'] {
        Some(Mnemonic::J)
    } else if m == seq!['j', 'r'] {
        Some(Mnemonic::Jr)
    } else if m == seq!['r', 'e', 't'] {
        Some(Mnemonic::Ret)
    } else if m == seq!['n', 'o', 't'] {
        Some(Mnemonic::Not)
    } else if m == seq!['n', 'e', 'g'] {
        Some(Mnemonic::Neg)
    } else if m == seq!['a', 'd', 'd'] {
        Some(Mnemonic::Base(Opcode::Add))
    } else if m == seq!['s', 'u', 'b'] {
        Some(Mnemonic::Base(Opcode::Sub))
    } else if m == seq!['a', 'n', 'd'] {
        Some(Mnemonic::Base(Opcode::And))
    } else if m == seq!['o', 'r'] {
        Some(Mnemonic::Base(Opcode::Or))
    } else if m == seq!['x', 'o', 'r'] {
        Some(Mnemonic::Base(Opcode::Xor))
    } else if m == seq!['s', 'l', 'l'] {
        Some(Mnemonic::Base(Opcode::Sll))
    } else if m == seq!['s', 'r', 'l'] {
        Some(Mnemonic::Base(Opcode::Srl))
    } else if m == seq!['s', 'r', 'a'] {
        Some(Mnemonic::Base(Opcode::Sra))
    } else if m == seq!['s', 'l', 't'] {
        Some(Mnemonic::Base(Opcode::Slt))
    } else if m == seq!['s', 'l', 't', 'u'] {
        Some(Mnemonic::Base(Opcode::Sltu))
    } else if m == seq!['a', 'd', 'd', 'i'] {
        Some(Mnemonic::Base(Opcode::Addi))
    } else if m == seq!['a', 'n', 'd', 'i'] {
        Some(Mnemonic::Base(Opcode::Andi))
    } else if m == seq!['o', 'r', 'i'] {
        Some(Mnemonic::Base(Opcode::Ori))
    } else if m == seq!['x', 'o', 'r', 'i'] {
        Some(Mnemonic::Base(Opcode::Xori))
    } else if m == seq!['s', 'l', 'l', 'i'] {
        Some(Mnemonic::Base(Opcode::Slli))
    } else if m == seq!['s', 'r', 'l', 'i'] {
        Some(Mnemonic::Base(Opcode::Srli))
    } else if m == seq!['s', 'r', 'a', 'i'] {
        Some(Mnemonic::Base(Opcode::Srai))
    } else if m == seq!['s', 'l', 't', 'i'] {
        Some(Mnemonic::Base(Opcode::Slti))
    } else if m == seq!['s', 'l', 't', 'i', 'u'] {
        Some(Mnemonic::Base(Opcode::Sltiu))
    } else if m == seq!['l', 'b'] {
        Some(Mnemonic::Base(Opcode::Lb))
    } else if m == seq!['l', 'h'] {
        Some(Mnemonic::Base(Opcode::Lh))
    } else if m == seq!['l', 'w'] {
        Some(Mnemonic::Base(Opcode::Lw))
    } else if m == seq!['l', 'b', 'u'] {
        Some(Mnemonic::Base(Opcode::Lbu))
    } else if m == seq!['l', 'h', 'u'] {
        Some(Mnemonic::Base(Opcode::Lhu))
    } else if m == seq!['s', 'b'] {
        Some(Mnemonic::Base(Opcode::Sb))
    } else if m == seq!['s', 'h'] {
        Some(Mnemonic::Base(Opcode::Sh))
    } else if m == seq!['s', 'w'] {
        Some(Mnemonic::Base(Opcode::Sw))
    } else if m == seq!['b', 'e', 'q'] {
        Some(Mnemonic::Base(Opcode::Beq))
    } else if m == seq!['b', 'n', 'e'] {
        Some(Mnemonic::Base(Opcode::Bne))
    } else if m == seq!['b', 'l', 't'] {
        Some(Mnemonic::Base(Opcode::Blt))
    } else if m == seq!['b', 'g', 'e'] {
        Some(Mnemonic::Base(Opcode::Bge))
    } else if m == seq!['b', 'l', 't', 'u'] {
        Some(Mnemonic::Base(Opcode::Bltu))
    } else if m == seq!['b', 'g', 'e', 'u'] {
        Some(Mnemonic::Base(Opcode::Bgeu))
    } else if m == seq!['j', 'a', 'l'] {
        Some(Mnemonic::Base(Opcode::Jal))
    } else if m == seq!['j', 'a', 'l', 'r'] {
        Some(Mnemonic::Base(Opcode::Jalr))
    } else if m == seq!['l', 'u', 'i'] {
        Some(Mnemonic::Base(Opcode::Lui))
    } else if m == seq!['a', 'u', 'i', 'p', 'c'] {
        Some(Mnemonic::Base(Opcode::Auipc))
    } else {
        None
    }
}

#[verifier::rlimit(40)]
fn lookup_mnemonic(m: &Vec<char>) -> (r: Option<Mnemonic>)
    ensures
        r == spec_mnemonic(m@),
{
    if chars_eq(m.as_slice(), &['n', 'o', 'p']) {
        return Some(Mnemonic::Nop);
    }
    if chars_eq(m.as_slice(), &['m', 'v']) {
        return Some(Mnemonic::Mv);
    }
    if chars_eq(m.as_slice(), &['l', 'i']) {
        return Some(Mnemonic::Li);
    }
    if chars_eq(m.as_slice(), &['j']) {
        assert(m@ =~= seq!['j']);
        return Some(Mnemonic::J);
    }
    if chars_eq(m.as_slice(), &['j', 'r']) {
        assert(m@ =~= seq!['j', 'r']);
        assert(seq!['j'].len() == 1);
        return Some(Mnemonic::Jr);
    }
    if chars_eq(m.as_slice(), &['r', 'e', 't']) {
        return Some(Mnemonic::Ret);
    }
    if chars_eq(m.as_slice(), &['n', 'o', 't']) {
        return Some(Mnemonic::Not);
    }
    if chars_eq(m.as_slice(), &['n', 'e', 'g']) {
        return Some(Mnemonic::Neg);
    }
    if chars_eq(m.as_slice(), &['a', 'd', 'd']) {
        return Some(Mnemonic::Base(Opcode::Add));
    }
    if chars_eq(m.as_slice(), &['s', 'u', 'b']) {
        return Some(Mnemonic::Base(Opcode::Sub));
    }
    if chars_eq(m.as_slice(), &['a', 'n', 'd']) {
        return Some(Mnemonic::Base(Opcode::And));
    }
    if chars_eq(m.as_slice(), &['o', 'r']) {
        return Some(Mnemonic::Base(Opcode::Or));
    }
    if chars_eq(m.as_slice(), &['x', 'o', 'r']) {
        return Some(Mnemonic::Base(Opcode::Xor));
    }
    if chars_eq(m.as_slice(), &['s', 'l', 'l']) {
        return Some(Mnemonic::Base(Opcode::Sll));
    }
    if chars_eq(m.as_slice(), &['s', 'r', 'l']) {
        return Some(Mnemonic::Base(Opcode::Srl));
    }
    if chars_eq(m.as_slice(), &['s', 'r', 'a']) {
        return Some(Mnemonic::Base(Opcode::Sra));
    }
    if chars_eq(m.as_slice(), &['s', 'l', 't']) {
        return Some(Mnemonic::Base(Opcode::Slt));
    }
    if chars_eq(m.as_slice(), &['s', 'l', 't', 'u']) {
        return Some(Mnemonic::Base(Opcode::Sltu));
    }
    if chars_eq(m.as_slice(), &['a', 'd', 'd', 'i']) {
        return Some(Mnemonic::Base(Opcode::Addi));
    }
    if chars_eq(m.as_slice(), &['a', 'n', 'd', 'i']) {
        return Some(Mnemonic::Base(Opcode::Andi));
    }
    if chars_eq(m.as_slice(), &['o', 'r', 'i']) {
        return Some(Mnemonic::Base(Opcode::Ori));
    }
    if chars_eq(m.as_slice(), &['x', 'o', 'r', 'i']) {
        return Some(Mnemonic::Base(Opcode::Xori));
    }
    if chars_eq(m.as_slice(), &['s', 'l', 'l', 'i']) {
        return Some(Mnemonic::Base(Opcode::Slli));
    }
    if chars_eq(m.as_slice(), &['s', 'r', 'l', 'i']) {
        return Some(Mnemonic::Base(Opcode::Srli));
    }
    if chars_eq(m.as_slice(), &['s', 'r', 'a', 'i']) {
        return Some(Mnemonic::Base(Opcode::Srai));
    }
    if chars_eq(m.as_slice(), &['s', 'l', 't', 'i']) {
        return Some(Mnemonic::Base(Opcode::Slti));
    }
    if chars_eq(m.as_slice(), &['s', 'l', 't', 'i', 'u']) {
        return Some(Mnemonic::Base(Opcode::Sltiu));
    }
    if chars_eq(m.as_slice(), &['l', 'b']) {
        return Some(Mnemonic::Base(Opcode::Lb));
    }
    if chars_eq(m.as_slice(), &['l', 'h']) {
        return Some(Mnemonic::Base(Opcode::Lh));
    }
    if chars_eq(m.as_slice(), &['l', 'w']) {
        return Some(Mnemonic::Base(Opcode::Lw));
    }
    if chars_eq(m.as_slice(), &['l', 'b', 'u']) {
        return Some(Mnemonic::Base(Opcode::Lbu));
    }
    if chars_eq(m.as_slice(), &['l', 'h', 'u']) {
        return Some(Mnemonic::Base(Opcode::Lhu));
    }
    if chars_eq(m.as_slice(), &['s', 'b']) {
        return Some(Mnemonic::Base(Opcode::Sb));
    }
    if chars_eq(m.as_slice(), &['s', 'h']) {
        return Some(Mnemonic::Base(Opcode::Sh));
    }
    if chars_eq(m.as_slice(), &['s', 'w']) {
        return Some(Mnemonic::Base(Opcode::Sw));
    }
    if chars_eq(m.as_slice(), &['b', 'e', 'q']) {
        return Some(Mnemonic::Base(Opcode::Beq));
    }
    if chars_eq(m.as_slice(), &['b', 'n', 'e']) {
        return Some(Mnemonic::Base(Opcode::Bne));
    }
    if chars_eq(m.as_slice(), &['b', 'l', 't']) {
        return Some(Mnemonic::Base(Opcode::Blt));
    }
    if chars_eq(m.as_slice(), &['b', 'g', 'e']) {
        return Some(Mnemonic::Base(Opcode::Bge));
    }
    if chars_eq(m.as_slice(), &['b', 'l', 't', 'u']) {
        return Some(Mnemonic::Base(Opcode::Bltu));
    }
    if chars_eq(m.as_slice(), &['b', 'g', 'e', 'u']) {
        return Some(Mnemonic::Base(Opcode::Bgeu));
    }
    if chars_eq(m.as_slice(), &['j', 'a', 'l']) {
        assert(m@ =~= seq!['j', 'a', 'l']);
        assert(seq!['j'].len() == 1 && seq!['j', 'r'].len() == 2);
        return Some(Mnemonic::Base(Opcode::Jal));
    }
    if chars_eq(m.as_slice(), &['j', 'a', 'l', 'r']) {
        return Some(Mnemonic::Base(Opcode::Jalr));
    }
    if chars_eq(m.as_slice(), &['l', 'u', 'i']) {
        return Some(Mnemonic::Base(Opcode::Lui));
    }
    if chars_eq(m.as_slice(), &['a', 'u', 'i', 'p', 'c']) {
        return Some(Mnemonic::Base(Opcode::Auipc));
    }
    proof {
        assert(['n', 'o', 'p']@ =~= seq!['n', 'o', 'p']);
        assert(['m', 'v']@ =~= seq!['m', 'v']);
        assert(['l', 'i']@ =~= seq!['l', 'i']);
        assert(['j']@ =~= seq!['j']);
        assert(['j', 'r']@ =~= seq!['j', 'r']);
        assert(['r', 'e', 't']@ =~= seq!['r', 'e', 't']);
        assert(['n', 'o', 't']@ =~= seq!['n', 'o', 't']);
        assert(['n', 'e', 'g']@ =~= seq!['n', 'e', 'g']);
        assert(['a', 'd', 'd']@ =~= seq!['a', 'd', 'd']);
        assert(['s', 'u', 'b']@ =~= seq!['s', 'u', 'b']);
        assert(['a', 'n', 'd']@ =~= seq!['a', 'n', 'd']);
        assert(['o', 'r']@ =~= seq!['o', 'r']);
        assert(['x', 'o', 'r']@ =~= seq!['x', 'o', 'r']);
        assert(['s', 'l', 'l']@ =~= seq!['s', 'l', 'l']);
        assert(['s', 'r', 'l']@ =~= seq!['s', 'r', 'l']);
        assert(['s', 'r', 'a']@ =~= seq!['s', 'r', 'a']);
        assert(['s', 'l', 't']@ =~= seq!['s', 'l', 't']);
        assert(['s', 'l', 't', 'u']@ =~= seq!['s', 'l', 't', 'u']);
        assert(['a', 'd', 'd', 'i']@ =~= seq!['a', 'd', 'd', 'i']);
        assert(['a', 'n', 'd', 'i']@ =~= seq!['a', 'n', 'd', 'i']);
        assert(['o', 'r', 'i']@ =~= seq!['o', 'r', 'i']);
        assert(['x', 'o', 'r', 'i']@ =~= seq!['x', 'o', 'r', 'i']);
        assert(['s', 'l', 'l', 'i']@ =~= seq!['s', 'l', 'l', 'i']);
        assert(['s', 'r', 'l', 'i']@ =~= seq!['s', 'r', 'l', 'i']);
        assert(['s', 'r', 'a', 'i']@ =~= seq!['s', 'r', 'a', 'i']);
        assert(['s', 'l', 't', 'i']@ =~= seq!['s', 'l', 't', 'i']);
        assert(['s', 'l', 't', 'i', 'u']@ =~= seq!['s', 'l', 't', 'i', 'u']);
        assert(['l', 'b']@ =~= seq!['l', 'b']);
        assert(['l', 'h']@ =~= seq!['l', 'h']);
        assert(['l', 'w']@ =~= seq!['l', 'w']);
        assert(['l', 'b', 'u']@ =~= seq!['l', 'b', 'u']);
        assert(['l', 'h', 'u']@ =~= seq!['l', 'h', 'u']);
        assert(['s', 'b']@ =~= seq!['s', 'b']);
        assert(['s', 'h']@ =~= seq!['s', 'h']);
        assert(['s', 'w']@ =~= seq!['s', 'w']);
        assert(['b', 'e', 'q']@ =~= seq!['b', 'e', 'q']);
        assert(['b', 'n', 'e']@ =~= seq!['b', 'n', 'e']);
        assert(['b', 'l', 't']@ =~= seq!['b', 'l', 't']);
        assert(['b', 'g', 'e']@ =~= seq!['b', 'g', 'e']);
        assert(['b', 'l', 't', 'u']@ =~= seq!['b', 'l', 't', 'u']);
        assert(['b', 'g', 'e', 'u']@ =~= seq!['b', 'g', 'e', 'u']);
        assert(['j', 'a', 'l']@ =~= seq!['j', 'a', 'l']);
        assert(['j', 'a', 'l', 'r']@ =~= seq!['j', 'a', 'l', 'r']);
        assert(['l', 'u', 'i']@ =~= seq!['l', 'u', 'i']);
        assert(['a', 'u', 'i', 'p', 'c']@ =~= seq!['a', 'u', 'i', 'p', 'c']);
    }
    None
}

/// The funct3 field that each instruction is encoded with.
pub open spec fn spec_funct3(op: Opcode) -> u32 {
    match op {
        Opcode::Add | Opcode::Sub | Opcode::Addi | Opcode::Lb | Opcode::Sb | Opcode::Beq | Opcode::Jal | Opcode::Jalr | Opcode::Lui | Opcode::Auipc => 0,
        Opcode::Sll | Opcode::Slli | Opcode::Lh | Opcode::Sh | Opcode::Bne => 1,
        Opcode::Slt | Opcode::Slti | Opcode::Lw | Opcode::Sw => 2,
        Opcode::Sltu | Opcode::Sltiu => 3,
        Opcode::Xor | Opcode::Xori | Opcode::Lbu | Opcode::Blt => 4,
        Opcode::Srl | Opcode::Sra | Opcode::Srli | Opcode::Srai | Opcode::Lhu | Opcode::Bge => 5,
        Opcode::Or | Opcode::Ori | Opcode::Bltu => 6,
        Opcode::And | Opcode::Andi | Opcode::Bgeu => 7,
    }
}

fn funct3(op: Opcode) -> (r: u32)
    ensures
        r == spec_funct3(op),
{
    match op {
        Opcode::Add | Opcode::Sub | Opcode::Addi | Opcode::Lb | Opcode::Sb | Opcode::Beq | Opcode::Jal | Opcode::Jalr | Opcode::Lui | Opcode::Auipc => 0,
        Opcode::Sll | Opcode::Slli | Opcode::Lh | Opcode::Sh | Opcode::Bne => 1,
        Opcode::Slt | Opcode::Slti | Opcode::Lw | Opcode::Sw => 2,
        Opcode::Sltu | Opcode::Sltiu => 3,
        Opcode::Xor | Opcode::Xori | Opcode::Lbu | Opcode::Blt => 4,
        Opcode::Srl | Opcode::Sra | Opcode::Srli | Opcode::Srai | Opcode::Lhu | Opcode::Bge => 5,
        Opcode::Or | Opcode::Ori | Opcode::Bltu => 6,
        Opcode::And | Opcode::Andi | Opcode::Bgeu => 7,
    }
}

/// The funct7 field of a register-register instruction.
pub open spec fn spec_funct7(op: Opcode) -> u32 {
    match op {
        Opcode::Sub | Opcode::Sra => 0x20,
        _ => 0,
    }
}

/// The assembler writes the RV32I funct3 and funct7 codes of each operation.
pub proof fn law_rv32i_funct_codes()
    ensures
        spec_funct3(Opcode::Add) == 0 && spec_funct3(Opcode::Sub) == 0 && spec_funct3(Opcode::Sll) == 1
            && spec_funct3(Opcode::Slt) == 2 && spec_funct3(Opcode::Sltu) == 3 && spec_funct3(Opcode::Xor) == 4
            && spec_funct3(Opcode::Srl) == 5 && spec_funct3(Opcode::Sra) == 5 && spec_funct3(Opcode::Or) == 6
            && spec_funct3(Opcode::And) == 7,
        spec_funct3(Opcode::Addi) == 0 && spec_funct3(Opcode::Slli) == 1 && spec_funct3(Opcode::Slti) == 2
            && spec_funct3(Opcode::Sltiu) == 3 && spec_funct3(Opcode::Xori) == 4 && spec_funct3(Opcode::Srli) == 5
            && spec_funct3(Opcode::Srai) == 5 && spec_funct3(Opcode::Ori) == 6 && spec_funct3(Opcode::Andi) == 7,
        spec_funct3(Opcode::Lb) == 0 && spec_funct3(Opcode::Lh) == 1 && spec_funct3(Opcode::Lw) == 2
            && spec_funct3(Opcode::Lbu) == 4 && spec_funct3(Opcode::Lhu) == 5,
        spec_funct3(Opcode::Sb) == 0 && spec_funct3(Opcode::Sh) == 1 && spec_funct3(Opcode::Sw) == 2,
        spec_funct3(Opcode::Beq) == 0 && spec_funct3(Opcode::Bne) == 1 && spec_funct3(Opcode::Blt) == 4
            && spec_funct3(Opcode::Bge) == 5 && spec_funct3(Opcode::Bltu) == 6 && spec_funct3(Opcode::Bgeu) == 7,
        spec_funct3(Opcode::Jalr) == 0,
        spec_funct7(Opcode::Sub) == 0x20 && spec_funct7(Opcode::Sra) == 0x20,
        spec_funct7(Opcode::Add) == 0 && spec_funct7(Opcode::Sll) == 0 && spec_funct7(Opcode::Slt) == 0
            && spec_funct7(Opcode::Sltu) == 0 && spec_funct7(Opcode::Xor) == 0 && spec_funct7(Opcode::Srl) == 0
            && spec_funct7(Opcode::Or) == 0 && spec_funct7(Opcode::And) == 0,
{
}

fn funct7(op: Opcode) -> (r: u32)
    ensures
        r == spec_funct7(op),
{
    match op {
        Opcode::Sub | Opcode::Sra => 0x20,
        _ => 0,
    }
}

/// The word for a pseudo-instruction or a base instruction with the operands `rest`.
pub open spec fn spec_encode(mn: Mnemonic, rest: Seq<char>, pc: u32, labels: Seq<(Seq<char>, u32)>) -> Option<Result<u32, AsmErr>> {
    match mn {
        Mnemonic::Nop => Some(Ok(0x13u32)),
        Mnemonic::Mv => Some(match spec_reg2(rest) {
            Err(e) => Err(e),
            Ok((rd, rs)) => Ok(spec_i_type(rd, rs, 0, 0x0, 0x13)),
        }),
        Mnemonic::Li => Some(match spec_reg_imm(rest, pc, labels) {
            Err(e) => Err(e),
            Ok((rd, imm)) => Ok(spec_i_type(rd, 0, imm, 0x0, 0x13)),
        }),
        Mnemonic::J => Some(match spec_resolve(rest, pc, labels) {
            Err(e) => Err(e),
            Ok(off) => Ok(spec_j_type(0, off)),
        }),
        Mnemonic::Jr => Some(match spec_reg(rest) {
            Err(e) => Err(e),
            Ok(rs) => Ok(spec_i_type(0, rs, 0, 0x0, 0x67)),
        }),
        Mnemonic::Ret => Some(Ok(spec_i_type(0, 1, 0, 0x0, 0x67))),
        Mnemonic::Not => Some(match spec_reg2(rest) {
            Err(e) => Err(e),
            Ok((rd, rs)) => Ok(spec_i_type(rd, rs, -1i32, 0x4, 0x13)),
        }),
        Mnemonic::Neg => Some(match spec_reg2(rest) {
            Err(e) => Err(e),
            Ok((rd, rs)) => Ok(spec_r_type(rd, 0, rs, 0x0, 0x20, 0x33)),
        }),
        Mnemonic::Base(op) => spec_encode_base(op, rest, pc, labels),
    }
}

/// The word for a base instruction with the operands `rest`.
pub open spec fn spec_encode_base(op: Opcode, rest: Seq<char>, pc: u32, labels: Seq<(Seq<char>, u32)>) -> Option<Result<u32, AsmErr>> {
    let f3 = spec_funct3(op);
    match op {
        Opcode::Add | Opcode::Sub | Opcode::And | Opcode::Or | Opcode::Xor | Opcode::Sll
        | Opcode::Srl | Opcode::Sra | Opcode::Slt | Opcode::Sltu => Some(match spec_reg3(rest) {
            Err(e) => Err(e),
            Ok((rd, rs1, rs2)) => Ok(spec_r_type(rd, rs1, rs2, f3, spec_funct7(op), 0x33)),
        }),
        Opcode::Addi | Opcode::Andi | Opcode::Ori | Opcode::Xori | Opcode::Slli | Opcode::Srli
        | Opcode::Srai | Opcode::Slti | Opcode::Sltiu => Some(match spec_reg_reg_imm(rest, pc, labels) {
            Err(e) => Err(e),
            Ok((rd, rs1, imm)) => {
                let imm = if op == Opcode::Srai { imm | (0x20i32 << 5u32) } else { imm };
                Ok(spec_i_type(rd, rs1, imm, f3, 0x13))
            },
        }),
        Opcode::Lb | Opcode::Lh | Opcode::Lw | Opcode::Lbu | Opcode::Lhu => match spec_reg_mem(rest) {
            None => None,
            Some(Err(e)) => Some(Err(e)),
            Some(Ok((rd, rs1, imm))) => Some(Ok(spec_i_type(rd, rs1, imm, f3, 0x03))),
        },
        Opcode::Sb | Opcode::Sh | Opcode::Sw => match spec_reg_mem_store(rest) {
            None => None,
            Some(Err(e)) => Some(Err(e)),
            Some(Ok((rs1, rs2, imm))) => Some(Ok(spec_s_type(rs1, rs2, imm, f3))),
        },
        Opcode::Beq | Opcode::Bne | Opcode::Blt | Opcode::Bge | Opcode::Bltu
        | Opcode::Bgeu => Some(match spec_reg_reg_label(rest, pc, labels) {
            Err(e) => Err(e),
            Ok((rs1, rs2, off)) => Ok(spec_b_type(rs1, rs2, off, f3)),
        }),
        Opcode::Jal => Some(match spec_reg_label(rest, pc, labels) {
            Err(e) => Err(e),
            Ok((rd, off)) => Ok(spec_j_type(rd, off)),
        }),
        Opcode::Jalr => Some(match spec_reg_reg_imm(rest, pc, labels) {
            Err(e) => Err(e),
            Ok((rd, rs1, imm)) => Ok(spec_i_type(rd, rs1, imm, 0x0, 0x67)),
        }),
        Opcode::Lui => Some(match spec_reg_imm(rest, pc, labels) {
            Err(e) => Err(e),
            Ok((rd, imm)) => Ok(spec_u_type(rd, imm, 0x37)),
        }),
        Opcode::Auipc => Some(match spec_reg_imm(rest, pc, labels) {
            Err(e) => Err(e),
            Ok((rd, imm)) => Ok(spec_u_type(rd, imm, 0x17)),
        }),
    }
}

fn encode_base(op: Opcode, rest: &Vec<char>, pc: u32, labels: &Vec<(Vec<char>, u32)>) -> (r: Option<Result<u32, AsmError>>)
    requires
        pc < 0x8000_0000,
        labels_fit(labels.deep_view()),
    ensures
        opt_res_view(r) == spec_encode_base(op, rest@, pc, labels.deep_view()),
{
    let f3 = funct3(op);
    match op {
        Opcode::Add | Opcode::Sub | Opcode::And | Opcode::Or | Opcode::Xor | Opcode::Sll
        | Opcode::Srl | Opcode::Sra | Opcode::Slt | Opcode::Sltu => Some(match reg3(rest) {
            Err(e) => Err(e),
            Ok((rd, rs1, rs2)) => Ok(r_type(rd, rs1, rs2, f3, funct7(op), 0x33)),
        }),
        Opcode::Addi | Opcode::Andi | Opcode::Ori | Opcode::Xori | Opcode::Slli | Opcode::Srli
        | Opcode::Srai | Opcode::Slti | Opcode::Sltiu => Some(match reg_reg_imm(rest, pc, labels) {
            Err(e) => Err(e),
            Ok((rd, rs1, imm)) => {
                let imm = if op == Opcode::Srai { imm | (0x20i32 << 5u32) } else { imm };
                Ok(i_type(rd, rs1, imm, f3, 0x13))
            },
        }),
        Opcode::Lb | Opcode::Lh | Opcode::Lw | Opcode::Lbu | Opcode::Lhu => match reg_mem(rest) {
            None => None,
            Some(Err(e)) => Some(Err(e)),
            Some(Ok((rd, rs1, imm))) => Some(Ok(i_type(rd, rs1, imm, f3, 0x03))),
        },
        Opcode::Sb | Opcode::Sh | Opcode::Sw => match reg_mem_store(rest) {
            None => None,
            Some(Err(e)) => Some(Err(e)),
            Some(Ok((rs1, rs2, imm))) => Some(Ok(s_type(rs1, rs2, imm, f3))),
        },
        Opcode::Beq | Opcode::Bne | Opcode::Blt | Opcode::Bge | Opcode::Bltu
        | Opcode::Bgeu => Some(match reg_reg_label(rest, pc, labels) {
            Err(e) => Err(e),
            Ok((rs1, rs2, off)) => Ok(b_type(rs1, rs2, off, f3)),
        }),
        Opcode::Jal => Some(match reg_label(rest, pc, labels) {
            Err(e) => Err(e),
            Ok((rd, off)) => Ok(j_type(rd, off)),
        }),
        Opcode::Jalr => Some(match reg_reg_imm(rest, pc, labels) {
            Err(e) => Err(e),
            Ok((rd, rs1, imm)) => Ok(i_type(rd, rs1, imm, 0x0, 0x67)),
        }),
        Opcode::Lui => Some(match reg_imm(rest, pc, labels) {
            Err(e) => Err(e),
            Ok((rd, imm)) => Ok(u_type(rd, imm, 0x37)),
        }),
        Opcode::Auipc => Some(match reg_imm(rest, pc, labels) {
            Err(e) => Err(e),
            Ok((rd, imm)) => Ok(u_type(rd, imm, 0x17)),
        }),
    }
}

fn encode(mn: Mnemonic, rest: &Vec<char>, pc: u32, labels: &Vec<(Vec<char>, u32)>) -> (r: Option<Result<u32, AsmError>>)
    requires
        pc < 0x8000_0000,
        labels_fit(labels.deep_view()),
    ensures
        opt_res_view(r) == spec_encode(mn, rest@, pc, labels.deep_view()),
{
    match mn {
        Mnemonic::Nop => Some(Ok(0x00000013)),
        Mnemonic::Mv => Some(match reg2(rest) {
            Err(e) => Err(e),
            Ok((rd, rs)) => Ok(i_type(rd, rs, 0, 0x0, 0x13)),
        }),
        Mnemonic::Li => Some(match reg_imm(rest, pc, labels) {
            Err(e) => Err(e),
            Ok((rd, imm)) => Ok(i_type(rd, 0, imm, 0x0, 0x13)),
        }),
        Mnemonic::J => Some(match resolve(rest, pc, labels) {
            Err(e) => Err(e),
            Ok(off) => Ok(j_type(0, off)),
        }),
        Mnemonic::Jr => Some(match reg(rest) {
            Err(e) => Err(e),
            Ok(rs) => Ok(i_type(0, rs, 0, 0x0, 0x67)),
        }),
        Mnemonic::Ret => Some(Ok(i_type(0, 1, 0, 0x0, 0x67))),
        Mnemonic::Not => Some(match reg2(rest) {
            Err(e) => Err(e),
            Ok((rd, rs)) => Ok(i_type(rd, rs, -1, 0x4, 0x13)),
        }),
        Mnemonic::Neg => Some(match reg2(rest) {
            Err(e) => Err(e),
            Ok((rd, rs)) => Ok(r_type(rd, 0, rs, 0x0, 0x20, 0x33)),
        }),
        Mnemonic::Base(op) => encode_base(op, rest, pc, labels),
    }
}

/// The mnemonic of a line (up to its first whitespace) and its operands.
pub open spec fn spec_split_line(line: Seq<char>) -> (Seq<char>, Seq<char>) {
    match find_ws(line) {
        Some(i) => (line.take(i), trim(line.skip(i + 1))),
        None => (line, Seq::empty()),
    }
}

/// The word that a line of assembly at address `pc` turns into.
pub open spec fn spec_assemble_line(line: Seq<char>, pc: u32, labels: Seq<(Seq<char>, u32)>) -> Option<Result<u32, AsmErr>> {
    let (m, rest) = spec_split_line(line);
    match spec_mnemonic(m) {
        None => Some(Err((AsmErrorKind::UnknownInstruction, m))),
        Some(mn) => spec_encode(mn, rest, pc, labels),
    }
}

/// The word that one line of assembly at address `pc` turns into, with the
/// labels `labels`; `None` where its memory operand has `)` before `(`.
pub fn assemble_line(line: &Vec<char>, pc: u32, labels: &Vec<(Vec<char>, u32)>) -> (r: Option<Result<u32, AsmError>>)
    requires
        pc < 0x8000_0000,
        labels_fit(labels.deep_view()),
    ensures
        opt_res_view(r) == spec_assemble_line(line@, pc, labels.deep_view()),
{
    let n = line.len();
    let (m, rest) = match find_whitespace(line) {
        Some(i) => {
            proof {
                crate::utils::text::lemma_find_ws_bounds(line@);
            }
            let m = slice(line, 0, i);
            let tail = slice(line, i + 1, n);
            proof {
                assert(m@ =~= line@.take(i as int));
                assert(tail@ =~= line@.skip(i as int + 1));
            }
            (m, trim_chars(&tail))
        },
        None => {
            let m = slice(line, 0, n);
            proof {
                assert(m@ =~= line@);
            }
            (m, Vec::new())
        },
    };
    proof {
        assert(rest@ =~= spec_split_line(line@).1);
    }
    match lookup_mnemonic(&m) {
        None => Some(Err(make_error(AsmErrorKind::UnknownInstruction, &m))),
        Some(mn) => encode(mn, &rest, pc, labels),
    }
}


// ── Pass one: lines and labels ──────────────────────────────────────────────

/// The part of a raw line before its comment.
pub open spec fn before_hash(p: Seq<char>) -> Seq<char> {
    match find(p, '#') {
        Some(i) => p.take(i),
        None => p,
    }
}

/// A line that defines a label.
pub open spec fn is_label_line(line: Seq<char>) -> bool {
    line.len() > 0 && line.last() == ':'
}

/// The lines that carry something, each with the address it stands at: a
/// label takes the address of the instruction after it.
pub open spec fn clean_pieces(pieces: Seq<Seq<char>>, addr: int) -> Seq<(u32, Seq<char>)>
    decreases pieces.len(),
{
    if pieces.len() == 0 {
        Seq::empty()
    } else {
        let line = trim(before_hash(pieces[0]));
        let rest = pieces.drop_first();
        if line.len() == 0 {
            clean_pieces(rest, addr)
        } else if is_label_line(line) {
            seq![(addr as u32, line)] + clean_pieces(rest, addr)
        } else {
            seq![(addr as u32, line)] + clean_pieces(rest, addr + 4)
        }
    }
}

/// The lines of `source` without comments, blank lines and surrounding
/// whitespace, each with its address.
pub open spec fn spec_clean(source: Seq<char>) -> Seq<(u32, Seq<char>)> {
    clean_pieces(split(source, '\n'), 0)
}

/// The longest source that the assembler takes, counted in lines: every
/// address it gives then fits in an `i32`.
pub open spec fn source_fits(source: Seq<char>) -> bool {
    split(source, '\n').len() <= 0x2000_0000
}

/// Every line stands at an address that an `i32` can hold.
pub open spec fn lines_fit(lines: Seq<(u32, Seq<char>)>) -> bool {
    forall|i: int| 0 <= i < lines.len() ==> (#[trigger] lines[i]).0 < 0x8000_0000
}

fn clean(source: &Vec<char>) -> (out: Vec<(u32, Vec<char>)>)
    requires
        source_fits(source@),
    ensures
        out.deep_view() == spec_clean(source@),
        lines_fit(out.deep_view()),
{
    let pieces = split_chars(source, '\n');
    let ghost pv = pieces.deep_view();
    let mut out: Vec<(u32, Vec<char>)> = Vec::new();
    let mut addr: u32 = 0;
    let mut i: usize = 0;
    assert(pv.skip(0) =~= pv);
    while i < pieces.len()
        invariant
            pv == pieces.deep_view(),
            pv.len() <= 0x2000_0000,
            i <= pv.len(),
            addr <= 4 * i,
            spec_clean(source@) == out.deep_view() + clean_pieces(pv.skip(i as int), addr as int),
            lines_fit(out.deep_view()),
        decreases pv.len() - i,
    {
        let ghost rest = pv.skip(i as int);
        proof {
            assert(rest[0] == pv[i as int]);
            assert(rest.drop_first() =~= pv.skip(i as int + 1));
            assert(pv[i as int] == pieces@[i as int]@);
        }
        let piece = &pieces[i];
        let before = match find_char(piece, '#') {
            Some(h) => {
                proof {
                    lemma_find_bounds(piece@, '#');
                }
                slice(piece, 0, h)
            },
            None => slice(piece, 0, piece.len()),
        };
        proof {
            assert(before@ =~= before_hash(piece@));
        }
        let line = trim_chars(&before);
        let ghost before_out = out.deep_view();
        if line.len() == 0 {
        } else if line[line.len() - 1] == ':' {
            let ghost lv = line@;
            assert(line.deep_view() =~= lv);
            out.push((addr, line));
            proof {
                assert(out.deep_view() =~= before_out.push((addr, lv)));
                assert(before_out + (seq![(addr as u32, lv)] + clean_pieces(pv.skip(i as int + 1), addr as int))
                    =~= out.deep_view() + clean_pieces(pv.skip(i as int + 1), addr as int));
            }
        } else {
            let ghost lv = line@;
            assert(line.deep_view() =~= lv);
            out.push((addr, line));
            proof {
                assert(out.deep_view() =~= before_out.push((addr, lv)));
                assert(before_out + (seq![(addr as u32, lv)] + clean_pieces(pv.skip(i as int + 1), addr + 4))
                    =~= out.deep_view() + clean_pieces(pv.skip(i as int + 1), addr + 4));
            }
            addr = addr + 4;
        }
        i = i + 1;
    }
    proof {
        assert(pv.skip(i as int) =~= Seq::<Seq<char>>::empty());
        assert(out.deep_view() + Seq::<(u32, Seq<char>)>::empty() =~= out.deep_view());
    }
    out
}

/// The labels that `lines` define, in order, each with its address.
pub open spec fn spec_collect_labels(lines: Seq<(u32, Seq<char>)>) -> Seq<(Seq<char>, u32)>
    decreases lines.len(),
{
    if lines.len() == 0 {
        Seq::empty()
    } else {
        let (addr, line) = lines.last();
        let earlier = spec_collect_labels(lines.drop_last());
        if is_label_line(line) {
            earlier.push((trim(line.drop_last()), addr))
        } else {
            earlier
        }
    }
}

fn collect_labels(lines: &Vec<(u32, Vec<char>)>) -> (labels: Vec<(Vec<char>, u32)>)
    requires
        lines_fit(lines.deep_view()),
    ensures
        labels.deep_view() == spec_collect_labels(lines.deep_view()),
        labels_fit(labels.deep_view()),
{
    let ghost lv = lines.deep_view();
    let mut labels: Vec<(Vec<char>, u32)> = Vec::new();
    let mut i: usize = 0;
    while i < lines.len()
        invariant
            lv == lines.deep_view(),
            lines_fit(lv),
            i <= lv.len(),
            labels.deep_view() == spec_collect_labels(lv.take(i as int)),
            labels_fit(labels.deep_view()),
        decreases lv.len() - i,
    {
        proof {
            assert(lv.take(i as int + 1).drop_last() =~= lv.take(i as int));
            assert(lv.take(i as int + 1).last() == lv[i as int]);
            assert(lv[i as int] == (lines@[i as int].0, lines@[i as int].1@));
        }
        let (addr, line) = (lines[i].0, &lines[i].1);
        let n = line.len();
        if n > 0 && line[n - 1] == ':' {
            let body = slice(line, 0, n - 1);
            proof {
                assert(body@ =~= line@.drop_last());
            }
            let name = trim_chars(&body);
            let ghost before = labels.deep_view();
            let ghost nv = name@;
            assert(name.deep_view() =~= nv);
            labels.push((name, addr));
            proof {
                assert(labels.deep_view() =~= before.push((nv, addr)));
                assert(lv[i as int].0 < 0x8000_0000);
            }
        }
        i = i + 1;
    }
    proof {
        assert(lv.take(i as int) =~= lv);
    }
    labels
}


// ── Pass two: instruction words ─────────────────────────────────────────────

/// The words of the instruction lines among `lines`; the first error stops it.
pub open spec fn spec_emit(lines: Seq<(u32, Seq<char>)>, labels: Seq<(Seq<char>, u32)>) -> Option<Result<Seq<u32>, AsmErr>>
    decreases lines.len(),
{
    if lines.len() == 0 {
        Some(Ok(Seq::empty()))
    } else {
        let (addr, line) = lines[0];
        let rest = spec_emit(lines.drop_first(), labels);
        if is_label_line(line) {
            rest
        } else {
            match spec_assemble_line(line, addr, labels) {
                None => None,
                Some(Err(e)) => Some(Err(e)),
                Some(Ok(w)) => prepend_words(seq![w], rest),
            }
        }
    }
}

/// `words` followed by what `rest` gives, if it gives words.
pub open spec fn prepend_words(words: Seq<u32>, rest: Option<Result<Seq<u32>, AsmErr>>) -> Option<Result<Seq<u32>, AsmErr>> {
    match rest {
        None => None,
        Some(Err(e)) => Some(Err(e)),
        Some(Ok(ws)) => Some(Ok(words + ws)),
    }
}

/// A list of words, or an error, or a fault, as the contracts see it.
pub open spec fn words_view(r: Option<Result<Vec<u32>, AsmError>>) -> Option<Result<Seq<u32>, AsmErr>> {
    match r {
        None => None,
        Some(Ok(ws)) => Some(Ok(ws@)),
        Some(Err(e)) => Some(Err(e@)),
    }
}

fn emit(lines: &Vec<(u32, Vec<char>)>, labels: &Vec<(Vec<char>, u32)>) -> (r: Option<Result<Vec<u32>, AsmError>>)
    requires
        lines_fit(lines.deep_view()),
        labels_fit(labels.deep_view()),
    ensures
        words_view(r) == spec_emit(lines.deep_view(), labels.deep_view()),
{
    let ghost lv = lines.deep_view();
    let ghost labv = labels.deep_view();
    let mut out: Vec<u32> = Vec::new();
    let mut i: usize = 0;
    assert(lv.skip(0) =~= lv);
    while i < lines.len()
        invariant
            lv == lines.deep_view(),
            labv == labels.deep_view(),
            lines_fit(lv),
            labels_fit(labv),
            i <= lv.len(),
            spec_emit(lv, labv) == prepend_words(out@, spec_emit(lv.skip(i as int), labv)),
        decreases lv.len() - i,
    {
        let ghost rest = lv.skip(i as int);
        proof {
            assert(rest[0] == lv[i as int]);
            assert(rest.drop_first() =~= lv.skip(i as int + 1));
            assert(lv[i as int] == (lines@[i as int].0, lines@[i as int].1@));
            assert(lv[i as int].0 < 0x8000_0000);
        }
        let (addr, line) = (lines[i].0, &lines[i].1);
        let n = line.len();
        if !(n > 0 && line[n - 1] == ':') {
            match assemble_line(line, addr, labels) {
                None => return None,
                Some(Err(e)) => return Some(Err(e)),
                Some(Ok(w)) => {
                    let ghost before = out@;
                    out.push(w);
                    proof {
                        let tail = spec_emit(lv.skip(i as int + 1), labv);
                        match tail {
                            Some(Ok(ws)) => {
                                assert(before + (seq![w] + ws) =~= out@ + ws);
                            },
                            _ => {},
                        }
                    }
                },
            }
        }
        i = i + 1;
    }
    proof {
        assert(lv.skip(i as int) =~= Seq::<(u32, Seq<char>)>::empty());
        assert(out@ + Seq::<u32>::empty() =~= out@);
    }
    Some(Ok(out))
}

/// What assembling `source` gives: the instruction words, or the first error,
/// or `None` where a line is one that the assembler cannot take apart (a
/// memory operand whose `)` comes before its `(`).
pub open spec fn spec_assemble(source: Seq<char>) -> Option<Result<Seq<u32>, AsmErr>> {
    let lines = spec_clean(source);
    spec_emit(lines, spec_collect_labels(lines))
}

/// Assembles `source`, or says which line was bad, or gives `None` for a
/// memory operand whose `)` comes before its `(`.
pub fn assemble_checked(source: &str) -> (r: Option<Result<Vec<u32>, AsmError>>)
    requires
        source_fits(source@),
    ensures
        words_view(r) == spec_assemble(source@),
{
    let chars = to_chars(source);
    let lines = clean(&chars);
    let labels = collect_labels(&lines);
    emit(&lines, &labels)
}

/// Assembles RV32I source text into instruction words: one word per
/// instruction line, labels resolved to offsets from the instruction that
/// names them, comments after `#` ignored.
pub fn assemble(source: &str) -> (r: Result<Vec<u32>, AsmError>)
    requires
        source_fits(source@),
        spec_assemble(source@) is Some,
    ensures
        Some(res_view_words(r)) == spec_assemble(source@),
{
    match assemble_checked(source) {
        Some(r) => r,
        None => vstd::pervasive::unreached(),
    }
}

/// The words, or the error, as the contracts see them.
pub open spec fn res_view_words(r: Result<Vec<u32>, AsmError>) -> Result<Seq<u32>, AsmErr> {
    match r {
        Ok(ws) => Ok(ws@),
        Err(e) => Err(e@),
    }
}


// ── What the decoder reads back ─────────────────────────────────────────────

/// An R-type word carries its six fields where the decoder looks for them.
pub proof fn law_r_type_fields(rd: u8, rs1: u8, rs2: u8, funct3: u32, funct7: u32, opcode: u32)
    requires
        rd < 32,
        rs1 < 32,
        rs2 < 32,
        funct3 < 8,
        funct7 < 128,
        opcode < 128,
    ensures
        opcode_bits(spec_r_type(rd, rs1, rs2, funct3, funct7, opcode)) == opcode,
        rd_field(spec_r_type(rd, rs1, rs2, funct3, funct7, opcode)) == rd,
        funct3_field(spec_r_type(rd, rs1, rs2, funct3, funct7, opcode)) == funct3,
        rs1_field(spec_r_type(rd, rs1, rs2, funct3, funct7, opcode)) == rs1,
        rs2_field(spec_r_type(rd, rs1, rs2, funct3, funct7, opcode)) == rs2,
        funct7_field(spec_r_type(rd, rs1, rs2, funct3, funct7, opcode)) == funct7,
{
    let (a, b, c) = (rd as u32, rs1 as u32, rs2 as u32);
    let w = spec_r_type(rd, rs1, rs2, funct3, funct7, opcode);
    assert(w == opcode | (a << 7u32) | (funct3 << 12u32) | (b << 15u32) | (c << 20u32) | (funct7 << 25u32));
    assert({
        let w = opcode | (a << 7u32) | (funct3 << 12u32) | (b << 15u32) | (c << 20u32) | (funct7 << 25u32);
        &&& w & 0x7f == opcode
        &&& (w >> 7u32) & 0x1f == a
        &&& (w >> 12u32) & 0x07 == funct3
        &&& (w >> 15u32) & 0x1f == b
        &&& (w >> 20u32) & 0x1f == c
        &&& (w >> 25u32) & 0x7f == funct7
    }) by (bit_vector)
        requires
            a < 32,
            b < 32,
            c < 32,
            funct3 < 8,
            funct7 < 128,
            opcode < 128,
    ;
}

/// An I-type word carries its fields where the decoder looks for them, and
/// an immediate of twelve signed bits comes back whole.
pub proof fn law_i_type_fields(rd: u8, rs1: u8, imm: i32, funct3: u32, opcode: u32)
    requires
        rd < 32,
        rs1 < 32,
        -2048 <= imm < 2048,
        funct3 < 8,
        opcode < 128,
    ensures
        opcode_bits(spec_i_type(rd, rs1, imm, funct3, opcode)) == opcode,
        rd_field(spec_i_type(rd, rs1, imm, funct3, opcode)) == rd,
        funct3_field(spec_i_type(rd, rs1, imm, funct3, opcode)) == funct3,
        rs1_field(spec_i_type(rd, rs1, imm, funct3, opcode)) == rs1,
        imm_i(spec_i_type(rd, rs1, imm, funct3, opcode)) == imm,
        0 <= imm < 32 ==> funct7_field(spec_i_type(rd, rs1, imm, funct3, opcode)) == 0,
        0 <= imm < 32 ==> funct7_field(spec_i_type(rd, rs1, imm | 0x400i32, funct3, opcode)) == 0x20,
{
    let (a, b) = (rd as u32, rs1 as u32);
    let w = spec_i_type(rd, rs1, imm, funct3, opcode);
    assert(w == opcode | (a << 7u32) | (funct3 << 12u32) | (b << 15u32) | (((imm as u32) & 0xfff) << 20u32));
    assert({
        let w = opcode | (a << 7u32) | (funct3 << 12u32) | (b << 15u32) | (((imm as u32) & 0xfff) << 20u32);
        &&& w & 0x7f == opcode
        &&& (w >> 7u32) & 0x1f == a
        &&& (w >> 12u32) & 0x07 == funct3
        &&& (w >> 15u32) & 0x1f == b
        &&& (w as i32) >> 20u32 == imm
        &&& (0 <= imm < 32 ==> (w >> 25u32) & 0x7f == 0)
    }) by (bit_vector)
        requires
            a < 32,
            b < 32,
            -2048 <= imm < 2048,
            funct3 < 8,
            opcode < 128,
    ;
    if 0 <= imm < 32 {
        let imm2 = imm | 0x400i32;
        let w2 = spec_i_type(rd, rs1, imm2, funct3, opcode);
        assert(w2 == opcode | (a << 7u32) | (funct3 << 12u32) | (b << 15u32) | (((imm2 as u32) & 0xfff) << 20u32));
        assert({
            let w2 = opcode | (a << 7u32) | (funct3 << 12u32) | (b << 15u32) | (((imm2 as u32) & 0xfff) << 20u32);
            (w2 >> 25u32) & 0x7f == 0x20
        }) by (bit_vector)
            requires
                imm2 == imm | 0x400i32,
                0 <= imm < 32,
                a < 32,
                b < 32,
                funct3 < 8,
                opcode < 128,
        ;
    }
}

/// An S-type word carries its fields where the decoder looks for them, and
/// an offset of twelve signed bits comes back whole.
pub proof fn law_s_type_fields(rs1: u8, rs2: u8, imm: i32, funct3: u32)
    requires
        rs1 < 32,
        rs2 < 32,
        -2048 <= imm < 2048,
        funct3 < 8,
    ensures
        opcode_bits(spec_s_type(rs1, rs2, imm, funct3)) == 0x23,
        funct3_field(spec_s_type(rs1, rs2, imm, funct3)) == funct3,
        rs1_field(spec_s_type(rs1, rs2, imm, funct3)) == rs1,
        rs2_field(spec_s_type(rs1, rs2, imm, funct3)) == rs2,
        imm_s(spec_s_type(rs1, rs2, imm, funct3)) == imm,
{
    let (a, b) = (rs1 as u32, rs2 as u32);
    let w = spec_s_type(rs1, rs2, imm, funct3);
    assert(w == 0x23u32 | (funct3 << 12u32) | (a << 15u32) | (b << 20u32) | (((imm as u32) & 0x1f) << 7u32)
        | (((imm as u32) >> 5u32) << 25u32));
    assert({
        let w = 0x23u32 | (funct3 << 12u32) | (a << 15u32) | (b << 20u32) | (((imm as u32) & 0x1f) << 7u32)
            | (((imm as u32) >> 5u32) << 25u32);
        &&& w & 0x7f == 0x23
        &&& (w >> 12u32) & 0x07 == funct3
        &&& (w >> 15u32) & 0x1f == a
        &&& (w >> 20u32) & 0x1f == b
        &&& ((((w as i32) >> 25u32) << 5u32) | (((w >> 7u32) & 0x1f) as i32)) == imm
    }) by (bit_vector)
        requires
            a < 32,
            b < 32,
            -2048 <= imm < 2048,
            funct3 < 8,
    ;
}

/// A B-type word carries its fields where the decoder looks for them, and an
/// even offset of thirteen signed bits comes back whole.
pub proof fn law_b_type_fields(rs1: u8, rs2: u8, imm: i32, funct3: u32)
    requires
        rs1 < 32,
        rs2 < 32,
        -4096 <= imm < 4096,
        imm % 2 == 0,
        funct3 < 8,
    ensures
        opcode_bits(spec_b_type(rs1, rs2, imm, funct3)) == 0x63,
        funct3_field(spec_b_type(rs1, rs2, imm, funct3)) == funct3,
        rs1_field(spec_b_type(rs1, rs2, imm, funct3)) == rs1,
        rs2_field(spec_b_type(rs1, rs2, imm, funct3)) == rs2,
        imm_b(spec_b_type(rs1, rs2, imm, funct3)) == imm,
{
    let (a, b) = (rs1 as u32, rs2 as u32);
    let u = imm as u32;
    let w = spec_b_type(rs1, rs2, imm, funct3);
    assert(imm & 1 == 0) by (bit_vector)
        requires
            imm % 2 == 0,
    ;
    assert(w == 0x63u32 | (funct3 << 12u32) | (a << 15u32) | (b << 20u32) | (((u >> 11u32) & 1) << 7u32)
        | (((u >> 1u32) & 0xf) << 8u32) | (((u >> 5u32) & 0x3f) << 25u32) | (((u >> 12u32) & 1) << 31u32));
    assert({
        let w = 0x63u32 | (funct3 << 12u32) | (a << 15u32) | (b << 20u32) | (((u >> 11u32) & 1) << 7u32)
            | (((u >> 1u32) & 0xf) << 8u32) | (((u >> 5u32) & 0x3f) << 25u32) | (((u >> 12u32) & 1) << 31u32);
        &&& w & 0x7f == 0x63
        &&& (w >> 12u32) & 0x07 == funct3
        &&& (w >> 15u32) & 0x1f == a
        &&& (w >> 20u32) & 0x1f == b
        &&& ((((w as i32) >> 31u32) << 12u32) | ((((w >> 7u32) & 1) as i32) << 11u32)
            | ((((w >> 25u32) & 0x3f) as i32) << 5u32) | ((((w >> 8u32) & 0xf) as i32) << 1u32)) == imm
    }) by (bit_vector)
        requires
            a < 32,
            b < 32,
            u == imm as u32,
            -4096 <= imm < 4096,
            imm & 1 == 0,
            funct3 < 8,
    ;
}

/// A U-type word carries its fields where the decoder looks for them: the
/// upper twenty bits of the immediate, the low twelve cleared.
pub proof fn law_u_type_fields(rd: u8, imm: i32, opcode: u32)
    requires
        rd < 32,
        opcode < 128,
    ensures
        opcode_bits(spec_u_type(rd, imm, opcode)) == opcode,
        rd_field(spec_u_type(rd, imm, opcode)) == rd,
        imm_u(spec_u_type(rd, imm, opcode)) == ((imm as u32) & 0xfffff000) as i32,
        imm % 4096 == 0 ==> imm_u(spec_u_type(rd, imm, opcode)) == imm,
{
    let a = rd as u32;
    let w = spec_u_type(rd, imm, opcode);
    assert(w == opcode | (a << 7u32) | ((imm as u32) & 0xfffff000));
    assert(imm % 4096 == 0 ==> imm & 0xfff == 0) by (bit_vector);
    assert({
        let w = opcode | (a << 7u32) | ((imm as u32) & 0xfffff000);
        &&& w & 0x7f == opcode
        &&& (w >> 7u32) & 0x1f == a
        &&& (w & 0xfffff000) as i32 == ((imm as u32) & 0xfffff000) as i32
        &&& (imm & 0xfff == 0 ==> ((imm as u32) & 0xfffff000) as i32 == imm)
    }) by (bit_vector)
        requires
            a < 32,
            opcode < 128,
    ;
}

/// A J-type word carries its fields where the decoder looks for them, and an
/// even offset of twenty-one signed bits comes back whole.
pub proof fn law_j_type_fields(rd: u8, imm: i32)
    requires
        rd < 32,
        -0x10_0000 <= imm < 0x10_0000,
        imm % 2 == 0,
    ensures
        opcode_bits(spec_j_type(rd, imm)) == 0x6f,
        rd_field(spec_j_type(rd, imm)) == rd,
        imm_j(spec_j_type(rd, imm)) == imm,
{
    let a = rd as u32;
    let u = imm as u32;
    let w = spec_j_type(rd, imm);
    assert(imm & 1 == 0) by (bit_vector)
        requires
            imm % 2 == 0,
    ;
    assert(w == 0x6fu32 | (a << 7u32) | (u & 0xff000) | (((u >> 11u32) & 1) << 20u32)
        | (((u >> 1u32) & 0x3ff) << 21u32) | (((u >> 20u32) & 1) << 31u32));
    assert({
        let w = 0x6fu32 | (a << 7u32) | (u & 0xff000) | (((u >> 11u32) & 1) << 20u32)
            | (((u >> 1u32) & 0x3ff) << 21u32) | (((u >> 20u32) & 1) << 31u32);
        &&& w & 0x7f == 0x6f
        &&& (w >> 7u32) & 0x1f == a
        &&& ((((w as i32) >> 31u32) << 20u32) | ((((w >> 12u32) & 0xff) as i32) << 12u32)
            | ((((w >> 20u32) & 1) as i32) << 11u32) | ((((w >> 21u32) & 0x3ff) as i32) << 1u32)) == imm
    }) by (bit_vector)
        requires
            a < 32,
            u == imm as u32,
            -0x10_0000 <= imm < 0x10_0000,
            imm & 1 == 0,
    ;
}


/// The register-register instructions.
pub open spec fn is_r_op(op: Opcode) -> bool {
    matches!(op, Opcode::Add | Opcode::Sub | Opcode::And | Opcode::Or | Opcode::Xor | Opcode::Sll
        | Opcode::Srl | Opcode::Sra | Opcode::Slt | Opcode::Sltu)
}

/// The register-immediate arithmetic instructions.
pub open spec fn is_i_alu_op(op: Opcode) -> bool {
    matches!(op, Opcode::Addi | Opcode::Andi | Opcode::Ori | Opcode::Xori | Opcode::Slli
        | Opcode::Srli | Opcode::Srai | Opcode::Slti | Opcode::Sltiu)
}

/// The shifts by an immediate.
pub open spec fn is_shift_imm_op(op: Opcode) -> bool {
    matches!(op, Opcode::Slli | Opcode::Srli | Opcode::Srai)
}

/// The loads, the stores and the branches.
pub open spec fn is_load_op(op: Opcode) -> bool {
    matches!(op, Opcode::Lb | Opcode::Lh | Opcode::Lw | Opcode::Lbu | Opcode::Lhu)
}

pub open spec fn is_store_op(op: Opcode) -> bool {
    matches!(op, Opcode::Sb | Opcode::Sh | Opcode::Sw)
}

pub open spec fn is_branch_op(op: Opcode) -> bool {
    matches!(op, Opcode::Beq | Opcode::Bne | Opcode::Blt | Opcode::Bge | Opcode::Bltu | Opcode::Bgeu)
}

/// The decoder reads a register-register word that the assembler writes
/// back as the same instruction with the same registers.
pub proof fn law_decode_r_type(op: Opcode, rd: u8, rs1: u8, rs2: u8)
    requires
        is_r_op(op),
        rd < 32,
        rs1 < 32,
        rs2 < 32,
    ensures
        spec_decode(spec_r_type(rd, rs1, rs2, spec_funct3(op), spec_funct7(op), 0x33)) == Some(
            DecodedInstr { opcode: op, format: InstrFormat::R, rd, rs1, rs2, imm: 0 },
        ),
{
    law_r_type_fields(rd, rs1, rs2, spec_funct3(op), spec_funct7(op), 0x33);
}

/// The decoder reads a register-immediate word that the assembler writes
/// back as the same instruction, registers and immediate (`srai` carries its
/// marker bit in the immediate).
pub proof fn law_decode_i_alu(op: Opcode, rd: u8, rs1: u8, imm: i32)
    requires
        is_i_alu_op(op),
        rd < 32,
        rs1 < 32,
        if is_shift_imm_op(op) { 0 <= imm < 32 } else { -2048 <= imm < 2048 },
    ensures
        ({
            let enc = if op == Opcode::Srai { imm | (0x20i32 << 5u32) } else { imm };
            spec_decode(spec_i_type(rd, rs1, enc, spec_funct3(op), 0x13)) matches Some(d)
                && d.opcode == op && d.format == InstrFormat::I && d.rd == rd && d.rs1 == rs1
                && d.imm == enc
        }),
{
    assert(0x20i32 << 5u32 == 0x400i32) by (bit_vector);
    if op == Opcode::Srai {
        let enc = imm | 0x400i32;
        assert(-2048 <= enc < 2048) by (bit_vector)
            requires
                enc == imm | 0x400i32,
                0 <= imm < 32,
        ;
        law_i_type_fields(rd, rs1, enc, spec_funct3(op), 0x13);
        law_i_type_fields(rd, rs1, imm, spec_funct3(op), 0x13);
    } else {
        law_i_type_fields(rd, rs1, imm, spec_funct3(op), 0x13);
    }
}

/// The decoder reads a load word that the assembler writes back as the same
/// load, registers and offset.
pub proof fn law_decode_load(op: Opcode, rd: u8, rs1: u8, imm: i32)
    requires
        is_load_op(op),
        rd < 32,
        rs1 < 32,
        -2048 <= imm < 2048,
    ensures
        spec_decode(spec_i_type(rd, rs1, imm, spec_funct3(op), 0x03)) matches Some(d) && d.opcode == op
            && d.format == InstrFormat::I && d.rd == rd && d.rs1 == rs1 && d.imm == imm,
{
    law_i_type_fields(rd, rs1, imm, spec_funct3(op), 0x03);
}

/// The decoder reads a store word that the assembler writes back as the same
/// store, registers and offset.
pub proof fn law_decode_store(op: Opcode, rs1: u8, rs2: u8, imm: i32)
    requires
        is_store_op(op),
        rs1 < 32,
        rs2 < 32,
        -2048 <= imm < 2048,
    ensures
        spec_decode(spec_s_type(rs1, rs2, imm, spec_funct3(op))) matches Some(d) && d.opcode == op
            && d.format == InstrFormat::S && d.rs1 == rs1 && d.rs2 == rs2 && d.imm == imm,
{
    law_s_type_fields(rs1, rs2, imm, spec_funct3(op));
}

/// The decoder reads a branch word that the assembler writes back as the same
/// branch, registers and offset.
pub proof fn law_decode_branch(op: Opcode, rs1: u8, rs2: u8, imm: i32)
    requires
        is_branch_op(op),
        rs1 < 32,
        rs2 < 32,
        -4096 <= imm < 4096,
        imm % 2 == 0,
    ensures
        spec_decode(spec_b_type(rs1, rs2, imm, spec_funct3(op))) matches Some(d) && d.opcode == op
            && d.format == InstrFormat::B && d.rs1 == rs1 && d.rs2 == rs2 && d.imm == imm,
{
    law_b_type_fields(rs1, rs2, imm, spec_funct3(op));
}

/// The decoder reads the jumps and the upper-immediate instructions that the
/// assembler writes back as themselves.
pub proof fn law_decode_jumps_and_upper(rd: u8, rs1: u8, imm: i32)
    requires
        rd < 32,
        rs1 < 32,
    ensures
        -0x10_0000 <= imm < 0x10_0000 && imm % 2 == 0 ==> (spec_decode(spec_j_type(rd, imm)) matches Some(d)
            && d.opcode == Opcode::Jal && d.format == InstrFormat::J && d.rd == rd && d.imm == imm),
        -2048 <= imm < 2048 ==> (spec_decode(spec_i_type(rd, rs1, imm, 0, 0x67)) matches Some(d)
            && d.opcode == Opcode::Jalr && d.format == InstrFormat::I && d.rd == rd && d.rs1 == rs1
            && d.imm == imm),
        spec_decode(spec_u_type(rd, imm, 0x37)) matches Some(d) && d.opcode == Opcode::Lui
            && d.format == InstrFormat::U && d.rd == rd && d.imm == ((imm as u32) & 0xfffff000) as i32,
        spec_decode(spec_u_type(rd, imm, 0x17)) matches Some(d) && d.opcode == Opcode::Auipc
            && d.format == InstrFormat::U && d.rd == rd && d.imm == ((imm as u32) & 0xfffff000) as i32,
{
    if -0x10_0000 <= imm < 0x10_0000 && imm % 2 == 0 {
        law_j_type_fields(rd, imm);
    }
    if -2048 <= imm < 2048 {
        law_i_type_fields(rd, rs1, imm, 0, 0x67);
    }
    law_u_type_fields(rd, imm, 0x37);
    law_u_type_fields(rd, imm, 0x17);
}


/// Each pseudo-instruction assembles to the word of its base instruction:
/// `nop` is `addi x0, x0, 0`, `mv` is `addi rd, rs, 0`, `li` is
/// `addi rd, x0, imm`, `j` is `jal x0, off`, `jr` is `jalr x0, rs, 0`, `ret` is
/// `jalr x0, x1, 0`, `not` is `xori rd, rs, -1` and `neg` is `sub rd, x0, rs`.
pub proof fn law_pseudo_instructions(rest: Seq<char>, pc: u32, labels: Seq<(Seq<char>, u32)>)
    ensures
        spec_encode(Mnemonic::Nop, rest, pc, labels) == Some(Ok::<u32, AsmErr>(
            spec_i_type(0, 0, 0, spec_funct3(Opcode::Addi), 0x13),
        )),
        spec_reg2(rest) matches Ok((rd, rs)) ==> spec_encode(Mnemonic::Mv, rest, pc, labels) == Some(
            Ok::<u32, AsmErr>(spec_i_type(rd, rs, 0, spec_funct3(Opcode::Addi), 0x13)),
        ),
        spec_reg_imm(rest, pc, labels) matches Ok((rd, imm)) ==> spec_encode(Mnemonic::Li, rest, pc, labels)
            == Some(Ok::<u32, AsmErr>(spec_i_type(rd, 0, imm, spec_funct3(Opcode::Addi), 0x13))),
        spec_resolve(rest, pc, labels) matches Ok(off) ==> spec_encode(Mnemonic::J, rest, pc, labels) == Some(
            Ok::<u32, AsmErr>(spec_j_type(0, off)),
        ),
        spec_reg(rest) matches Ok(rs) ==> spec_encode(Mnemonic::Jr, rest, pc, labels) == Some(
            Ok::<u32, AsmErr>(spec_i_type(0, rs, 0, spec_funct3(Opcode::Jalr), 0x67)),
        ),
        spec_encode(Mnemonic::Ret, rest, pc, labels) == Some(Ok::<u32, AsmErr>(
            spec_i_type(0, 1, 0, spec_funct3(Opcode::Jalr), 0x67),
        )),
        spec_reg2(rest) matches Ok((rd, rs)) ==> spec_encode(Mnemonic::Not, rest, pc, labels) == Some(
            Ok::<u32, AsmErr>(spec_i_type(rd, rs, -1i32, spec_funct3(Opcode::Xori), 0x13)),
        ),
        spec_reg2(rest) matches Ok((rd, rs)) ==> spec_encode(Mnemonic::Neg, rest, pc, labels) == Some(
            Ok::<u32, AsmErr>(spec_r_type(rd, 0, rs, spec_funct3(Opcode::Sub), spec_funct7(Opcode::Sub), 0x33)),
        ),
{
    assert(spec_i_type(0, 0, 0, 0, 0x13) == 0x13u32) by (bit_vector);
}


/// A line whose mnemonic is a pseudo-instruction assembles to the same word as
/// a line of its base instruction whose operands read as the fixed ones:
/// `nop` as `addi x0, x0, 0`, `mv rd, rs` as `addi rd, rs, 0`, `li rd, n` as
/// `addi rd, x0, n`, `j L` as `jal x0, L`, `jr rs` as `jalr x0, rs, 0`, `ret`
/// as `jalr x0, x1, 0`, `not rd, rs` as `xori rd, rs, -1` and `neg rd, rs` as
/// `sub rd, x0, rs`.
pub proof fn law_pseudo_lines(l1: Seq<char>, l2: Seq<char>, pc: u32, labels: Seq<(Seq<char>, u32)>)
    ensures
        ({
            let (m1, r1) = spec_split_line(l1);
            let (m2, r2) = spec_split_line(l2);
            let same = spec_assemble_line(l1, pc, labels) == spec_assemble_line(l2, pc, labels);
            &&& (m1 == seq!['n', 'o', 'p'] && m2 == seq!['a', 'd', 'd', 'i']
                && spec_reg_reg_imm(r2, pc, labels) == Ok::<(u8, u8, i32), AsmErr>((0u8, 0u8, 0i32))) ==> same
            &&& (m1 == seq!['m', 'v'] && m2 == seq!['a', 'd', 'd', 'i']) ==> (spec_reg2(r1) matches Ok((rd, rs))
                ==> (spec_reg_reg_imm(r2, pc, labels) == Ok::<(u8, u8, i32), AsmErr>((rd, rs, 0i32)) ==> same))
            &&& (m1 == seq!['l', 'i'] && m2 == seq!['a', 'd', 'd', 'i']) ==> (spec_reg_imm(r1, pc, labels) matches Ok((rd, n))
                ==> (spec_reg_reg_imm(r2, pc, labels) == Ok::<(u8, u8, i32), AsmErr>((rd, 0u8, n)) ==> same))
            &&& (m1 == seq!['j'] && m2 == seq!['j', 'a', 'l']) ==> (spec_resolve(r1, pc, labels) matches Ok(off)
                ==> (spec_reg_label(r2, pc, labels) == Ok::<(u8, i32), AsmErr>((0u8, off)) ==> same))
            &&& (m1 == seq!['j', 'r'] && m2 == seq!['j', 'a', 'l', 'r']) ==> (spec_reg(r1) matches Ok(rs)
                ==> (spec_reg_reg_imm(r2, pc, labels) == Ok::<(u8, u8, i32), AsmErr>((0u8, rs, 0i32)) ==> same))
            &&& (m1 == seq!['r', 'e', 't'] && m2 == seq!['j', 'a', 'l', 'r']
                && spec_reg_reg_imm(r2, pc, labels) == Ok::<(u8, u8, i32), AsmErr>((0u8, 1u8, 0i32))) ==> same
            &&& (m1 == seq!['n', 'o', 't'] && m2 == seq!['x', 'o', 'r', 'i']) ==> (spec_reg2(r1) matches Ok((rd, rs))
                ==> (spec_reg_reg_imm(r2, pc, labels) == Ok::<(u8, u8, i32), AsmErr>((rd, rs, -1i32)) ==> same))
            &&& (m1 == seq!['n', 'e', 'g'] && m2 == seq!['s', 'u', 'b']) ==> (spec_reg2(r1) matches Ok((rd, rs))
                ==> (spec_reg3(r2) == Ok::<(u8, u8, u8), AsmErr>((rd, 0u8, rs)) ==> same))
        }),
{
    lemma_pseudo_mnemonics();
    assert(spec_i_type(0, 0, 0, 0, 0x13) == 0x13u32) by (bit_vector);
}

/// The words that name the pseudo-instructions and their base instructions.
proof fn lemma_pseudo_mnemonics()
    ensures
        spec_mnemonic(seq!['n', 'o', 'p']) == Some(Mnemonic::Nop),
        spec_mnemonic(seq!['m', 'v']) == Some(Mnemonic::Mv),
        spec_mnemonic(seq!['l', 'i']) == Some(Mnemonic::Li),
        spec_mnemonic(seq!['j']) == Some(Mnemonic::J),
        spec_mnemonic(seq!['j', 'r']) == Some(Mnemonic::Jr),
        spec_mnemonic(seq!['r', 'e', 't']) == Some(Mnemonic::Ret),
        spec_mnemonic(seq!['n', 'o', 't']) == Some(Mnemonic::Not),
        spec_mnemonic(seq!['n', 'e', 'g']) == Some(Mnemonic::Neg),
        spec_mnemonic(seq!['a', 'd', 'd', 'i']) == Some(Mnemonic::Base(Opcode::Addi)),
        spec_mnemonic(seq!['j', 'a', 'l']) == Some(Mnemonic::Base(Opcode::Jal)),
        spec_mnemonic(seq!['j', 'a', 'l', 'r']) == Some(Mnemonic::Base(Opcode::Jalr)),
        spec_mnemonic(seq!['x', 'o', 'r', 'i']) == Some(Mnemonic::Base(Opcode::Xori)),
        spec_mnemonic(seq!['s', 'u', 'b']) == Some(Mnemonic::Base(Opcode::Sub)),
{
    assert(spec_mnemonic(seq!['n', 'o', 'p']) == Some(Mnemonic::Nop));
    assert(spec_mnemonic(seq!['m', 'v']) == Some(Mnemonic::Mv));
    assert(spec_mnemonic(seq!['l', 'i']) == Some(Mnemonic::Li)) by {
        assert(seq!['l', 'i'][0] != seq!['m', 'v'][0]);
    }
    assert(spec_mnemonic(seq!['j']) == Some(Mnemonic::J));
    assert(spec_mnemonic(seq!['j', 'r']) == Some(Mnemonic::Jr)) by {
        assert(seq!['j', 'r'][0] != seq!['m', 'v'][0]);
        assert(seq!['j', 'r'][0] != seq!['l', 'i'][0]);
        assert(seq!['j', 'r'].len() != seq!['j'].len());
        assert(seq!['j', 'r'].len() != seq!['n', 'o', 'p'].len());
    }
    assert(spec_mnemonic(seq!['r', 'e', 't']) == Some(Mnemonic::Ret)) by {
        assert(seq!['r', 'e', 't'][0] != seq!['n', 'o', 'p'][0]);
    }
    assert(spec_mnemonic(seq!['n', 'o', 't']) == Some(Mnemonic::Not)) by {
        assert(seq!['n', 'o', 't'][2] != seq!['n', 'o', 'p'][2]);
        assert(seq!['n', 'o', 't'][0] != seq!['r', 'e', 't'][0]);
    }
    assert(spec_mnemonic(seq!['n', 'e', 'g']) == Some(Mnemonic::Neg)) by {
        assert(seq!['n', 'e', 'g'][1] != seq!['n', 'o', 'p'][1]);
        assert(seq!['n', 'e', 'g'][0] != seq!['r', 'e', 't'][0]);
        assert(seq!['n', 'e', 'g'][1] != seq!['n', 'o', 't'][1]);
    }
    let addi = seq!['a', 'd', 'd', 'i'];
    assert(spec_mnemonic(addi) == Some(Mnemonic::Base(Opcode::Addi))) by {
        assert(addi.len() == 4 && addi[0] == 'a');
        assert(seq!['s', 'l', 't', 'u'][0] == 's');
    }
    let jal = seq!['j', 'a', 'l'];
    assert(spec_mnemonic(jal) == Some(Mnemonic::Base(Opcode::Jal))) by {
        assert(jal.len() == 3 && jal[0] == 'j');
        assert(seq!['j'].len() == 1 && seq!['j', 'r'].len() == 2);
    }
    let jalr = seq!['j', 'a', 'l', 'r'];
    assert(spec_mnemonic(jalr) == Some(Mnemonic::Base(Opcode::Jalr))) by {
        assert(jalr.len() == 4 && jalr[0] == 'j');
        assert(seq!['j'].len() == 1 && seq!['j', 'r'].len() == 2 && jal.len() == 3);
    }
    let xori = seq!['x', 'o', 'r', 'i'];
    assert(spec_mnemonic(xori) == Some(Mnemonic::Base(Opcode::Xori))) by {
        assert(xori.len() == 4 && xori[0] == 'x');
        assert(seq!['x', 'o', 'r'].len() == 3);
    }
    let sub = seq!['s', 'u', 'b'];
    assert(spec_mnemonic(sub) == Some(Mnemonic::Base(Opcode::Sub))) by {
        assert(sub.len() == 3 && sub[0] == 's' && sub[1] == 'u');
    }
}


/// The instruction lines among `lines`, in order: those that define no label.
pub open spec fn instruction_lines(lines: Seq<(u32, Seq<char>)>) -> Seq<(u32, Seq<char>)>
    decreases lines.len(),
{
    if lines.len() == 0 {
        Seq::empty()
    } else if is_label_line(lines[0].1) {
        instruction_lines(lines.drop_first())
    } else {
        seq![lines[0]] + instruction_lines(lines.drop_first())
    }
}

/// The words that the second pass gives are those of the instruction lines,
/// one each, in order.
proof fn lemma_emit_words(lines: Seq<(u32, Seq<char>)>, labels: Seq<(Seq<char>, u32)>)
    ensures
        spec_emit(lines, labels) matches Some(Ok(ws)) ==> {
            let il = instruction_lines(lines);
            &&& ws.len() == il.len()
            &&& forall|i: int| 0 <= i < ws.len() ==> spec_assemble_line(#[trigger] il[i].1, il[i].0, labels)
                == Some(Ok::<u32, AsmErr>(ws[i]))
        },
    decreases lines.len(),
{
    if lines.len() > 0 {
        let rest = lines.drop_first();
        lemma_emit_words(rest, labels);
        let il = instruction_lines(lines);
        let ir = instruction_lines(rest);
        if !is_label_line(lines[0].1) {
            if let Some(Ok(ws)) = spec_emit(lines, labels) {
                let w = ws[0];
                assert(spec_assemble_line(lines[0].1, lines[0].0, labels) == Some(Ok::<u32, AsmErr>(w)));
                let wr = ws.drop_first();
                assert(spec_emit(rest, labels) == Some(Ok::<Seq<u32>, AsmErr>(wr))) by {
                    if let Some(Ok(ws2)) = spec_emit(rest, labels) {
                        assert(ws == seq![w] + ws2);
                        assert(wr =~= ws2);
                    }
                }
                assert forall|i: int| 0 <= i < ws.len() implies spec_assemble_line(#[trigger] il[i].1, il[i].0, labels)
                    == Some(Ok::<u32, AsmErr>(ws[i])) by {
                    if i > 0 {
                        assert(il[i] == ir[i - 1]);
                        assert(ws[i] == wr[i - 1]);
                    }
                }
            }
        }
    }
}

/// Assembling a source gives one word for each of its instruction lines, in
/// order, and each is the word that `assemble_line` gives for that line at its
/// address with the labels of the whole source.
pub proof fn law_assemble_words(source: Seq<char>)
    ensures
        spec_assemble(source) matches Some(Ok(ws)) ==> {
            let lines = spec_clean(source);
            let il = instruction_lines(lines);
            &&& ws.len() == il.len()
            &&& forall|i: int| 0 <= i < ws.len() ==> spec_assemble_line(#[trigger] il[i].1, il[i].0,
                spec_collect_labels(lines)) == Some(Ok::<u32, AsmErr>(ws[i]))
        },
{
    let lines = spec_clean(source);
    lemma_emit_words(lines, spec_collect_labels(lines));
}

/// The decoder reads the word of a base instruction line back as that
/// instruction with the registers and the immediate that its operands name,
/// wherever the immediate fits its field: 12 bits signed for the
/// register-immediate instructions, loads, stores and `jalr`, 0 to 31 for
/// shifts, an even 13-bit offset for branches and an even 21-bit one for
/// `jal`; `lui` and `auipc` keep the upper 20 bits of theirs.
pub proof fn law_line_decodes(line: Seq<char>, pc: u32, labels: Seq<(Seq<char>, u32)>)
    ensures
        ({
            let (m, rest) = spec_split_line(line);
            let w = spec_assemble_line(line, pc, labels);
            &&& spec_mnemonic(m) matches Some(Mnemonic::Base(op)) ==> {
            &&& is_r_op(op) ==> (spec_reg3(rest)
                matches Ok((rd, rs1, rs2)) ==> (w matches Some(Ok(x)) && spec_decode(x) == Some(
                DecodedInstr { opcode: op, format: InstrFormat::R, rd, rs1, rs2, imm: 0 })))
            &&& is_i_alu_op(op) ==> (
                spec_reg_reg_imm(rest, pc, labels) matches Ok((rd, rs1, imm)) ==> (
                (if is_shift_imm_op(op) { 0 <= imm < 32 } else { -2048 <= imm < 2048 }) ==> (
                w matches Some(Ok(x)) && spec_decode(x) matches Some(d) && d.opcode == op
                && d.format == InstrFormat::I && d.rd == rd && d.rs1 == rs1
                && d.imm == if op == Opcode::Srai { imm | (0x20i32 << 5u32) } else { imm })))
            &&& is_load_op(op) ==> (
                spec_reg_mem(rest) matches Some(Ok((rd, rs1, imm))) ==> (-2048 <= imm < 2048 ==> (
                w matches Some(Ok(x)) && spec_decode(x) matches Some(d) && d.opcode == op
                && d.format == InstrFormat::I && d.rd == rd && d.rs1 == rs1 && d.imm == imm)))
            &&& is_store_op(op) ==> (
                spec_reg_mem_store(rest) matches Some(Ok((rs1, rs2, imm))) ==> (-2048 <= imm < 2048 ==> (
                w matches Some(Ok(x)) && spec_decode(x) matches Some(d) && d.opcode == op
                && d.format == InstrFormat::S && d.rs1 == rs1 && d.rs2 == rs2 && d.imm == imm)))
            &&& is_branch_op(op) ==> (
                spec_reg_reg_label(rest, pc, labels) matches Ok((rs1, rs2, off)) ==> (
                (-4096 <= off < 4096 && off % 2 == 0) ==> (
                w matches Some(Ok(x)) && spec_decode(x) matches Some(d) && d.opcode == op
                && d.format == InstrFormat::B && d.rs1 == rs1 && d.rs2 == rs2 && d.imm == off)))
            &&& op == Opcode::Jal ==> (
                spec_reg_label(rest, pc, labels) matches Ok((rd, off)) ==> (
                (-0x10_0000 <= off < 0x10_0000 && off % 2 == 0) ==> (
                w matches Some(Ok(x)) && spec_decode(x) matches Some(d) && d.opcode == Opcode::Jal
                && d.format == InstrFormat::J && d.rd == rd && d.imm == off)))
            &&& op == Opcode::Jalr ==> (
                spec_reg_reg_imm(rest, pc, labels) matches Ok((rd, rs1, imm)) ==> (-2048 <= imm < 2048 ==> (
                w matches Some(Ok(x)) && spec_decode(x) matches Some(d) && d.opcode == Opcode::Jalr
                && d.format == InstrFormat::I && d.rd == rd && d.rs1 == rs1 && d.imm == imm)))
            &&& op == Opcode::Lui ==> (
                spec_reg_imm(rest, pc, labels) matches Ok((rd, imm)) ==> (
                w matches Some(Ok(x)) && spec_decode(x) matches Some(d) && d.opcode == Opcode::Lui
                && d.format == InstrFormat::U && d.rd == rd && d.imm == ((imm as u32) & 0xfffff000) as i32))
            &&& op == Opcode::Auipc ==> (
                spec_reg_imm(rest, pc, labels) matches Ok((rd, imm)) ==> (
                w matches Some(Ok(x)) && spec_decode(x) matches Some(d) && d.opcode == Opcode::Auipc
                && d.format == InstrFormat::U && d.rd == rd && d.imm == ((imm as u32) & 0xfffff000) as i32))
            }
        }),
{
    let (m, rest) = spec_split_line(line);
    if let Some(Mnemonic::Base(op)) = spec_mnemonic(m) {
        let w = spec_assemble_line(line, pc, labels);
        assert(w == spec_encode_base(op, rest, pc, labels));
        let f3 = spec_funct3(op);
        if is_r_op(op) {
            if let Ok((rd, rs1, rs2)) = spec_reg3(rest) {
                assert(w == Some(Ok::<u32, AsmErr>(spec_r_type(rd, rs1, rs2, f3, spec_funct7(op), 0x33))));
                law_decode_r_type(op, rd, rs1, rs2);
            }
        } else if is_i_alu_op(op) {
            if let Ok((rd, rs1, imm)) = spec_reg_reg_imm(rest, pc, labels) {
                let enc = if op == Opcode::Srai { imm | (0x20i32 << 5u32) } else { imm };
                assert(w == Some(Ok::<u32, AsmErr>(spec_i_type(rd, rs1, enc, f3, 0x13))));
                if (if is_shift_imm_op(op) { 0 <= imm < 32 } else { -2048 <= imm < 2048 }) {
                    law_decode_i_alu(op, rd, rs1, imm);
                }
            }
        } else if is_load_op(op) {
            if let Some(Ok((rd, rs1, imm))) = spec_reg_mem(rest) {
                assert(w == Some(Ok::<u32, AsmErr>(spec_i_type(rd, rs1, imm, f3, 0x03))));
                if -2048 <= imm < 2048 {
                    law_decode_load(op, rd, rs1, imm);
                }
            }
        } else if is_store_op(op) {
            if let Some(Ok((rs1, rs2, imm))) = spec_reg_mem_store(rest) {
                assert(w == Some(Ok::<u32, AsmErr>(spec_s_type(rs1, rs2, imm, f3))));
                if -2048 <= imm < 2048 {
                    law_decode_store(op, rs1, rs2, imm);
                }
            }
        } else if is_branch_op(op) {
            if let Ok((rs1, rs2, off)) = spec_reg_reg_label(rest, pc, labels) {
                assert(w == Some(Ok::<u32, AsmErr>(spec_b_type(rs1, rs2, off, f3))));
                if -4096 <= off < 4096 && off % 2 == 0 {
                    law_decode_branch(op, rs1, rs2, off);
                }
            }
        } else if op == Opcode::Jal {
            if let Ok((rd, off)) = spec_reg_label(rest, pc, labels) {
                assert(w == Some(Ok::<u32, AsmErr>(spec_j_type(rd, off))));
                law_decode_jumps_and_upper(rd, 0, off);
            }
        } else if op == Opcode::Jalr {
            if let Ok((rd, rs1, imm)) = spec_reg_reg_imm(rest, pc, labels) {
                assert(w == Some(Ok::<u32, AsmErr>(spec_i_type(rd, rs1, imm, 0x0, 0x67))));
                law_decode_jumps_and_upper(rd, rs1, imm);
            }
        } else if op == Opcode::Lui {
            if let Ok((rd, imm)) = spec_reg_imm(rest, pc, labels) {
                assert(w == Some(Ok::<u32, AsmErr>(spec_u_type(rd, imm, 0x37))));
                law_decode_jumps_and_upper(rd, 0, imm);
            }
        } else if op == Opcode::Auipc {
            if let Ok((rd, imm)) = spec_reg_imm(rest, pc, labels) {
                assert(w == Some(Ok::<u32, AsmErr>(spec_u_type(rd, imm, 0x17))));
                law_decode_jumps_and_upper(rd, 0, imm);
            }
        }
    }
}


/// The lengths of the words that `spec_mnemonic` knows.
proof fn lemma_mnemonic_lengths()
    ensures
        seq!['n', 'o', 'p'].len() == 3,
        seq!['m', 'v'].len() == 2,
        seq!['l', 'i'].len() == 2,
        seq!['j'].len() == 1,
        seq!['j', 'r'].len() == 2,
        seq!['r', 'e', 't'].len() == 3,
        seq!['n', 'o', 't'].len() == 3,
        seq!['n', 'e', 'g'].len() == 3,
        seq!['a', 'd', 'd'].len() == 3,
        seq!['s', 'u', 'b'].len() == 3,
        seq!['a', 'n', 'd'].len() == 3,
        seq!['o', 'r'].len() == 2,
        seq!['x', 'o', 'r'].len() == 3,
        seq!['s', 'l', 'l'].len() == 3,
        seq!['s', 'r', 'l'].len() == 3,
        seq!['s', 'r', 'a'].len() == 3,
        seq!['s', 'l', 't'].len() == 3,
        seq!['s', 'l', 't', 'u'].len() == 4,
        seq!['a', 'd', 'd', 'i'].len() == 4,
        seq!['a', 'n', 'd', 'i'].len() == 4,
        seq!['o', 'r', 'i'].len() == 3,
        seq!['x', 'o', 'r', 'i'].len() == 4,
        seq!['s', 'l', 'l', 'i'].len() == 4,
        seq!['s', 'r', 'l', 'i'].len() == 4,
        seq!['s', 'r', 'a', 'i'].len() == 4,
        seq!['s', 'l', 't', 'i'].len() == 4,
        seq!['s', 'l', 't', 'i', 'u'].len() == 5,
        seq!['l', 'b'].len() == 2,
        seq!['l', 'h'].len() == 2,
        seq!['l', 'w'].len() == 2,
        seq!['l', 'b', 'u'].len() == 3,
        seq!['l', 'h', 'u'].len() == 3,
        seq!['s', 'b'].len() == 2,
        seq!['s', 'h'].len() == 2,
        seq!['s', 'w'].len() == 2,
        seq!['b', 'e', 'q'].len() == 3,
        seq!['b', 'n', 'e'].len() == 3,
        seq!['b', 'l', 't'].len() == 3,
        seq!['b', 'g', 'e'].len() == 3,
        seq!['b', 'l', 't', 'u'].len() == 4,
        seq!['b', 'g', 'e', 'u'].len() == 4,
        seq!['j', 'a', 'l'].len() == 3,
        seq!['j', 'a', 'l', 'r'].len() == 4,
        seq!['l', 'u', 'i'].len() == 3,
        seq!['a', 'u', 'i', 'p', 'c'].len() == 5,
{
}

/// Each base instruction is written as its RV32I mnemonic in lower case.
pub proof fn law_base_mnemonics()
    ensures
        spec_mnemonic(seq!['a', 'd', 'd']) == Some(Mnemonic::Base(Opcode::Add)),
        spec_mnemonic(seq!['s', 'u', 'b']) == Some(Mnemonic::Base(Opcode::Sub)),
        spec_mnemonic(seq!['a', 'n', 'd']) == Some(Mnemonic::Base(Opcode::And)),
        spec_mnemonic(seq!['o', 'r']) == Some(Mnemonic::Base(Opcode::Or)),
        spec_mnemonic(seq!['x', 'o', 'r']) == Some(Mnemonic::Base(Opcode::Xor)),
        spec_mnemonic(seq!['s', 'l', 'l']) == Some(Mnemonic::Base(Opcode::Sll)),
        spec_mnemonic(seq!['s', 'r', 'l']) == Some(Mnemonic::Base(Opcode::Srl)),
        spec_mnemonic(seq!['s', 'r', 'a']) == Some(Mnemonic::Base(Opcode::Sra)),
        spec_mnemonic(seq!['s', 'l', 't']) == Some(Mnemonic::Base(Opcode::Slt)),
        spec_mnemonic(seq!['s', 'l', 't', 'u']) == Some(Mnemonic::Base(Opcode::Sltu)),
        spec_mnemonic(seq!['a', 'd', 'd', 'i']) == Some(Mnemonic::Base(Opcode::Addi)),
        spec_mnemonic(seq!['a', 'n', 'd', 'i']) == Some(Mnemonic::Base(Opcode::Andi)),
        spec_mnemonic(seq!['o', 'r', 'i']) == Some(Mnemonic::Base(Opcode::Ori)),
        spec_mnemonic(seq!['x', 'o', 'r', 'i']) == Some(Mnemonic::Base(Opcode::Xori)),
        spec_mnemonic(seq!['s', 'l', 'l', 'i']) == Some(Mnemonic::Base(Opcode::Slli)),
        spec_mnemonic(seq!['s', 'r', 'l', 'i']) == Some(Mnemonic::Base(Opcode::Srli)),
        spec_mnemonic(seq!['s', 'r', 'a', 'i']) == Some(Mnemonic::Base(Opcode::Srai)),
        spec_mnemonic(seq!['s', 'l', 't', 'i']) == Some(Mnemonic::Base(Opcode::Slti)),
        spec_mnemonic(seq!['s', 'l', 't', 'i', 'u']) == Some(Mnemonic::Base(Opcode::Sltiu)),
        spec_mnemonic(seq!['l', 'b']) == Some(Mnemonic::Base(Opcode::Lb)),
        spec_mnemonic(seq!['l', 'h']) == Some(Mnemonic::Base(Opcode::Lh)),
        spec_mnemonic(seq!['l', 'w']) == Some(Mnemonic::Base(Opcode::Lw)),
        spec_mnemonic(seq!['l', 'b', 'u']) == Some(Mnemonic::Base(Opcode::Lbu)),
        spec_mnemonic(seq!['l', 'h', 'u']) == Some(Mnemonic::Base(Opcode::Lhu)),
        spec_mnemonic(seq!['s', 'b']) == Some(Mnemonic::Base(Opcode::Sb)),
        spec_mnemonic(seq!['s', 'h']) == Some(Mnemonic::Base(Opcode::Sh)),
        spec_mnemonic(seq!['s', 'w']) == Some(Mnemonic::Base(Opcode::Sw)),
        spec_mnemonic(seq!['b', 'e', 'q']) == Some(Mnemonic::Base(Opcode::Beq)),
        spec_mnemonic(seq!['b', 'n', 'e']) == Some(Mnemonic::Base(Opcode::Bne)),
        spec_mnemonic(seq!['b', 'l', 't']) == Some(Mnemonic::Base(Opcode::Blt)),
        spec_mnemonic(seq!['b', 'g', 'e']) == Some(Mnemonic::Base(Opcode::Bge)),
        spec_mnemonic(seq!['b', 'l', 't', 'u']) == Some(Mnemonic::Base(Opcode::Bltu)),
        spec_mnemonic(seq!['b', 'g', 'e', 'u']) == Some(Mnemonic::Base(Opcode::Bgeu)),
        spec_mnemonic(seq!['j', 'a', 'l']) == Some(Mnemonic::Base(Opcode::Jal)),
        spec_mnemonic(seq!['j', 'a', 'l', 'r']) == Some(Mnemonic::Base(Opcode::Jalr)),
        spec_mnemonic(seq!['l', 'u', 'i']) == Some(Mnemonic::Base(Opcode::Lui)),
        spec_mnemonic(seq!['a', 'u', 'i', 'p', 'c']) == Some(Mnemonic::Base(Opcode::Auipc)),
{
    lemma_mnemonic_lengths();
    assert(spec_mnemonic(seq!['a', 'd', 'd']) == Some(Mnemonic::Base(Opcode::Add)));
    assert(spec_mnemonic(seq!['s', 'u', 'b']) == Some(Mnemonic::Base(Opcode::Sub)));
    assert(spec_mnemonic(seq!['a', 'n', 'd']) == Some(Mnemonic::Base(Opcode::And)));
    assert(spec_mnemonic(seq!['o', 'r']) == Some(Mnemonic::Base(Opcode::Or)));
    assert(spec_mnemonic(seq!['x', 'o', 'r']) == Some(Mnemonic::Base(Opcode::Xor)));
    assert(spec_mnemonic(seq!['s', 'l', 'l']) == Some(Mnemonic::Base(Opcode::Sll)));
    assert(spec_mnemonic(seq!['s', 'r', 'l']) == Some(Mnemonic::Base(Opcode::Srl)));
    assert(spec_mnemonic(seq!['s', 'r', 'a']) == Some(Mnemonic::Base(Opcode::Sra)));
    assert(spec_mnemonic(seq!['s', 'l', 't']) == Some(Mnemonic::Base(Opcode::Slt)));
    assert(spec_mnemonic(seq!['s', 'l', 't', 'u']) == Some(Mnemonic::Base(Opcode::Sltu)));
    assert(spec_mnemonic(seq!['a', 'd', 'd', 'i']) == Some(Mnemonic::Base(Opcode::Addi)));
    assert(spec_mnemonic(seq!['a', 'n', 'd', 'i']) == Some(Mnemonic::Base(Opcode::Andi)));
    assert(spec_mnemonic(seq!['o', 'r', 'i']) == Some(Mnemonic::Base(Opcode::Ori)));
    assert(spec_mnemonic(seq!['x', 'o', 'r', 'i']) == Some(Mnemonic::Base(Opcode::Xori)));
    assert(spec_mnemonic(seq!['s', 'l', 'l', 'i']) == Some(Mnemonic::Base(Opcode::Slli)));
    assert(spec_mnemonic(seq!['s', 'r', 'l', 'i']) == Some(Mnemonic::Base(Opcode::Srli)));
    assert(spec_mnemonic(seq!['s', 'r', 'a', 'i']) == Some(Mnemonic::Base(Opcode::Srai)));
    assert(spec_mnemonic(seq!['s', 'l', 't', 'i']) == Some(Mnemonic::Base(Opcode::Slti)));
    assert(spec_mnemonic(seq!['s', 'l', 't', 'i', 'u']) == Some(Mnemonic::Base(Opcode::Sltiu)));
    assert(spec_mnemonic(seq!['l', 'b']) == Some(Mnemonic::Base(Opcode::Lb)));
    assert(spec_mnemonic(seq!['l', 'h']) == Some(Mnemonic::Base(Opcode::Lh)));
    assert(spec_mnemonic(seq!['l', 'w']) == Some(Mnemonic::Base(Opcode::Lw)));
    assert(spec_mnemonic(seq!['l', 'b', 'u']) == Some(Mnemonic::Base(Opcode::Lbu)));
    assert(spec_mnemonic(seq!['l', 'h', 'u']) == Some(Mnemonic::Base(Opcode::Lhu)));
    assert(spec_mnemonic(seq!['s', 'b']) == Some(Mnemonic::Base(Opcode::Sb)));
    assert(spec_mnemonic(seq!['s', 'h']) == Some(Mnemonic::Base(Opcode::Sh)));
    assert(spec_mnemonic(seq!['s', 'w']) == Some(Mnemonic::Base(Opcode::Sw)));
    assert(spec_mnemonic(seq!['b', 'e', 'q']) == Some(Mnemonic::Base(Opcode::Beq)));
    assert(spec_mnemonic(seq!['b', 'n', 'e']) == Some(Mnemonic::Base(Opcode::Bne)));
    assert(spec_mnemonic(seq!['b', 'l', 't']) == Some(Mnemonic::Base(Opcode::Blt)));
    assert(spec_mnemonic(seq!['b', 'g', 'e']) == Some(Mnemonic::Base(Opcode::Bge)));
    assert(spec_mnemonic(seq!['b', 'l', 't', 'u']) == Some(Mnemonic::Base(Opcode::Bltu)));
    assert(spec_mnemonic(seq!['b', 'g', 'e', 'u']) == Some(Mnemonic::Base(Opcode::Bgeu)));
    assert(spec_mnemonic(seq!['j', 'a', 'l']) == Some(Mnemonic::Base(Opcode::Jal)));
    assert(spec_mnemonic(seq!['j', 'a', 'l', 'r']) == Some(Mnemonic::Base(Opcode::Jalr)));
    assert(spec_mnemonic(seq!['l', 'u', 'i']) == Some(Mnemonic::Base(Opcode::Lui)));
    assert(spec_mnemonic(seq!['a', 'u', 'i', 'p', 'c']) == Some(Mnemonic::Base(Opcode::Auipc)));
}

} // verus!
