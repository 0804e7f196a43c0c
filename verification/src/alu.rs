//! A generic pipelined ALU: a set of pipes, each able to run some kinds of
//! operations, fed with instructions that carry their own metadata.
//!
//! Kinds like `LoadStore` and `Branch` do not mean that the pipe performs the
//! memory access or the jump, only the associated calculation (effective
//! address, branch target).
use vstd::prelude::*;
use std::marker::PhantomData;
use crate::diag::{inner_of, leaf_is, leaf_of, DiagNode, Diagnosable};
use crate::isa::{opcode_name, opcode_str, Opcode};
use crate::utils::text::{dec_text, push_dec, push_str};

verus! {

/// The capability of a functional unit.
#[derive(PartialEq, Eq, Structural)]
pub enum FuncUnitKind {
    IntAlu,
    IntMul,
    LoadStore,
    Branch,
}

/// Which operations a functional unit of the given kind can perform.
pub open spec fn spec_kind_supports(kind: FuncUnitKind, opcode: Opcode) -> bool {
    match kind {
        FuncUnitKind::IntAlu => matches!(opcode,
            Opcode::Add | Opcode::Sub | Opcode::And | Opcode::Or | Opcode::Xor | Opcode::Sll
            | Opcode::Srl | Opcode::Sra | Opcode::Slt | Opcode::Sltu | Opcode::Addi
            | Opcode::Andi | Opcode::Ori | Opcode::Xori | Opcode::Slli | Opcode::Srli
            | Opcode::Srai | Opcode::Slti | Opcode::Sltiu | Opcode::Lui | Opcode::Auipc),
        // no M extension yet
        FuncUnitKind::IntMul => false,
        FuncUnitKind::LoadStore => matches!(opcode,
            Opcode::Lb | Opcode::Lh | Opcode::Lw | Opcode::Lbu | Opcode::Lhu | Opcode::Sb
            | Opcode::Sh | Opcode::Sw),
        FuncUnitKind::Branch => matches!(opcode,
            Opcode::Beq | Opcode::Bne | Opcode::Blt | Opcode::Bge | Opcode::Bltu | Opcode::Bgeu
            | Opcode::Jal | Opcode::Jalr),
    }
}

fn kind_supports(kind: &FuncUnitKind, opcode: Opcode) -> (r: bool)
    ensures
        r == spec_kind_supports(*kind, opcode),
{
    match kind {
        FuncUnitKind::IntAlu => matches!(opcode,
            Opcode::Add | Opcode::Sub | Opcode::And | Opcode::Or | Opcode::Xor | Opcode::Sll
            | Opcode::Srl | Opcode::Sra | Opcode::Slt | Opcode::Sltu | Opcode::Addi
            | Opcode::Andi | Opcode::Ori | Opcode::Xori | Opcode::Slli | Opcode::Srli
            | Opcode::Srai | Opcode::Slti | Opcode::Sltiu | Opcode::Lui | Opcode::Auipc),
        FuncUnitKind::IntMul => false,
        FuncUnitKind::LoadStore => matches!(opcode,
            Opcode::Lb | Opcode::Lh | Opcode::Lw | Opcode::Lbu | Opcode::Lhu | Opcode::Sb
            | Opcode::Sh | Opcode::Sw),
        FuncUnitKind::Branch => matches!(opcode,
            Opcode::Beq | Opcode::Bne | Opcode::Blt | Opcode::Bge | Opcode::Bltu | Opcode::Bgeu
            | Opcode::Jal | Opcode::Jalr),
    }
}

/// One execution pipe and the kinds of functional unit it provides.
pub struct AluPipe {
    supported_kinds: Vec<FuncUnitKind>,
}

impl AluPipe {
    pub closed spec fn kinds(&self) -> Seq<FuncUnitKind> {
        self.supported_kinds@
    }

    pub fn new(supported_kinds: Vec<FuncUnitKind>) -> (r: Self)
        ensures
            r.kinds() == supported_kinds@,
    {
        Self { supported_kinds }
    }
}

/// A pipe with these kinds can run `opcode`.
pub open spec fn spec_pipe_supports(kinds: Seq<FuncUnitKind>, opcode: Opcode) -> bool {
    exists|k: int| 0 <= k < kinds.len() && spec_kind_supports(#[trigger] kinds[k], opcode)
}

// Check if a pipe supports a given operation
fn pipe_supports(pipe: &AluPipe, opcode: Opcode) -> (r: bool)
    ensures
        r == spec_pipe_supports(pipe.kinds(), opcode),
{
    let mut i: usize = 0;
    while i < pipe.supported_kinds.len()
        invariant
            i <= pipe.supported_kinds@.len(),
            forall|k: int| 0 <= k < i ==> !spec_kind_supports(#[trigger] pipe.supported_kinds@[k], opcode),
        decreases pipe.supported_kinds@.len() - i,
    {
        if kind_supports(&pipe.supported_kinds[i], opcode) {
            return true;
        }
        i = i + 1;
    }
    false
}

/// The operand values an operation is computed from.
#[derive(Clone, Copy)]
pub struct ExecInputs {
    pub pc: u32,
    pub rs1: u32,
    pub rs2: u32,
    pub imm: i32,
}

/// `x` read as a two's-complement number is negative: its top bit is set.
pub open spec fn top_bit(x: u32) -> bool {
    x >= 0x8000_0000
}

/// `x < y` with both read as two's-complement numbers.
pub open spec fn signed_less(x: u32, y: u32) -> bool {
    if top_bit(x) != top_bit(y) { top_bit(x) } else { x < y }
}

/// The shifts by a register: `sll` multiplies by 2^s and keeps the low 32
/// bits, `srl` divides by 2^s rounding down, and `sra` does the same for the
/// value read as two's complement: a negative value stays negative and rounds
/// toward minus infinity, which is the complement of the logical shift of the
/// complement. The shift amount `s` is the low five bits of rs2.
pub proof fn law_register_shifts(pc: u32, a: u32, b: u32, imm: i32)
    ensures
        ({
            let i = ExecInputs { pc, rs1: a, rs2: b, imm };
            let p = vstd::arithmetic::power2::pow2((b % 32) as nat) as int;
            &&& spec_compute(Opcode::Srl, i) as int == a as int / p
            &&& spec_compute(Opcode::Sra, i) as int == if top_bit(a) {
                0xFFFF_FFFF - (0xFFFF_FFFF - a as int) / p
            } else {
                a as int / p
            }
            &&& spec_compute(Opcode::Sll, i) as int == (a as int * p) % 0x1_0000_0000
        }),
{
    let sh = b & 0x1f;
    lemma_operand_bits(a, b, imm as u32, imm);
    vstd::bits::lemma_u32_shr_is_div(a, sh);
    let na = !a;
    vstd::bits::lemma_u32_shr_is_div(na, sh);
    lemma_shl_wraps(a, sh);
}

/// The shifts by an immediate behave as the shifts by a register, with the
/// low five bits of the immediate as the amount; `slti` and `sltiu` compare
/// with the immediate read as a 32-bit value, signed and unsigned.
pub proof fn law_immediate_forms(pc: u32, a: u32, imm: i32)
    ensures
        ({
            let i = ExecInputs { pc, rs1: a, rs2: 0, imm };
            let u = imm as u32;
            let p = vstd::arithmetic::power2::pow2((u % 32) as nat) as int;
            &&& spec_compute(Opcode::Srli, i) as int == a as int / p
            &&& spec_compute(Opcode::Srai, i) as int == if top_bit(a) {
                0xFFFF_FFFF - (0xFFFF_FFFF - a as int) / p
            } else {
                a as int / p
            }
            &&& spec_compute(Opcode::Slli, i) as int == (a as int * p) % 0x1_0000_0000
            &&& spec_compute(Opcode::Slti, i) == if signed_less(a, u) { 1u32 } else { 0u32 }
            &&& spec_compute(Opcode::Sltiu, i) == if a < u { 1u32 } else { 0u32 }
            &&& spec_compute(Opcode::Addi, i) as int == (a as int + u as int) % 0x1_0000_0000
        }),
{
    let u = imm as u32;
    law_register_shifts(pc, a, u, imm);
    lemma_operand_bits(a, u, u, imm);
}

/// The bitwise operations: `and` keeps the bits set in both operands and `or`
/// those set in either, so the two add up to the sum of the operands, `and` is
/// at most either operand and `or` at least either; `xor` keeps the bits set
/// in exactly one, which is `or` less `and`. The immediate forms use the
/// immediate read as a 32-bit value.
pub proof fn law_bitwise(pc: u32, a: u32, b: u32, imm: i32)
    ensures
        ({
            let i = ExecInputs { pc, rs1: a, rs2: b, imm };
            let u = imm as u32;
            let and_ = spec_compute(Opcode::And, i) as int;
            let or_ = spec_compute(Opcode::Or, i) as int;
            let xor_ = spec_compute(Opcode::Xor, i) as int;
            let andi = spec_compute(Opcode::Andi, i) as int;
            let ori = spec_compute(Opcode::Ori, i) as int;
            let xori = spec_compute(Opcode::Xori, i) as int;
            &&& and_ + or_ == a + b && and_ <= a && and_ <= b && or_ >= a && or_ >= b && xor_ == or_ - and_
            &&& andi + ori == a + u && andi <= a && andi <= u && ori >= a && ori >= u && xori == ori - andi
        }),
{
    let u = imm as u32;
    lemma_operand_bits(a, b, u, imm);
    lemma_operand_bits(a, u, u, imm);
}

/// The other values: loads and stores give the address rs1 + imm, `lui` the
/// immediate, `auipc` pc + imm, and the jumps the return address pc + 4, all
/// modulo 2^32.
pub proof fn law_addresses_and_links(pc: u32, a: u32, b: u32, imm: i32)
    ensures
        ({
            let i = ExecInputs { pc, rs1: a, rs2: b, imm };
            let m = 0x1_0000_0000int;
            &&& forall|op: Opcode| #![trigger spec_compute(op, i)] matches!(op, Opcode::Lb | Opcode::Lh | Opcode::Lw
                | Opcode::Lbu | Opcode::Lhu | Opcode::Sb | Opcode::Sh | Opcode::Sw)
                ==> spec_compute(op, i) as int == (a as int + imm as int + m) % m
            &&& spec_compute(Opcode::Lui, i) as int == (imm as int + m) % m
            &&& spec_compute(Opcode::Auipc, i) as int == (pc as int + imm as int + m) % m
            &&& spec_compute(Opcode::Jal, i) as int == (pc as int + 4) % m
            &&& spec_compute(Opcode::Jalr, i) as int == (pc as int + 4) % m
        }),
{
    lemma_operand_bits(a, b, imm as u32, imm);
}

/// The bit-level facts about two operands and an immediate that the laws
/// above rest on.
proof fn lemma_operand_bits(a: u32, b: u32, u: u32, imm: i32)
    by (bit_vector)
    requires
        u == imm as u32,
    ensures
        (b & 0x1f) == b % 32 && (b & 0x1f) < 32,
        !a == 0xFFFF_FFFF - a,
        !((!a) >> (b & 0x1f)) == 0xFFFF_FFFF - ((!a) >> (b & 0x1f)),
        a >= 0x8000_0000u32 ==> ((a as i32) >> (b & 0x1f)) as u32 == !((!a) >> (b & 0x1f)),
        a < 0x8000_0000u32 ==> ((a as i32) >> (b & 0x1f)) as u32 == a >> (b & 0x1f),
        ((a as i32) < (b as i32)) == (if (a >= 0x8000_0000u32) != (b >= 0x8000_0000u32) {
            a >= 0x8000_0000u32
        } else {
            a < b
        }),
        ((a as i32) < imm) == (if (a >= 0x8000_0000u32) != (u >= 0x8000_0000u32) {
            a >= 0x8000_0000u32
        } else {
            a < u
        }),
        (a & b) + (a | b) == a + b && (a & b) <= a && (a & b) <= b && (a | b) >= a && (a | b) >= b
            && (a ^ b) == (a | b) - (a & b),
        imm >= 0i32 ==> u == imm,
        imm < 0i32 ==> u == imm + 0x1_0000_0000,
{
}

/// Shifting left by one more is shifting the result left by one, which
/// doubles it and drops the bit that leaves the word.
proof fn lemma_shl_step(a: u32, s: u32, t: u32)
    by (bit_vector)
    requires
        s == t + 1,
        t < 31,
    ensures
        a << 0u32 == a,
        a << s == (a << t) << 1u32,
        ((a << t) << 1u32) == (if (a << t) < 0x8000_0000u32 { 2 * (a << t) } else { 2 * (a << t) - 0x1_0000_0000 }),
{
}

/// `a << s` is `a * 2^s` with the bits above 32 dropped.
proof fn lemma_shl_wraps(a: u32, s: u32)
    requires
        s < 32,
    ensures
        (a << s) as int == (a as int * vstd::arithmetic::power2::pow2(s as nat) as int) % 0x1_0000_0000,
    decreases s,
{
    if s == 0 {
        vstd::arithmetic::power2::lemma2_to64();
        lemma_shl_step(a, 1, 0);
    } else {
        let t = (s - 1) as u32;
        vstd::arithmetic::power2::lemma_pow2_unfold(s as nat);
        lemma_shl_wraps(a, t);
        lemma_shl_step(a, s, t);
        let x = a << t;
        assert(x << 1u32 == a << s);
        let p = vstd::arithmetic::power2::pow2(t as nat) as int;
        vstd::arithmetic::power2::lemma_pow2_pos(t as nat);
        assert(((a as int * p) % 0x1_0000_0000 * 2) % 0x1_0000_0000 == (a as int * (2 * p)) % 0x1_0000_0000) by (nonlinear_arith)
            requires p > 0;
        let xi = x as int;
        assert(xi == (a as int * p) % 0x1_0000_0000);
        assert((x << 1u32) as int == (xi * 2) % 0x1_0000_0000) by {
            if xi < 0x8000_0000 {
                assert((xi * 2) % 0x1_0000_0000 == xi * 2);
            } else {
                assert((xi * 2) % 0x1_0000_0000 == xi * 2 - 0x1_0000_0000);
            }
        }
        assert(vstd::arithmetic::power2::pow2(s as nat) as int == 2 * p);
    }
}

/// The comparisons read their operands as two's-complement numbers (`slt`,
/// `blt`, `bge`) or as unsigned numbers (`sltu`, `bltu`, `bgeu`); a taken
/// branch goes to pc + imm and one not taken to pc + 4.
pub proof fn law_comparisons(pc: u32, a: u32, b: u32, imm: i32)
    requires
        pc + 4 <= u32::MAX,
    ensures
        ({
            let i = ExecInputs { pc, rs1: a, rs2: b, imm };
            let target = ((pc as int + imm as int) % 0x1_0000_0000) as u32;
            let next = (pc + 4) as u32;
            &&& spec_compute(Opcode::Slt, i) == if signed_less(a, b) { 1u32 } else { 0u32 }
            &&& spec_compute(Opcode::Sltu, i) == if a < b { 1u32 } else { 0u32 }
            &&& spec_compute(Opcode::Beq, i) == if a == b { target } else { next }
            &&& spec_compute(Opcode::Bne, i) == if a != b { target } else { next }
            &&& spec_compute(Opcode::Blt, i) == if signed_less(a, b) { target } else { next }
            &&& spec_compute(Opcode::Bge, i) == if !signed_less(a, b) { target } else { next }
            &&& spec_compute(Opcode::Bltu, i) == if a < b { target } else { next }
            &&& spec_compute(Opcode::Bgeu, i) == if a >= b { target } else { next }
            &&& spec_compute(Opcode::Add, i) as int == (a as int + b as int) % 0x1_0000_0000
            &&& spec_compute(Opcode::Sub, i) as int == (a as int - b as int) % 0x1_0000_0000
        }),
{
    lemma_operand_bits(a, b, imm as u32, imm);
    let u = imm as u32;
    assert(u as int == (imm as int + 0x1_0000_0000) % 0x1_0000_0000);
}

/// An instruction as the ALU sees it: an opcode and its operand values, with
/// whatever metadata the user of the ALU bundles along.
pub trait OpaqueInstruction {
    spec fn spec_opcode(&self) -> Opcode;

    /// The operand values are known.
    spec fn inputs_available(&self) -> bool;

    spec fn spec_inputs(&self) -> ExecInputs;

    fn get_opcode(&self) -> (r: Opcode)
        ensures
            r == self.spec_opcode(),
    ;

    fn get_inputs(&self) -> (r: ExecInputs)
        requires
            self.inputs_available(),
        ensures
            r == self.spec_inputs(),
    ;
}

/// What the ALU hands back: built from the instruction and its computed value.
pub trait OpaqueResult<I: OpaqueInstruction>: Sized {
    spec fn spec_from_instr_and_result(instr: I, result: u32) -> Self;

    fn from_instr_and_result(instr: I, result: u32) -> (r: Self)
        ensures
            r == Self::spec_from_instr_and_result(instr, result),
    ;
}

/// An instruction in flight in one of the pipes.
pub struct InstructionProgress<I: OpaqueInstruction> {
    instruction: I,  // the instruction being executed
    latency: u8,  // number of cycles to complete
    age: u8,  // number of cycles spent in the ALU
    _resources_used: usize,  // index of the pipe used
}

impl<I: OpaqueInstruction> InstructionProgress<I> {
    pub closed spec fn spec_instruction(&self) -> I {
        self.instruction
    }

    pub closed spec fn spec_latency(&self) -> u8 {
        self.latency
    }

    pub closed spec fn spec_age(&self) -> u8 {
        self.age
    }

    pub closed spec fn spec_pipe(&self) -> usize {
        self._resources_used
    }
}

/// The latency every operation has.
pub open spec fn spec_latency(opcode: Opcode) -> u8 {
    2
}

/// Branches that fall through compute `pc + 4` without wrapping; every other
/// operation is defined on all inputs.
pub open spec fn compute_defined(opcode: Opcode, i: ExecInputs) -> bool {
    let taken = match opcode {
        Opcode::Beq => i.rs1 == i.rs2,
        Opcode::Bne => i.rs1 != i.rs2,
        Opcode::Blt => (i.rs1 as i32) < (i.rs2 as i32),
        Opcode::Bge => (i.rs1 as i32) >= (i.rs2 as i32),
        Opcode::Bltu => i.rs1 < i.rs2,
        Opcode::Bgeu => i.rs1 >= i.rs2,
        _ => true,
    };
    taken || i.pc + 4 <= u32::MAX
}

/// The RV32I value of an operation: the result for ALU operations, the
/// effective address for loads and stores, the return address for jumps and
/// the next PC for conditional branches.
pub open spec fn spec_compute(opcode: Opcode, i: ExecInputs) -> u32 {
    let a = i.rs1;
    let b = i.rs2;
    let imm = i.imm as u32;
    let next = (i.pc + 4) as u32;
    let target = i.pc.wrapping_add(imm);
    match opcode {
        Opcode::Add => a.wrapping_add(b),
        Opcode::Sub => a.wrapping_sub(b),
        Opcode::And => a & b,
        Opcode::Or => a | b,
        Opcode::Xor => a ^ b,
        Opcode::Sll => a << (b & 0x1f),
        Opcode::Srl => a >> (b & 0x1f),
        Opcode::Sra => ((a as i32) >> (b & 0x1f)) as u32,
        Opcode::Slt => if (a as i32) < (b as i32) { 1 } else { 0 },
        Opcode::Sltu => if a < b { 1 } else { 0 },
        Opcode::Addi => a.wrapping_add(imm),
        Opcode::Andi => a & imm,
        Opcode::Ori => a | imm,
        Opcode::Xori => a ^ imm,
        Opcode::Slli => a << (imm & 0x1f),
        Opcode::Srli => a >> (imm & 0x1f),
        Opcode::Srai => ((a as i32) >> (imm & 0x1f)) as u32,
        Opcode::Slti => if (a as i32) < i.imm { 1 } else { 0 },
        Opcode::Sltiu => if a < imm { 1 } else { 0 },
        Opcode::Lb | Opcode::Lbu | Opcode::Lh | Opcode::Lhu | Opcode::Lw => a.wrapping_add(imm),
        Opcode::Sb | Opcode::Sh | Opcode::Sw => a.wrapping_add(imm),
        Opcode::Lui => imm,
        Opcode::Auipc => target,
        Opcode::Jal | Opcode::Jalr => i.pc.wrapping_add(4),
        Opcode::Beq => if i.rs1 == i.rs2 { target } else { next },
        Opcode::Bne => if i.rs1 != i.rs2 { target } else { next },
        Opcode::Blt => if (i.rs1 as i32) < (i.rs2 as i32) { target } else { next },
        Opcode::Bge => if (i.rs1 as i32) >= (i.rs2 as i32) { target } else { next },
        Opcode::Bltu => if i.rs1 < i.rs2 { target } else { next },
        Opcode::Bgeu => if i.rs1 >= i.rs2 { target } else { next },
    }
}

fn compute(opcode: Opcode, i: &ExecInputs) -> (r: u32)
    requires
        compute_defined(opcode, *i),
    ensures
        r == spec_compute(opcode, *i),
{
    let a = i.rs1;
    let b = i.rs2;
    let imm = i.imm as u32;
    proof {
        assert(b & 0x1f < 32) by (bit_vector);
        assert(imm & 0x1f < 32) by (bit_vector);
    }
    match opcode {
        Opcode::Add => a.wrapping_add(b),
        Opcode::Sub => a.wrapping_sub(b),
        Opcode::And => a & b,
        Opcode::Or => a | b,
        Opcode::Xor => a ^ b,
        Opcode::Sll => a << (b & 0x1f),
        Opcode::Srl => a >> (b & 0x1f),
        Opcode::Sra => ((a as i32) >> (b & 0x1f)) as u32,
        Opcode::Slt => if (a as i32) < (b as i32) { 1 } else { 0 },
        Opcode::Sltu => if a < b { 1 } else { 0 },
        Opcode::Addi => a.wrapping_add(imm),
        Opcode::Andi => a & imm,
        Opcode::Ori => a | imm,
        Opcode::Xori => a ^ imm,
        Opcode::Slli => a << (imm & 0x1f),
        Opcode::Srli => a >> (imm & 0x1f),
        Opcode::Srai => ((a as i32) >> (imm & 0x1f)) as u32,
        Opcode::Slti => if (a as i32) < i.imm { 1 } else { 0 },
        Opcode::Sltiu => if a < imm { 1 } else { 0 },
        Opcode::Lb | Opcode::Lbu | Opcode::Lh | Opcode::Lhu | Opcode::Lw => a.wrapping_add(imm),  // address calc
        Opcode::Sb | Opcode::Sh | Opcode::Sw => a.wrapping_add(imm),  // address calc
        Opcode::Lui => imm,
        Opcode::Auipc => i.pc.wrapping_add(imm),
        Opcode::Jal | Opcode::Jalr => i.pc.wrapping_add(4),  // return address
        Opcode::Beq => if i.rs1 == i.rs2 { i.pc.wrapping_add(imm) } else { i.pc + 4 },
        Opcode::Bne => if i.rs1 != i.rs2 { i.pc.wrapping_add(imm) } else { i.pc + 4 },
        Opcode::Blt => if (i.rs1 as i32) < (i.rs2 as i32) { i.pc.wrapping_add(imm) } else { i.pc + 4 },
        Opcode::Bge => if (i.rs1 as i32) >= (i.rs2 as i32) { i.pc.wrapping_add(imm) } else { i.pc + 4 },
        Opcode::Bltu => if i.rs1 < i.rs2 { i.pc.wrapping_add(imm) } else { i.pc + 4 },
        Opcode::Bgeu => if i.rs1 >= i.rs2 { i.pc.wrapping_add(imm) } else { i.pc + 4 },
    }
}

/// The ALU: a collection of pipes and the instructions in flight in them.
pub struct ALU<I: OpaqueInstruction, O: OpaqueResult<I>> {
    pipes: Vec<AluPipe>,
    in_progress_instructions: Vec<InstructionProgress<I>>,
    resource_usage: Vec<bool>,  // `true` if in use
    _phantom: PhantomData<O>,
}

/// An instruction that has just entered pipe `pipe`.
pub closed spec fn spec_new_progress<I: OpaqueInstruction>(instr: I, pipe: int) -> InstructionProgress<I> {
    InstructionProgress {
        instruction: instr,
        latency: spec_latency(instr.spec_opcode()),
        age: 0,
        _resources_used: pipe as usize,
    }
}

/// The same in-flight instruction one cycle older.
pub closed spec fn spec_aged<I: OpaqueInstruction>(p: InstructionProgress<I>) -> InstructionProgress<I> {
    InstructionProgress { age: (p.age + 1) as u8, ..p }
}

/// Every in-flight instruction one cycle older.
pub open spec fn spec_all_aged<I: OpaqueInstruction>(s: Seq<InstructionProgress<I>>) -> Seq<InstructionProgress<I>> {
    Seq::new(s.len(), |k: int| spec_aged(s[k]))
}

/// An in-flight instruction is ready when the coming tick is its
/// `latency`-th in the ALU: it has already spent `latency - 1` ticks there.
pub open spec fn spec_ready<I: OpaqueInstruction>(p: InstructionProgress<I>) -> bool {
    p.spec_age() + 1 >= p.spec_latency()
}

/// The scan that `tick` makes over the first `n` in-flight instructions: a
/// ready instruction is recorded when nothing is recorded yet or when it is
/// older than the one recorded. The result is (the age of the last recorded,
/// its index): the first of the oldest ready instructions.
pub open spec fn spec_scan<I: OpaqueInstruction>(s: Seq<InstructionProgress<I>>, n: nat) -> (int, Option<int>)
    decreases n,
{
    if n == 0 {
        (0, None)
    } else {
        let (max_age, index) = spec_scan(s, (n - 1) as nat);
        let p = s[n - 1];
        if spec_ready(p) && (index is None || p.spec_age() > max_age) {
            (p.spec_age() as int, Some(n - 1))
        } else {
            (max_age, index)
        }
    }
}

/// The scan records only indices it has passed, and its maximum is an age.
pub proof fn lemma_scan_bounds<I: OpaqueInstruction>(s: Seq<InstructionProgress<I>>, n: nat)
    requires
        n <= s.len(),
    ensures
        spec_scan(s, n).1 matches Some(k) ==> 0 <= k < n,
        0 <= spec_scan(s, n).0 <= 255,
    decreases n,
{
    if n > 0 {
        lemma_scan_bounds(s, (n - 1) as nat);
    }
}

/// What the scan over the first `n` instructions finds: the first of the
/// oldest ready ones, or nothing when none of them is ready.
proof fn lemma_scan_finds_oldest<I: OpaqueInstruction>(s: Seq<InstructionProgress<I>>, n: nat)
    requires
        n <= s.len(),
    ensures
        spec_scan(s, n).1 matches Some(k) ==> {
            &&& 0 <= k < n
            &&& spec_scan(s, n).0 == s[k].spec_age() as int
            &&& spec_ready(s[k])
            &&& forall|j: int| 0 <= j < n && spec_ready(#[trigger] s[j]) ==> s[j].spec_age() <= s[k].spec_age()
            &&& forall|j: int| 0 <= j < k && spec_ready(#[trigger] s[j]) ==> s[j].spec_age() < s[k].spec_age()
        },
        spec_scan(s, n).1 is None ==> spec_scan(s, n).0 == 0 && forall|j: int| 0 <= j < n
            ==> !spec_ready(#[trigger] s[j]),
    decreases n,
{
    if n > 0 {
        lemma_scan_finds_oldest(s, (n - 1) as nat);
    }
}

/// `tick` hands back a ready instruction whenever there is one: the first of
/// the oldest among the ready ones.
pub proof fn law_tick_returns_oldest_ready<I: OpaqueInstruction>(s: Seq<InstructionProgress<I>>)
    ensures
        spec_selected(s) matches Some(k) ==> {
            &&& 0 <= k < s.len()
            &&& spec_ready(s[k])
            &&& forall|j: int| 0 <= j < s.len() && spec_ready(#[trigger] s[j]) ==> s[j].spec_age() <= s[k].spec_age()
            &&& forall|j: int| 0 <= j < k && spec_ready(#[trigger] s[j]) ==> s[j].spec_age() < s[k].spec_age()
        },
        spec_selected(s) is None ==> forall|j: int| 0 <= j < s.len() ==> !spec_ready(#[trigger] s[j]),
{
    lemma_scan_finds_oldest(s, s.len());
}

/// An instruction that has just entered the ALU is not the one the next tick
/// completes: only an instruction already in flight before can be. An empty
/// ALU completes nothing.
pub proof fn law_new_instruction_waits<I: OpaqueInstruction>(s: Seq<InstructionProgress<I>>, instr: I, pipe: int)
    ensures
        spec_selected(s.push(spec_new_progress(instr, pipe))) matches Some(k) ==> 0 <= k < s.len(),
        spec_selected(Seq::<InstructionProgress<I>>::empty()) is None,
{
    let t = s.push(spec_new_progress(instr, pipe));
    law_tick_returns_oldest_ready(t);
    assert(!spec_ready(t[s.len() as int]));
}

/// The first of the first `n` pipes that is free and can run `opcode`.
pub open spec fn spec_first_free_pipe(
    kinds: Seq<Seq<FuncUnitKind>>,
    usage: Seq<bool>,
    opcode: Opcode,
    n: nat,
) -> Option<int>
    decreases n,
{
    if n == 0 {
        None
    } else {
        match spec_first_free_pipe(kinds, usage, opcode, (n - 1) as nat) {
            Some(i) => Some(i),
            None => if !usage[n - 1] && spec_pipe_supports(kinds[n - 1], opcode) {
                Some(n - 1)
            } else {
                None
            },
        }
    }
}

/// The free pipe found among the first `n` is one of them.
pub proof fn lemma_first_free_bounds(
    kinds: Seq<Seq<FuncUnitKind>>,
    usage: Seq<bool>,
    opcode: Opcode,
    n: nat,
)
    ensures
        spec_first_free_pipe(kinds, usage, opcode, n) matches Some(p) ==> 0 <= p < n,
    decreases n,
{
    if n > 0 {
        lemma_first_free_bounds(kinds, usage, opcode, (n - 1) as nat);
    }
}

/// Once a free pipe is found among the first `m`, looking further finds the same one.
pub proof fn lemma_first_free_prefix(
    kinds: Seq<Seq<FuncUnitKind>>,
    usage: Seq<bool>,
    opcode: Opcode,
    m: nat,
    n: nat,
)
    requires
        m <= n,
        spec_first_free_pipe(kinds, usage, opcode, m) is Some,
    ensures
        spec_first_free_pipe(kinds, usage, opcode, n) == spec_first_free_pipe(kinds, usage, opcode, m),
    decreases n,
{
    if n > m {
        lemma_first_free_prefix(kinds, usage, opcode, m, (n - 1) as nat);
    }
}

/// Each instruction in `s` holds a pipe in range that is marked busy in
/// `usage`, and no two of them hold the same pipe.
pub open spec fn spec_pipes_held<I: OpaqueInstruction>(s: Seq<InstructionProgress<I>>, usage: Seq<bool>) -> bool {
    &&& forall|k: int| 0 <= k < s.len() ==> (#[trigger] s[k]).spec_pipe() < usage.len()
        && usage[s[k].spec_pipe() as int]
    &&& forall|j: int, k: int| 0 <= j < k < s.len() ==> (#[trigger] s[j]).spec_pipe() != (#[trigger] s[k]).spec_pipe()
}

/// The in-flight instruction that `tick` completes, if any.
pub open spec fn spec_selected<I: OpaqueInstruction>(s: Seq<InstructionProgress<I>>) -> Option<int> {
    spec_scan(s, s.len()).1
}

impl<I: OpaqueInstruction, O: OpaqueResult<I>> ALU<I, O> {
    pub closed spec fn pipe_kinds(&self) -> Seq<Seq<FuncUnitKind>> {
        Seq::new(self.pipes@.len(), |i: int| self.pipes@[i].kinds())
    }

    pub closed spec fn in_flight(&self) -> Seq<InstructionProgress<I>> {
        self.in_progress_instructions@
    }

    /// Which pipes are busy.
    pub closed spec fn usage(&self) -> Seq<bool> {
        self.resource_usage@
    }

    pub closed spec fn wf(&self) -> bool {
        &&& self.resource_usage@.len() == self.pipes@.len()
        &&& forall|k: int| 0 <= k < self.in_progress_instructions@.len()
            ==> (#[trigger] self.in_progress_instructions@[k]).instruction.inputs_available()
        &&& spec_pipes_held(self.in_progress_instructions@, self.resource_usage@)
    }

    /// A well-formed ALU keeps one busy flag per pipe.
    pub proof fn lemma_usage_per_pipe(&self)
        requires
            self.wf(),
        ensures
            self.pipe_kinds().len() == self.usage().len(),
    {
    }

    /// In a well-formed ALU each instruction in flight holds a pipe of its own,
    /// and that pipe is marked busy.
    pub proof fn lemma_pipes_held(&self)
        requires
            self.wf(),
        ensures
            spec_pipes_held(self.in_flight(), self.usage()),
    {
    }

    pub fn new(pipes: Vec<AluPipe>) -> (r: Self)
        ensures
            r.wf(),
            r.pipe_kinds() == Seq::new(pipes@.len(), |i: int| pipes@[i].kinds()),
            r.in_flight() == Seq::<InstructionProgress<I>>::empty(),
            r.usage() == Seq::new(pipes@.len(), |i: int| false),
    {
        let n = pipes.len();
        let mut resource_usage: Vec<bool> = Vec::new();
        let mut k: usize = 0;
        while k < n
            invariant
                k <= n,
                resource_usage@ == Seq::new(k as nat, |i: int| false),
            decreases n - k,
        {
            resource_usage.push(false);
            k = k + 1;
            assert(resource_usage@ =~= Seq::new(k as nat, |i: int| false));
        }
        let r = Self {
            pipes,
            in_progress_instructions: Vec::new(),
            resource_usage,
            _phantom: PhantomData,
        };
        assert(r.pipe_kinds() =~= Seq::new(r.pipes@.len(), |i: int| r.pipes@[i].kinds()));
        r
    }

    /// The number of ticks an operation takes, the same for every operation:
    /// `tick` completes an instruction on its latency-th tick at the earliest.
    fn get_instr_execution_latency(&self, _opcode: Opcode) -> (r: u8)
        ensures
            r == spec_latency(_opcode),
    {
        2
    }

    /// Places `instr` in the first free pipe that supports its opcode;
    /// `false` if there is none.
    pub fn try_enqueue(&mut self, instr: I) -> (r: bool)
        requires
            old(self).wf(),
            instr.inputs_available(),
        ensures
            final(self).wf(),
            final(self).pipe_kinds() == old(self).pipe_kinds(),
            match spec_first_free_pipe(old(self).pipe_kinds(), old(self).usage(), instr.spec_opcode(), old(self).usage().len()) {
                Some(i) => {
                    &&& r
                    &&& final(self).in_flight() == old(self).in_flight().push(spec_new_progress(instr, i))
                    &&& final(self).usage() == old(self).usage().update(i, true)
                },
                None => {
                    &&& !r
                    &&& final(self).in_flight() == old(self).in_flight()
                    &&& final(self).usage() == old(self).usage()
                },
            },
    {
        let opcode = instr.get_opcode();
        let mut i: usize = 0;
        while i < self.pipes.len()
            invariant
                self.wf(),
                *self == *old(self),
                opcode == instr.spec_opcode(),
                instr.inputs_available(),
                i <= self.pipes@.len(),
                spec_first_free_pipe(self.pipe_kinds(), self.usage(), opcode, i as nat) is None,
            decreases self.pipes@.len() - i,
        {
            if (!self.resource_usage[i]) && pipe_supports(&self.pipes[i], opcode) {
                self.resource_usage.set(i, true);
                let latency = self.get_instr_execution_latency(opcode);
                self.in_progress_instructions.push(InstructionProgress {
                    latency,
                    instruction: instr,
                    age: 0,
                    _resources_used: i,
                });
                proof {
                    lemma_first_free_prefix(old(self).pipe_kinds(), old(self).usage(), opcode, (i + 1) as nat, old(self).usage().len());
                    assert(self.pipe_kinds() =~= old(self).pipe_kinds());
                    let s0 = old(self).in_progress_instructions@;
                    let s1 = self.in_progress_instructions@;
                    assert forall|k: int| 0 <= k < s1.len() implies (#[trigger] s1[k]).spec_pipe() < self.resource_usage@.len()
                        && self.resource_usage@[s1[k].spec_pipe() as int] by {
                        if k < s0.len() {
                            assert(s1[k] == s0[k]);
                        }
                    }
                    assert forall|j: int, k: int| 0 <= j < k < s1.len() implies (#[trigger] s1[j]).spec_pipe()
                        != (#[trigger] s1[k]).spec_pipe() by {
                        assert(s1[j] == s0[j]);
                        if k < s0.len() {
                            assert(s1[k] == s0[k]);
                        }
                    }
                    assert forall|k: int| 0 <= k < self.in_progress_instructions@.len()
                        implies (#[trigger] self.in_progress_instructions@[k]).instruction.inputs_available() by {
                        if k < old(self).in_progress_instructions@.len() {
                            assert(self.in_progress_instructions@[k] == old(self).in_progress_instructions@[k]);
                        }
                    }
                }
                return true;
            }
            i = i + 1;
        }
        false
    }

    // Advance the state of the operations in the ALU.
    // If there is a ready operation, return it. In the
    // case of multiple ready instructions, return the oldest.
    pub fn tick(&mut self) -> (r: Option<O>)
        requires
            old(self).wf(),
            forall|k: int| 0 <= k < old(self).in_flight().len()
                ==> (#[trigger] old(self).in_flight()[k]).spec_age() < 255,
            spec_selected(old(self).in_flight()) matches Some(k) ==> compute_defined(
                old(self).in_flight()[k].spec_instruction().spec_opcode(),
                old(self).in_flight()[k].spec_instruction().spec_inputs(),
            ),
        ensures
            final(self).wf(),
            final(self).pipe_kinds() == old(self).pipe_kinds(),
            r is Some <==> exists|j: int| 0 <= j < old(self).in_flight().len()
                && spec_ready(#[trigger] old(self).in_flight()[j]),
            match spec_selected(old(self).in_flight()) {
                None => {
                    &&& r is None
                    &&& final(self).in_flight() == spec_all_aged(old(self).in_flight())
                    &&& final(self).usage() == old(self).usage()
                },
                Some(k) => {
                    let p = old(self).in_flight()[k];
                    let instr = p.spec_instruction();
                    &&& r == Some(O::spec_from_instr_and_result(
                        instr,
                        spec_compute(instr.spec_opcode(), instr.spec_inputs()),
                    ))
                    &&& final(self).in_flight() == spec_all_aged(old(self).in_flight()).remove(k)
                    &&& p.spec_pipe() < old(self).usage().len()
                    &&& final(self).usage() == old(self).usage().update(p.spec_pipe() as int, false)
                },
            },
    {
        let ghost s = self.in_progress_instructions@;
        let mut max_age: u8 = 0;
        let mut index: Option<usize> = None;
        let n = self.in_progress_instructions.len();
        let mut i: usize = 0;
        while i < n
            invariant
                n == s.len(),
                i <= n,
                self.in_progress_instructions@.len() == n,
                self.pipes == old(self).pipes,
                self.resource_usage == old(self).resource_usage,
                spec_pipes_held(s, self.resource_usage@),
                forall|k: int| 0 <= k < i ==> #[trigger] self.in_progress_instructions@[k] == spec_aged(s[k]),
                forall|k: int| i <= k < n ==> #[trigger] self.in_progress_instructions@[k] == s[k],
                forall|k: int| 0 <= k < n ==> (#[trigger] s[k]).spec_age() < 255,
                (max_age as int, match index { Some(x) => Some(x as int), None => None }) == spec_scan(s, i as nat),
            decreases n - i,
        {
            let mut p = self.in_progress_instructions.remove(i);
            // ready, and the first ready one or older than the one found so far
            let record = p.age + 1 >= p.latency && (index.is_none() || p.age > max_age);
            let age = p.age;
            p.age = p.age + 1;
            self.in_progress_instructions.insert(i, p);
            if record {
                max_age = age;
                index = Some(i);
            }
            i = i + 1;
        }
        assert(self.in_progress_instructions@ =~= spec_all_aged(s));
        proof {
            lemma_scan_bounds(s, n as nat);
            lemma_scan_finds_oldest(s, n as nat);
            assert forall|k: int| 0 <= k < n implies (#[trigger] self.in_progress_instructions@[k]).instruction.inputs_available() by {
                assert(old(self).in_progress_instructions@[k].instruction.inputs_available());
            }
            let a = self.in_progress_instructions@;
            assert forall|k: int| 0 <= k < n implies (#[trigger] a[k]).spec_pipe() == s[k].spec_pipe() by {
                assert(a[k] == spec_aged(s[k]));
            }
            assert forall|j: int, k: int| 0 <= j < k < a.len() implies (#[trigger] a[j]).spec_pipe()
                != (#[trigger] a[k]).spec_pipe() by {
                assert(a[j].spec_pipe() == s[j].spec_pipe());
                assert(a[k].spec_pipe() == s[k].spec_pipe());
            }
        }

        match index {
            Some(index_to_remove) => {
                let ghost aged = self.in_progress_instructions@;
                let p = self.in_progress_instructions.remove(index_to_remove);
                let instruction = p.instruction;
                self.resource_usage.set(p._resources_used, false);
                let opcode = instruction.get_opcode();
                let inputs = instruction.get_inputs();
                let result = compute(opcode, &inputs);
                proof {
                    assert(self.pipe_kinds() =~= old(self).pipe_kinds());
                    let f = self.in_progress_instructions@;
                    let q = index_to_remove as int;
                    assert forall|k: int| 0 <= k < f.len() implies (#[trigger] f[k]).spec_pipe() < self.resource_usage@.len()
                        && self.resource_usage@[f[k].spec_pipe() as int] by {
                        if k < q {
                            assert(f[k] == aged[k]);
                            assert(s[k].spec_pipe() != s[q].spec_pipe());
                        } else {
                            assert(f[k] == aged[k + 1]);
                            assert(s[q].spec_pipe() != s[k + 1].spec_pipe());
                        }
                    }
                    assert forall|j: int, k: int| 0 <= j < k < f.len() implies (#[trigger] f[j]).spec_pipe()
                        != (#[trigger] f[k]).spec_pipe() by {
                        let jj = if j < q { j } else { j + 1 };
                        let kk = if k < q { k } else { k + 1 };
                        assert(f[j] == aged[jj]);
                        assert(f[k] == aged[kk]);
                        assert(s[jj].spec_pipe() != s[kk].spec_pipe());
                    }
                }
                Some(O::from_instr_and_result(instruction, result))
            },
            None => {
                proof {
                    assert(self.pipe_kinds() =~= old(self).pipe_kinds());
                }
                None
            },
        }
    }
}

/// The ALU state of a pipeline that issues at most one instruction per cycle
/// and ticks the ALU every cycle: at most one instruction in flight, one cycle
/// old, with the standard latency.
pub open spec fn settled<I: OpaqueInstruction>(s: Seq<InstructionProgress<I>>) -> bool {
    &&& s.len() <= 1
    &&& forall|k: int| 0 <= k < s.len() ==> (#[trigger] s[k]).spec_age() == 1 && s[k].spec_latency() == 2
}

/// The in-flight instructions after a tick.
pub open spec fn spec_after_tick<I: OpaqueInstruction>(s: Seq<InstructionProgress<I>>) -> Seq<InstructionProgress<I>> {
    match spec_selected(s) {
        None => spec_all_aged(s),
        Some(k) => spec_all_aged(s).remove(k),
    }
}

/// Issuing at most one instruction per cycle and ticking every cycle keeps the
/// ALU settled: the instruction issued in the previous cycle is the one
/// completed, and the one just issued waits one cycle.
pub proof fn lemma_single_issue<I: OpaqueInstruction>(s: Seq<InstructionProgress<I>>, issued: bool)
    requires
        issued ==> s.len() >= 1 && settled(s.drop_last()) && s.last().spec_age() == 0
            && s.last().spec_latency() == 2,
        !issued ==> settled(s),
    ensures
        settled(spec_after_tick(s)),
        spec_selected(s) matches Some(k) ==> k == 0 && s[0].spec_age() == 1,
        spec_selected(s) is None ==> !(s.len() > 0 && s[0].spec_age() == 1),
{
    reveal_with_fuel(spec_scan, 3);
    if issued {
        let t = s.drop_last();
        if t.len() == 1 {
            assert(s[0] == t[0]);
            assert(s.len() == 2);
            assert(spec_scan(s, 1) == (1int, Some(0int)));
            assert(spec_selected(s) == Some(0int));
            assert(spec_after_tick(s) =~= seq![spec_aged(s[1])]);
        } else {
            assert(s.len() == 1);
            assert(spec_selected(s) is None);
        }
    } else {
        if s.len() == 1 {
            assert(spec_selected(s) == Some(0int));
            assert(spec_after_tick(s) =~= Seq::<InstructionProgress<I>>::empty());
        }
    }
}

/// A newly issued instruction is zero cycles old and has the standard latency.
pub proof fn lemma_new_progress<I: OpaqueInstruction>(instr: I, pipe: int)
    ensures
        spec_new_progress(instr, pipe).spec_age() == 0,
        spec_new_progress(instr, pipe).spec_latency() == 2,
        spec_new_progress(instr, pipe).spec_instruction() == instr,
        spec_new_progress(instr, pipe).spec_pipe() == pipe as usize,
{
}

/// Aging keeps the instruction and its pipe and adds one to its age.
pub proof fn lemma_aged<I: OpaqueInstruction>(p: InstructionProgress<I>)
    ensures
        spec_aged(p).spec_instruction() == p.spec_instruction(),
        spec_aged(p).spec_pipe() == p.spec_pipe(),
        spec_aged(p).spec_latency() == p.spec_latency(),
        spec_aged(p).spec_age() == (p.spec_age() + 1) as u8,
{
}


/// `X` for a pipe in use this cycle, `.` for a free one.
pub open spec fn usage_text(usage: Seq<bool>) -> Seq<char> {
    Seq::new(usage.len(), |i: int| if usage[i] { 'X' } else { '.' })
}

/// How the diagnostic tree shows an instruction in flight.
pub open spec fn progress_text<I: OpaqueInstruction>(p: InstructionProgress<I>) -> Seq<char> {
    opcode_name(p.spec_instruction().spec_opcode()) + "  age="@ + dec_text(p.spec_age() as nat) + "/"@
        + dec_text(p.spec_latency() as nat) + "  pipe="@ + dec_text(p.spec_pipe() as nat)
}

impl<I: OpaqueInstruction, O: OpaqueResult<I>> ALU<I, O> {
    /// `n` describes this ALU: the number of pipes and of instructions in
    /// flight, which pipes are in use this cycle, and each instruction in flight.
    pub open spec fn diagnosis(&self, n: DiagNode) -> bool {
        &&& n.label@ == "alu"@
        &&& n.value is None
        &&& n.children@.len() == 2 + self.in_flight().len()
        &&& leaf_is(n.children@[0], "pipes"@, dec_text(self.pipe_kinds().len()) + " ("@
            + dec_text(self.in_flight().len()) + " in-flight)"@)
        &&& leaf_is(n.children@[1], "pipe usage"@, "["@ + usage_text(self.usage()) + "]"@)
        &&& forall|i: int| 0 <= i < self.in_flight().len() ==> leaf_is(
            #[trigger] n.children@[2 + i],
            "["@ + dec_text(i as nat) + "]"@,
            progress_text(self.in_flight()[i]),
        )
    }
}

impl<I: OpaqueInstruction, O: OpaqueResult<I>> Diagnosable for ALU<I, O> {
    open spec fn diagnosable(&self) -> bool {
        true
    }

    /// The number of pipes and of instructions in flight, which pipes are in
    /// use this cycle, and each instruction in flight.
    fn diagnose(&self) -> (r: DiagNode)
        ensures
            self.diagnosis(r),
    {
        let mut pipes: Vec<char> = Vec::new();
        push_dec(&mut pipes, self.pipes.len() as u64);
        push_str(&mut pipes, " (");
        push_dec(&mut pipes, self.in_progress_instructions.len() as u64);
        push_str(&mut pipes, " in-flight)");
        let mut usage: Vec<char> = Vec::new();
        push_str(&mut usage, "[");
        let ghost start = usage@;
        let mut j: usize = 0;
        while j < self.resource_usage.len()
            invariant
                j <= self.usage().len(),
                usage@ == start + usage_text(self.usage()).take(j as int),
            decreases self.usage().len() - j,
        {
            if self.resource_usage[j] {
                usage.push('X');
            } else {
                usage.push('.');
            }
            j = j + 1;
            assert(usage@ =~= start + usage_text(self.usage()).take(j as int));
        }
        assert(usage_text(self.usage()).take(j as int) =~= usage_text(self.usage()));
        push_str(&mut usage, "]");
        let mut label: Vec<char> = Vec::new();
        push_str(&mut label, "pipes");
        let c0 = leaf_of(&label, &pipes);
        let mut label: Vec<char> = Vec::new();
        push_str(&mut label, "pipe usage");
        let c1 = leaf_of(&label, &usage);
        let mut children: Vec<DiagNode> = Vec::new();
        children.push(c0);
        children.push(c1);
        let mut i: usize = 0;
        while i < self.in_progress_instructions.len()
            invariant
                i <= self.in_flight().len(),
                children@.len() == 2 + i,
                leaf_is(children@[0], "pipes"@, dec_text(self.pipe_kinds().len()) + " ("@
                    + dec_text(self.in_flight().len()) + " in-flight)"@),
                leaf_is(children@[1], "pipe usage"@, "["@ + usage_text(self.usage()) + "]"@),
                forall|k: int| 0 <= k < i ==> leaf_is(
                    #[trigger] children@[2 + k],
                    "["@ + dec_text(k as nat) + "]"@,
                    progress_text(self.in_flight()[k]),
                ),
            decreases self.in_flight().len() - i,
        {
            let p = &self.in_progress_instructions[i];
            let mut label: Vec<char> = Vec::new();
            push_str(&mut label, "[");
            push_dec(&mut label, i as u64);
            push_str(&mut label, "]");
            let mut val: Vec<char> = Vec::new();
            push_str(&mut val, opcode_str(p.instruction.get_opcode()));
            push_str(&mut val, "  age=");
            push_dec(&mut val, p.age as u64);
            push_str(&mut val, "/");
            push_dec(&mut val, p.latency as u64);
            push_str(&mut val, "  pipe=");
            push_dec(&mut val, p._resources_used as u64);
            assert(val@ =~= progress_text(self.in_flight()[i as int]));
            children.push(leaf_of(&label, &val));
            i = i + 1;
        }
        let mut root: Vec<char> = Vec::new();
        push_str(&mut root, "alu");
        inner_of(&root, children)
    }
}

} // verus!
