//! A simple out-of-order CPU (Tomasulo style).
pub mod reorder_buffer;
pub mod reservation_stations;

use vstd::prelude::*;
use vstd::multiset::Multiset;
use crate::alu::{
    ALU, AluPipe, ExecInputs, FuncUnitKind, OpaqueInstruction, OpaqueResult, InstructionProgress,
    spec_new_progress, spec_selected, spec_after_tick, spec_compute, settled, lemma_single_issue,
    lemma_new_progress, lemma_aged, lemma_scan_bounds,
};
use crate::circular_buffer::{ring_offset, lemma_ring_push, lemma_ring_pop};
use crate::isa::{self, decoded_text, push_decoded, DecodedInstr, InstResult, InstrFormat as Format, Opcode, spec_decode};
use crate::diag::{inner_of, leaf_is, leaf_of, DiagNode, Diagnosable};
use crate::utils::text::{dec_text, hex8_text, option_text, push_dec, push_hex8, push_str};
use crate::latch::Latch;
use crate::utils::le_bytes::{
    read_u16, read_u32, write_le, copy_in, spec_read_u16, spec_read_u32, spec_write_le, spec_copy_in,
};
use reorder_buffer::{SROBEntry, SimpleReorderBuffer};
use reservation_stations::{
    Operand, SREntry, SimpleReservationStation, spec_dispatch_from, spec_update_entry, push_sr_entry,
    sr_entry_text,
};

verus! {

broadcast use vstd::seq_lib::group_to_multiset_ensures;

pub type RobTag = usize;

/// An instruction as it travels through the ALU, with its reorder-buffer tag.
pub struct InstrFormat {
    pub rob_tag: RobTag,
    pub instr: SREntry,
}

impl OpaqueInstruction for InstrFormat {
    open spec fn spec_opcode(&self) -> Opcode {
        self.instr.opcode
    }

    open spec fn inputs_available(&self) -> bool {
        self.instr.rs1 is Ready && self.instr.rs2 is Ready
    }

    open spec fn spec_inputs(&self) -> ExecInputs {
        ExecInputs { pc: self.instr.pc, rs1: self.instr.rs1->Ready_0, rs2: self.instr.rs2->Ready_0, imm: self.instr.imm }
    }

    fn get_opcode(&self) -> (r: Opcode) {
        self.instr.opcode
    }

    fn get_inputs(&self) -> (r: ExecInputs) {
        let rs1 = match self.instr.rs1 {
            Operand::Ready(v) => v,
            Operand::Waiting(_) => 0,
        };
        let rs2 = match self.instr.rs2 {
            Operand::Ready(v) => v,
            Operand::Waiting(_) => 0,
        };
        ExecInputs { pc: self.instr.pc, rs1, rs2, imm: self.instr.imm }
    }
}

/// A completed ALU operation with its reorder-buffer tag.
#[derive(Debug, Clone, Copy)]
pub struct ResultFormat {
    pub rob_tag: RobTag,
    pub instr: SREntry,
    pub result: u32,
}

impl OpaqueResult<InstrFormat> for ResultFormat {
    open spec fn spec_from_instr_and_result(instr: InstrFormat, result: u32) -> Self {
        ResultFormat { rob_tag: instr.rob_tag, instr: instr.instr, result }
    }

    fn from_instr_and_result(instr: InstrFormat, result: u32) -> (r: Self) {
        ResultFormat { rob_tag: instr.rob_tag, instr: instr.instr, result }
    }
}

pub type OOOALU = ALU<InstrFormat, ResultFormat>;

/// Output of the fetch stage.
#[derive(Debug, Clone, Copy)]
pub struct IfId {
    pub pc: u32,
    pub word: u32,
}

/// Output of the decode stage.
#[derive(Debug, Clone, Copy)]
pub struct IdRs {
    pub pc: u32,
    pub instr: DecodedInstr,
}

/// A retired instruction's result with the tag it had.
pub struct TaggedResult {
    pub rob_tag: RobTag,
    pub result: InstResult,
}

/// The pipes of the ALU: one integer pipe, one load/store pipe, one branch pipe.
pub open spec fn ooo_pipe_kinds() -> Seq<Seq<FuncUnitKind>> {
    seq![seq![FuncUnitKind::IntAlu], seq![FuncUnitKind::LoadStore], seq![FuncUnitKind::Branch]]
}

pub open spec fn spec_is_branch(op: Opcode) -> bool {
    matches!(op, Opcode::Beq | Opcode::Bne | Opcode::Blt | Opcode::Bge | Opcode::Bltu | Opcode::Bgeu
        | Opcode::Jal | Opcode::Jalr)
}

/// The address the front end resumes at once a branch or jump completes: the
/// target of a jump (`jal`: pc + imm; `jalr`: rs1 + imm with the low bit
/// cleared), and for a branch the ALU result, which is the taken target or
/// the fall-through address.
pub open spec fn spec_next_pc(res: ResultFormat) -> u32 {
    let imm = res.instr.imm as u32;
    match res.instr.opcode {
        Opcode::Jal => res.instr.pc.wrapping_add(imm),
        Opcode::Jalr => {
            let base = match res.instr.rs1 { Operand::Ready(v) => v, Operand::Waiting(_) => 0 };
            base.wrapping_add(imm) & !1u32
        },
        _ => res.result,
    }
}

/// A `jal` resumes at pc + imm and a `jalr` at rs1 + imm rounded down to an
/// even address, both modulo 2^32; a branch resumes at what the ALU computed.
pub proof fn law_next_pc(res: ResultFormat)
    ensures
        ({
            let m = 0x1_0000_0000int;
            let rs1 = match res.instr.rs1 { Operand::Ready(v) => v as int, Operand::Waiting(_) => 0 };
            let sum = (rs1 + res.instr.imm as int + m) % m;
            &&& res.instr.opcode == Opcode::Jal ==> spec_next_pc(res) as int == (res.instr.pc as int + res.instr.imm as int + m) % m
            &&& res.instr.opcode == Opcode::Jalr ==> spec_next_pc(res) as int == sum - sum % 2
            &&& !(res.instr.opcode == Opcode::Jal || res.instr.opcode == Opcode::Jalr) ==> spec_next_pc(res) == res.result
        }),
{
    let imm = res.instr.imm;
    let u = imm as u32;
    let base = match res.instr.rs1 { Operand::Ready(v) => v, Operand::Waiting(_) => 0u32 };
    let x = base.wrapping_add(u);
    lemma_jump_bits(x, u, imm);
}

/// Clearing the low bit rounds down to even; an immediate read as a 32-bit
/// value is the immediate modulo 2^32.
proof fn lemma_jump_bits(x: u32, u: u32, imm: i32)
    by (bit_vector)
    requires
        u == imm as u32,
    ensures
        (x & !1u32) == x - x % 2,
        imm >= 0i32 ==> u == imm,
        imm < 0i32 ==> u == imm + 0x1_0000_0000,
{
}

/// Computes `spec_next_pc`.
fn next_pc(res: &ResultFormat) -> (r: u32)
    ensures
        r == spec_next_pc(*res),
{
    let imm = res.instr.imm as u32;
    match res.instr.opcode {
        Opcode::Jal => res.instr.pc.wrapping_add(imm),
        Opcode::Jalr => {
            let base = match res.instr.rs1 { Operand::Ready(v) => v, Operand::Waiting(_) => 0 };
            base.wrapping_add(imm) & !1u32
        },
        _ => res.result,
    }
}

pub open spec fn spec_is_load(op: Opcode) -> bool {
    matches!(op, Opcode::Lb | Opcode::Lh | Opcode::Lw | Opcode::Lbu | Opcode::Lhu)
}

/// Only R, I, U, J instructions write a meaningful value to rd: B-type and
/// S-type encode immediates in bits 11..7.
pub open spec fn spec_writes_rd(format: Format) -> bool {
    matches!(format, Format::R | Format::I | Format::U | Format::J)
}

/// The number of bytes a load or store accesses; 0 for other operations.
pub open spec fn spec_access_width(op: Opcode) -> int {
    match op {
        Opcode::Lb | Opcode::Lbu | Opcode::Sb => 1,
        Opcode::Lh | Opcode::Lhu | Opcode::Sh => 2,
        Opcode::Lw | Opcode::Sw => 4,
        _ => 0,
    }
}

/// The state of the CPU, as values, including the staged halves of the
/// pipeline registers.
pub struct OooState {
    pub mem: Seq<u8>,
    pub regs: Seq<u32>,
    pub rat: Seq<Option<usize>>,
    pub pc: u32,
    pub branch_stall: bool,
    pub if_id: Option<IfId>,
    pub if_id_staged: Option<IfId>,
    pub id_rs: Option<IdRs>,
    pub id_rs_staged: Option<IdRs>,
    pub rs: Seq<SREntry>,
    pub rs_cap: nat,
    pub rob: Seq<SROBEntry>,
    pub rob_head: int,
    pub rob_cap: nat,
    pub alu: Seq<InstructionProgress<InstrFormat>>,
    pub alu_usage: Seq<bool>,
    pub alu_mem: Option<ResultFormat>,
    pub alu_mem_staged: Option<ResultFormat>,
    pub mem_rob_release: Option<ResultFormat>,
    pub mem_rob_release_staged: Option<ResultFormat>,
}

/// The frontend holds back: the reservation station or the reorder buffer is
/// full, or a branch is unresolved.
pub open spec fn spec_stall(s: OooState) -> bool {
    s.rs.len() >= s.rs_cap || s.rob.len() == s.rob_cap || s.branch_stall
}

/// A reorder-buffer tag names an entry.
pub open spec fn rob_live(s: OooState, t: int) -> bool {
    0 <= t < s.rob_cap && ring_offset(s.rob_head, t, s.rob_cap as int) < s.rob.len()
}

/// The reorder-buffer entry a live tag names.
pub open spec fn rob_entry(s: OooState, t: int) -> SROBEntry {
    s.rob[ring_offset(s.rob_head, t, s.rob_cap as int)]
}

/// The tag the next reorder-buffer entry gets.
pub open spec fn rob_next_tag(s: OooState) -> int {
    (s.rob_head + s.rob.len()) % (s.rob_cap as int)
}

/// The reorder buffer after entry `t` completes with `v`.
pub open spec fn rob_complete(s: OooState, t: int, v: u32) -> Seq<SROBEntry> {
    s.rob.update(
        ring_offset(s.rob_head, t, s.rob_cap as int),
        SROBEntry { result: Some(v), ready: true, ..rob_entry(s, t) },
    )
}

/// IF: unless the frontend stalls, fetch the word at pc.
pub open spec fn spec_fetch(s: OooState) -> OooState {
    if !spec_stall(s) {
        OooState {
            if_id_staged: Some(IfId { pc: s.pc, word: spec_read_u32(s.mem, s.pc as int) }),
            pc: (s.pc + 4) as u32,
            ..s
        }
    } else {
        s
    }
}

/// ID: decode the word fetched last cycle. The second result is true when the
/// word is not an instruction, which ends the cycle there.
pub open spec fn spec_decode_step(s: OooState) -> (OooState, bool) {
    match s.if_id {
        Some(b) => match spec_decode(b.word) {
            Some(instr) => (OooState { if_id: None, id_rs_staged: Some(IdRs { pc: b.pc, instr }), ..s }, false),
            None => (OooState { if_id: None, ..s }, true),
        },
        None => (s, false),
    }
}

/// How a source register is read at issue: the committed value, or the
/// in-flight producer's result if it has one, or a wait on the producer's tag.
pub open spec fn spec_resolve(s: OooState, r: u8) -> Operand {
    match s.rat[r as int] {
        Some(t) => match rob_entry(s, t as int).result {
            Some(v) => Operand::Ready(v),
            None => Operand::Waiting(t),
        },
        None => Operand::Ready(s.regs[r as int]),
    }
}

/// IS: allocate a reorder-buffer entry for the decoded instruction, resolve
/// its operands, point the destination register at it and put it in the
/// reservation station. Branches stall the frontend until they resolve.
pub open spec fn spec_issue(s: OooState) -> OooState {
    match s.id_rs {
        Some(x) => {
            let tag = rob_next_tag(s);
            let s1 = OooState {
                id_rs: None,
                rob: s.rob.push(SROBEntry { _pc: x.pc, rd: x.instr.rd, format: x.instr.format, result: None, ready: false }),
                branch_stall: s.branch_stall || spec_is_branch(x.instr.opcode),
                ..s
            };
            let op1 = spec_resolve(s1, x.instr.rs1);
            let op2 = spec_resolve(s1, x.instr.rs2);
            OooState {
                rat: if spec_writes_rd(x.instr.format) && x.instr.rd != 0 {
                    s1.rat.update(x.instr.rd as int, Some(tag as usize))
                } else {
                    s1.rat
                },
                rs: s1.rs.push(SREntry {
                    rob_tag: tag as usize,
                    opcode: x.instr.opcode,
                    pc: x.pc,
                    imm: x.instr.imm,
                    rs1: op1,
                    rs2: op2,
                    ready: op1 is Ready && op2 is Ready,
                }),
                ..s1
            }
        },
        None => s,
    }
}

/// The ALU's in-flight instructions and pipe usage after the station offers
/// it an entry.
pub open spec fn spec_offer(
    alu: Seq<InstructionProgress<InstrFormat>>,
    usage: Seq<bool>,
    sel: Option<(SREntry, int)>,
) -> (Seq<InstructionProgress<InstrFormat>>, Seq<bool>) {
    match sel {
        Some((e, p)) => (alu.push(spec_new_progress(InstrFormat { rob_tag: e.rob_tag, instr: e }, p)), usage.update(p, true)),
        None => (alu, usage),
    }
}

/// EX: dispatch one ready entry, tick the ALU, and for a completed
/// instruction: a branch sets the pc and lifts the branch stall; a non-load
/// broadcasts its result to the station and completes its reorder-buffer
/// entry; the result goes to the memory stage.
pub open spec fn spec_execute(s: OooState) -> OooState {
    let (rs1, sel) = spec_dispatch_from(s.rs, 0, s.rs.len(), ooo_pipe_kinds(), s.alu_usage);
    let (alu1, usage1) = spec_offer(s.alu, s.alu_usage, sel);
    match spec_selected(alu1) {
        None => OooState { rs: rs1, alu: spec_after_tick(alu1), alu_usage: usage1, ..s },
        Some(k) => {
            let p = alu1[k];
            let instr = p.spec_instruction();
            let res = ResultFormat {
                rob_tag: instr.rob_tag,
                instr: instr.instr,
                result: spec_compute(instr.spec_opcode(), instr.spec_inputs()),
            };
            let usage2 = if p.spec_pipe() < usage1.len() { usage1.update(p.spec_pipe() as int, false) } else { usage1 };
            let branch = spec_is_branch(res.instr.opcode);
            let load = spec_is_load(res.instr.opcode);
            OooState {
                rs: if !load {
                    Seq::new(rs1.len(), |i: int| spec_update_entry(rs1[i], res.rob_tag, res.result))
                } else {
                    rs1
                },
                rob: if !load { rob_complete(s, res.rob_tag as int, res.result) } else { s.rob },
                alu: spec_after_tick(alu1),
                alu_usage: usage2,
                pc: if branch { spec_next_pc(res) } else { s.pc },
                branch_stall: if branch { false } else { s.branch_stall },
                alu_mem_staged: Some(res),
                ..s
            }
        },
    }
}

/// The memory access of an executed instruction: loads read at the computed
/// address (sign- or zero-extended), stores write the low bytes of rs2 there
/// and give 0; everything else passes its result through. (memory, value)
pub open spec fn spec_mem_access(mem: Seq<u8>, i: ResultFormat) -> (Seq<u8>, u32) {
    let a = i.result as int;
    let data = i.instr.rs2->Ready_0;
    match i.instr.opcode {
        Opcode::Lb => (mem, mem[a] as i8 as u32),
        Opcode::Lbu => (mem, mem[a] as u32),
        Opcode::Lh => (mem, spec_read_u16(mem, a) as i16 as u32),
        Opcode::Lhu => (mem, spec_read_u16(mem, a) as u32),
        Opcode::Lw => (mem, spec_read_u32(mem, a)),
        Opcode::Sb => (mem.update(a, (data & 0xff) as u8), 0),
        Opcode::Sh => (spec_write_le(mem, a, data as u16 as u32, 2), 0),
        Opcode::Sw => (spec_write_le(mem, a, data, 4), 0),
        _ => (mem, i.result),
    }
}

/// The loads of the MEM stage: `lb` and `lh` sign-extend the byte or the
/// little-endian halfword at the address (a value with its top bit set gets
/// all upper bits set), `lbu` and `lhu` zero-extend it, and `lw` reads the
/// little-endian word; a load leaves memory as it was.
pub proof fn law_load_values(mem: Seq<u8>, i: ResultFormat)
    requires
        i.result as int + 4 <= mem.len(),
    ensures
        ({
            let a = i.result as int;
            let b = mem[a] as int;
            let h = mem[a] as int + 256 * mem[a + 1] as int;
            let access = |op: Opcode| spec_mem_access(mem, ResultFormat { instr: SREntry { opcode: op, ..i.instr }, ..i });
            &&& access(Opcode::Lb).1 as int == if b < 0x80 { b } else { b + 0xFFFF_FF00 }
            &&& access(Opcode::Lbu).1 as int == b
            &&& access(Opcode::Lh).1 as int == if h < 0x8000 { h } else { h + 0xFFFF_0000 }
            &&& access(Opcode::Lhu).1 as int == h
            &&& access(Opcode::Lw).1 as int == h + 65536 * mem[a + 2] as int + 16777216 * mem[a + 3] as int
            &&& access(Opcode::Lb).0 == mem && access(Opcode::Lbu).0 == mem && access(Opcode::Lh).0 == mem
            &&& access(Opcode::Lhu).0 == mem && access(Opcode::Lw).0 == mem
        }),
{
    let a = i.result as int;
    let x = mem[a];
    let hv = spec_read_u16(mem, a);
    crate::utils::le_bytes::lemma_width_bits(x, hv, 0);
    assert(hv as int == mem[a] as int + 256 * mem[a + 1] as int);
}

/// The memory a store leaves: `sb`, `sh` and `sw` write the low one, two or
/// four bytes of the rs2 value at the address, least significant first, and
/// leave every other byte as it was; a store's value is 0.
pub proof fn law_store_effects(mem: Seq<u8>, i: ResultFormat)
    requires
        i.result as int + 4 <= mem.len(),
        i.instr.rs2 is Ready,
    ensures
        ({
            let a = i.result as int;
            let v = i.instr.rs2->Ready_0 as int;
            let access = |op: Opcode| spec_mem_access(mem, ResultFormat { instr: SREntry { opcode: op, ..i.instr }, ..i });
            &&& forall|j: int| 0 <= j < mem.len() ==> #[trigger] access(Opcode::Sb).0[j]
                == if j == a { (v % 256) as u8 } else { mem[j] }
            &&& forall|j: int| 0 <= j < mem.len() ==> #[trigger] access(Opcode::Sh).0[j]
                == if j == a { (v % 256) as u8 } else if j == a + 1 { ((v / 256) % 256) as u8 } else { mem[j] }
            &&& forall|j: int| 0 <= j < mem.len() ==> #[trigger] access(Opcode::Sw).0[j]
                == if j == a { (v % 256) as u8 } else if j == a + 1 { ((v / 256) % 256) as u8 }
                else if j == a + 2 { ((v / 65536) % 256) as u8 } else if j == a + 3 { (v / 16777216) as u8 }
                else { mem[j] }
            &&& access(Opcode::Sb).0.len() == mem.len() && access(Opcode::Sh).0.len() == mem.len()
            &&& access(Opcode::Sw).0.len() == mem.len()
            &&& access(Opcode::Sb).1 == 0 && access(Opcode::Sh).1 == 0 && access(Opcode::Sw).1 == 0
        }),
{
    let x = i.instr.rs2->Ready_0;
    crate::utils::le_bytes::lemma_width_bits(0, 0, x);
    let h = x as u16;
    assert((h as u32) == h);
    assert(h as int % 256 == x as int % 256) by (nonlinear_arith) requires h as int == x as int % 65536;
    assert((h as int / 256) % 256 == (x as int / 256) % 256) by (nonlinear_arith)
        requires h as int == x as int % 65536, x >= 0;
    assert((x as int / 16777216) % 256 == x as int / 16777216) by (nonlinear_arith) requires 0 <= x < 0x1_0000_0000;
    assert(crate::utils::le_bytes::pow256(0) == 1 && crate::utils::le_bytes::pow256(1) == 256
        && crate::utils::le_bytes::pow256(2) == 65536 && crate::utils::le_bytes::pow256(3) == 16777216);
}

/// MEM: perform the memory access of the instruction the ALU finished last cycle.
pub open spec fn spec_memory(s: OooState) -> OooState {
    match s.alu_mem {
        Some(i) => {
            let (mem, result) = spec_mem_access(s.mem, i);
            OooState {
                mem,
                alu_mem: None,
                mem_rob_release_staged: Some(ResultFormat { result, ..i }),
                ..s
            }
        },
        None => s,
    }
}

/// WB: a load's value is final now: broadcast it and complete its entry.
pub open spec fn spec_writeback(s: OooState) -> OooState {
    match s.mem_rob_release {
        Some(i) => if spec_is_load(i.instr.opcode) {
            OooState {
                mem_rob_release: None,
                rs: Seq::new(s.rs.len(), |k: int| spec_update_entry(s.rs[k], i.rob_tag, i.result)),
                rob: rob_complete(s, i.rob_tag as int, i.result),
                ..s
            }
        } else {
            OooState { mem_rob_release: None, ..s }
        },
        None => s,
    }
}

/// Commit: retire the oldest entry if complete. A result for rd (not x0) is
/// written to the register file, and the alias of rd is cleared if it still
/// names this entry.
pub open spec fn spec_commit(s: OooState) -> OooState {
    if s.rob.len() > 0 && s.rob[0].ready {
        let e = s.rob[0];
        let tag = s.rob_head;
        let rd = e.rd as int;
        let s1 = OooState { rob: s.rob.drop_first(), rob_head: (s.rob_head + 1) % (s.rob_cap as int), ..s };
        if spec_writes_rd(e.format) && rd != 0 {
            OooState {
                rat: if s.rat[rd] == Some(tag as usize) { s.rat.update(rd, None) } else { s.rat },
                regs: s.regs.update(rd, e.result->0),
                ..s1
            }
        } else {
            s1
        }
    } else {
        s
    }
}

/// The pipeline registers take their staged values.
pub open spec fn spec_advance(s: OooState) -> OooState {
    OooState {
        if_id: s.if_id_staged,
        if_id_staged: None,
        id_rs: s.id_rs_staged,
        id_rs_staged: None,
        alu_mem: s.alu_mem_staged,
        alu_mem_staged: None,
        mem_rob_release: s.mem_rob_release_staged,
        mem_rob_release_staged: None,
        ..s
    }
}

/// One cycle of the CPU (see `tick`).
pub open spec fn spec_ooo_tick(s: OooState) -> OooState {
    let (s2, halted) = spec_decode_step(spec_fetch(s));
    if halted {
        s2
    } else {
        spec_advance(spec_commit(spec_writeback(spec_memory(spec_execute(spec_issue(s2))))))
    }
}

/// A tick runs without a fault: a fetch (unless stalled) lies within memory, the
/// word in decode is an instruction or zero, and, if the cycle goes on, the
/// instruction to issue finds room in the reorder buffer and the station, and
/// the memory access of the instruction in the MEM stage lies within memory.
pub open spec fn spec_ooo_tick_safe(s: OooState) -> bool {
    let halted = spec_decode_step(spec_fetch(s)).1;
    &&& !spec_stall(s) ==> s.pc + 4 <= s.mem.len()
    &&& s.if_id matches Some(b) ==> (spec_decode(b.word) is Some || b.word == 0)
    &&& !halted ==> (s.id_rs is Some ==> s.rob.len() < s.rob_cap && s.rs.len() < s.rs_cap)
    &&& !halted ==> (s.alu_mem matches Some(i) ==> (spec_access_width(i.instr.opcode) > 0
        ==> i.result + spec_access_width(i.instr.opcode) <= s.mem.len()))
}

/// The load's tag, for a load; nothing otherwise.
pub open spec fn load_tag(r: Option<ResultFormat>) -> Multiset<usize> {
    match r {
        Some(x) => if spec_is_load(x.instr.opcode) { Multiset::singleton(x.rob_tag) } else { Multiset::empty() },
        None => Multiset::empty(),
    }
}

pub open spec fn rs_tags(rs: Seq<SREntry>) -> Seq<usize> {
    reservation_stations::entry_tags(rs)
}

pub open spec fn alu_tags(alu: Seq<InstructionProgress<InstrFormat>>) -> Seq<usize> {
    alu.map_values(|p: InstructionProgress<InstrFormat>| p.spec_instruction().rob_tag)
}

/// The tags of the instructions issued and not yet complete: waiting in the
/// station, in the ALU, or loads on their way to write-back.
pub open spec fn pending_tags(s: OooState) -> Multiset<usize> {
    rs_tags(s.rs).to_multiset()
        .add(alu_tags(s.alu).to_multiset())
        .add(load_tag(s.alu_mem))
        .add(load_tag(s.alu_mem_staged))
        .add(load_tag(s.mem_rob_release))
        .add(load_tag(s.mem_rob_release_staged))
}

/// Every pending instruction has its own live, incomplete reorder-buffer
/// entry, and every register alias names a live entry that writes that register.
pub open spec fn tags_ok(s: OooState) -> bool {
    &&& forall|t: usize| #[trigger] pending_tags(s).count(t) > 0
        ==> rob_live(s, t as int) && !rob_entry(s, t as int).ready
    &&& forall|t: usize| #[trigger] pending_tags(s).count(t) <= 1
    &&& forall|r: int| 0 <= r < 32 ==> (#[trigger] s.rat[r] matches Some(t) ==> {
        &&& rob_live(s, t as int)
        &&& rob_entry(s, t as int).rd == r
        &&& r != 0
        &&& spec_writes_rd(rob_entry(s, t as int).format)
    })
}

/// The data invariants of the CPU between and within cycles.
pub open spec fn ooo_inv(s: OooState) -> bool {
    let n = s.mem.len();
    &&& n <= u32::MAX
    &&& s.regs.len() == 32
    &&& s.rat.len() == 32
    &&& s.rob_cap > 0
    &&& 0 <= s.rob_head < s.rob_cap
    &&& s.rob.len() <= s.rob_cap
    &&& s.rob_cap <= usize::MAX
    &&& forall|j: int| 0 <= j < s.rob.len() ==> (#[trigger] s.rob[j]).rd < 32
    &&& forall|j: int| 0 <= j < s.rob.len() ==> ((#[trigger] s.rob[j]).ready <==> s.rob[j].result is Some)
    &&& s.alu_usage.len() == 3
    &&& settled(s.alu)
    &&& forall|k: int| 0 <= k < s.alu.len() ==> (#[trigger] s.alu[k]).spec_instruction().instr.pc + 4 <= n
    &&& forall|k: int| 0 <= k < s.rs.len() ==> (#[trigger] s.rs[k]).pc + 4 <= n
    &&& forall|k: int| 0 <= k < s.rs.len() ==> ((#[trigger] s.rs[k]).ready <==> reservation_stations::operands_ready(s.rs[k]))
    &&& forall|k: int| 0 <= k < s.alu.len() ==> (#[trigger] s.alu[k]).spec_instruction().inputs_available()
    &&& s.if_id matches Some(l) ==> l.pc + 4 <= n
    &&& s.if_id_staged matches Some(l) ==> l.pc + 4 <= n
    &&& s.id_rs matches Some(l) ==> l.pc + 4 <= n && regs_ok(l.instr)
    &&& s.id_rs_staged matches Some(l) ==> l.pc + 4 <= n && regs_ok(l.instr)
    &&& s.alu_mem matches Some(i) ==> i.instr.rs2 is Ready
    &&& s.alu_mem_staged matches Some(i) ==> i.instr.rs2 is Ready
    &&& tags_ok(s)
}

/// The register fields of a decoded instruction name registers.
pub open spec fn regs_ok(d: DecodedInstr) -> bool {
    d.rd < 32 && d.rs1 < 32 && d.rs2 < 32
}

/// A tag in the station or the ALU is pending.
pub proof fn lemma_pending_parts(s: OooState, t: usize)
    ensures
        pending_tags(s).count(t) >= rs_tags(s.rs).to_multiset().count(t) + alu_tags(s.alu).to_multiset().count(t),
        pending_tags(s).count(t) >= load_tag(s.alu_mem).count(t) + load_tag(s.mem_rob_release).count(t),
{
}

/// The state after the station offers the ALU an entry, before the ALU ticks.
pub open spec fn spec_dispatched(s: OooState) -> OooState {
    let (rs1, sel) = spec_dispatch_from(s.rs, 0, s.rs.len(), ooo_pipe_kinds(), s.alu_usage);
    let (alu1, usage1) = spec_offer(s.alu, s.alu_usage, sel);
    OooState { rs: rs1, alu: alu1, alu_usage: usage1, ..s }
}

/// After dispatch the ALU can tick: its instructions are young enough, and the
/// one it completes, if any, was already in flight, has a defined value, and
/// owns a live, incomplete reorder-buffer entry.
pub proof fn lemma_execute_ready(s0: OooState, s1: OooState)
    requires
        ooo_inv(s0),
        s1 == spec_dispatched(s0),
    ensures
        forall|k: int| 0 <= k < s1.alu.len() ==> (#[trigger] s1.alu[k]).spec_age() < 255,
        spec_selected(s1.alu) matches Some(k) ==> {
            &&& k == 0
            &&& s0.alu.len() > 0
            &&& s1.alu[0] == s0.alu[0]
            &&& crate::alu::compute_defined(
                s1.alu[0].spec_instruction().spec_opcode(),
                s1.alu[0].spec_instruction().spec_inputs(),
            )
            &&& rob_live(s0, s1.alu[0].spec_instruction().rob_tag as int)
        },
{
    let (rs1, sel) = spec_dispatch_from(s0.rs, 0, s0.rs.len(), ooo_pipe_kinds(), s0.alu_usage);
    let a = s1.alu;
    let issued = sel is Some;
    match sel {
        Some((e, p)) => {
            lemma_new_progress(InstrFormat { rob_tag: e.rob_tag, instr: e }, p);
            assert(a.drop_last() =~= s0.alu);
        },
        None => {
            assert(a =~= s0.alu);
        },
    }
    lemma_single_issue(a, issued);
    assert forall|k: int| 0 <= k < a.len() implies (#[trigger] a[k]).spec_age() < 255 by {
        if issued && k == a.len() - 1 {
        } else {
            assert(a[k] == s0.alu[k]);
        }
    }
    if let Some(k) = spec_selected(a) {
        assert(s0.alu.len() > 0);
        assert(a[0] == s0.alu[0]);
        let t = s0.alu[0].spec_instruction().rob_tag;
        assert(alu_tags(s0.alu)[0] == t);
        assert(alu_tags(s0.alu).contains(t));
        lemma_pending_parts(s0, t);
    }
}

/// Fetching keeps the invariants.
pub proof fn lemma_fetch_inv(s: OooState)
    requires
        ooo_inv(s),
        !spec_stall(s) ==> s.pc + 4 <= s.mem.len(),
    ensures
        ooo_inv(spec_fetch(s)),
{
    assert(pending_tags(spec_fetch(s)) == pending_tags(s));
}

/// Decoding keeps the invariants.
pub proof fn lemma_decode_inv(s: OooState)
    requires
        ooo_inv(s),
    ensures
        ooo_inv(spec_decode_step(s).0),
{
    if let Some(b) = s.if_id {
        isa::lemma_decode_regs(b.word);
    }
    assert(pending_tags(spec_decode_step(s).0) == pending_tags(s));
}

/// After a push onto the reorder buffer, live tags stay live with the same
/// entries, and the new tag, not live before, names the new entry.
pub proof fn lemma_rob_push_facts(s: OooState, s1: OooState, e: SROBEntry)
    requires
        0 <= s.rob_head < s.rob_cap,
        s.rob.len() < s.rob_cap,
        s1.rob == s.rob.push(e),
        s1.rob_head == s.rob_head,
        s1.rob_cap == s.rob_cap,
    ensures
        forall|t: int| #[trigger] rob_live(s, t) ==> rob_live(s1, t) && rob_entry(s1, t) == rob_entry(s, t),
        !rob_live(s, rob_next_tag(s)),
        rob_live(s1, rob_next_tag(s)),
        rob_entry(s1, rob_next_tag(s)) == e,
        0 <= rob_next_tag(s) < s.rob_cap,
        forall|t: int| #[trigger] rob_live(s1, t) ==> rob_live(s, t) || t == rob_next_tag(s),
{
    let n = s.rob_cap as int;
    let h = s.rob_head;
    let l = s.rob.len() as int;
    lemma_ring_push(h, n, l, 0);
    assert forall|t: int| #[trigger] rob_live(s, t) implies rob_live(s1, t) && rob_entry(s1, t) == rob_entry(s, t) by {
        lemma_ring_push(h, n, l, t);
    }
    assert forall|t: int| #[trigger] rob_live(s1, t) implies rob_live(s, t) || t == rob_next_tag(s) by {
        lemma_ring_push(h, n, l, t);
    }
}

/// Issuing keeps the invariants: the new entry's tag was not live, so it is
/// pending once only, and the alias it gets names its own entry.
pub proof fn lemma_issue_inv(s: OooState)
    requires
        ooo_inv(s),
        s.id_rs is Some ==> s.rob.len() < s.rob_cap && s.rs.len() < s.rs_cap,
    ensures
        ooo_inv(spec_issue(s)),
{
    if let Some(x) = s.id_rs {
        let tag = rob_next_tag(s);
        let e = SROBEntry { _pc: x.pc, rd: x.instr.rd, format: x.instr.format, result: None, ready: false };
        let s2 = spec_issue(s);
        lemma_rob_push_facts(s, s2, e);
        let ne = s2.rs.last();
        assert(rs_tags(s2.rs) =~= rs_tags(s.rs).push(tag as usize));
        assert(pending_tags(s2) =~= pending_tags(s).insert(tag as usize));
        assert(pending_tags(s).count(tag as usize) == 0) by {
            if pending_tags(s).count(tag as usize) > 0 {
                assert(rob_live(s, tag));
            }
        }
        assert forall|t: usize| #[trigger] pending_tags(s2).count(t) > 0
            implies rob_live(s2, t as int) && !rob_entry(s2, t as int).ready by {
            if t != tag as usize {
                assert(pending_tags(s).count(t) > 0);
                assert(rob_live(s, t as int));
            }
        }
        assert forall|t: usize| #[trigger] pending_tags(s2).count(t) <= 1 by {
            assert(pending_tags(s).count(t) <= 1);
        }
        assert forall|r: int| 0 <= r < 32 implies (#[trigger] s2.rat[r] matches Some(t) ==> {
            &&& rob_live(s2, t as int)
            &&& rob_entry(s2, t as int).rd == r
            &&& r != 0
            &&& spec_writes_rd(rob_entry(s2, t as int).format)
        }) by {
            if s2.rat[r] is Some && s2.rat[r] != s.rat[r] {
                assert(r == x.instr.rd);
            } else if let Some(t) = s.rat[r] {
                assert(rob_live(s, t as int));
            }
        }
        assert forall|j: int| 0 <= j < s2.rob.len() implies (#[trigger] s2.rob[j]).rd < 32 by {
            if j < s.rob.len() { assert(s2.rob[j] == s.rob[j]); }
        }
        assert forall|j: int| 0 <= j < s2.rob.len() implies ((#[trigger] s2.rob[j]).ready <==> s2.rob[j].result is Some) by {
            if j < s.rob.len() { assert(s2.rob[j] == s.rob[j]); }
        }
        assert forall|k: int| 0 <= k < s2.rs.len() implies (#[trigger] s2.rs[k]).pc + 4 <= s2.mem.len()
            && (s2.rs[k].ready <==> reservation_stations::operands_ready(s2.rs[k])) by {
            if k < s.rs.len() { assert(s2.rs[k] == s.rs[k]); }
        }
    }
}

/// Completing a live entry changes that entry only.
pub proof fn lemma_rob_complete_facts(s: OooState, s1: OooState, t: int, v: u32)
    requires
        0 <= s.rob_head < s.rob_cap,
        rob_live(s, t),
        s1.rob == rob_complete(s, t, v),
        s1.rob_head == s.rob_head,
        s1.rob_cap == s.rob_cap,
    ensures
        forall|u: int| #[trigger] rob_live(s1, u) == rob_live(s, u),
        forall|u: int| rob_live(s, u) && u != t ==> #[trigger] rob_entry(s1, u) == rob_entry(s, u),
        rob_entry(s1, t) == (SROBEntry { result: Some(v), ready: true, ..rob_entry(s, t) }),
        forall|j: int| 0 <= j < s.rob.len() ==> (#[trigger] s1.rob[j]).rd == s.rob[j].rd
            && s1.rob[j].format == s.rob[j].format,
        s1.rob.len() == s.rob.len(),
{
    let n = s.rob_cap as int;
    let h = s.rob_head;
    let o = ring_offset(h, t, n);
    assert forall|u: int| rob_live(s, u) && u != t implies #[trigger] rob_entry(s1, u) == rob_entry(s, u) by {
        crate::circular_buffer::lemma_ring_offset(h, u, o, n);
        crate::circular_buffer::lemma_ring_offset(h, t, o, n);
    }
}

/// The ALU's in-flight tags after a tick: the completed one leaves.
pub proof fn lemma_after_tick_tags(a: Seq<InstructionProgress<InstrFormat>>)
    ensures
        spec_selected(a) matches Some(k) ==> alu_tags(spec_after_tick(a)).to_multiset()
            == alu_tags(a).to_multiset().remove(a[k].spec_instruction().rob_tag),
        spec_selected(a) is None ==> alu_tags(spec_after_tick(a)).to_multiset() == alu_tags(a).to_multiset(),
        forall|j: int| 0 <= j < spec_after_tick(a).len() ==> exists|i: int| 0 <= i < a.len()
            && (#[trigger] spec_after_tick(a)[j]).spec_instruction() == a[i].spec_instruction(),
{
    broadcast use vstd::seq_lib::group_to_multiset_ensures;
    lemma_scan_bounds(a, a.len());
    let aged = crate::alu::spec_all_aged(a);
    assert forall|j: int| 0 <= j < aged.len() implies #[trigger] aged[j].spec_instruction() == a[j].spec_instruction() by {
        lemma_aged(a[j]);
    }
    assert(alu_tags(aged) =~= alu_tags(a));
    match spec_selected(a) {
        Some(k) => {
            assert(alu_tags(aged.remove(k)) =~= alu_tags(aged).remove(k));
            assert forall|j: int| 0 <= j < spec_after_tick(a).len() implies exists|i: int| 0 <= i < a.len()
                && (#[trigger] spec_after_tick(a)[j]).spec_instruction() == a[i].spec_instruction() by {
                if j < k { assert(spec_after_tick(a)[j] == aged[j]); } else { assert(spec_after_tick(a)[j] == aged[j + 1]); }
            }
        },
        None => {
            assert forall|j: int| 0 <= j < spec_after_tick(a).len() implies exists|i: int| 0 <= i < a.len()
                && (#[trigger] spec_after_tick(a)[j]).spec_instruction() == a[i].spec_instruction() by {
                assert(spec_after_tick(a)[j] == aged[j]);
            }
        },
    }
}

/// Dispatching keeps the pending tags and the invariants.
pub proof fn lemma_dispatch_inv(s: OooState)
    requires
        ooo_inv(s),
    ensures
        pending_tags(spec_dispatched(s)) == pending_tags(s),
        ({
            let s1 = spec_dispatched(s);
            &&& forall|k: int| 0 <= k < s1.alu.len() ==> (#[trigger] s1.alu[k]).spec_instruction().instr.pc + 4 <= s.mem.len()
                && s1.alu[k].spec_instruction().inputs_available()
            &&& forall|k: int| 0 <= k < s1.rs.len() ==> (#[trigger] s1.rs[k]).pc + 4 <= s.mem.len()
                && (s1.rs[k].ready <==> reservation_stations::operands_ready(s1.rs[k]))
            &&& s1.alu_usage.len() == 3
        }),
{
    broadcast use vstd::seq_lib::group_to_multiset_ensures;
    let (rs1, sel) = spec_dispatch_from(s.rs, 0, s.rs.len(), ooo_pipe_kinds(), s.alu_usage);
    reservation_stations::lemma_dispatch_from(s.rs, 0, s.rs.len(), ooo_pipe_kinds(), s.alu_usage);
    let s1 = spec_dispatched(s);
    assert forall|k: int| 0 <= k < s1.rs.len() implies (#[trigger] s1.rs[k]).pc + 4 <= s.mem.len()
        && (s1.rs[k].ready <==> reservation_stations::operands_ready(s1.rs[k])) by {
        assert(s.rs.contains(s1.rs[k]));
    }
    match sel {
        Some((e, p)) => {
            let np = spec_new_progress(InstrFormat { rob_tag: e.rob_tag, instr: e }, p);
            lemma_new_progress(InstrFormat { rob_tag: e.rob_tag, instr: e }, p);
            assert(alu_tags(s1.alu) =~= alu_tags(s.alu).push(e.rob_tag));
            assert(rs_tags(s1.rs).to_multiset().insert(e.rob_tag) == rs_tags(s.rs).to_multiset());
            assert(pending_tags(s1) =~= pending_tags(s));
            assert forall|k: int| 0 <= k < s1.alu.len() implies (#[trigger] s1.alu[k]).spec_instruction().instr.pc + 4 <= s.mem.len()
                && s1.alu[k].spec_instruction().inputs_available() by {
                if k < s.alu.len() {
                    assert(s1.alu[k] == s.alu[k]);
                }
            }
            crate::alu::lemma_first_free_bounds(ooo_pipe_kinds(), s.alu_usage, e.opcode, s.alu_usage.len());
        },
        None => {
            assert(pending_tags(s1) =~= pending_tags(s));
        },
    }
}

/// Broadcasting a result keeps the station's tags, pcs and readiness rule.
pub proof fn lemma_update_rs(rs: Seq<SREntry>, t: usize, v: u32, n: nat)
    requires
        forall|k: int| 0 <= k < rs.len() ==> (#[trigger] rs[k]).pc + 4 <= n
            && (rs[k].ready <==> reservation_stations::operands_ready(rs[k])),
    ensures
        ({
            let rs2 = Seq::new(rs.len(), |i: int| spec_update_entry(rs[i], t, v));
            &&& rs_tags(rs2) == rs_tags(rs)
            &&& forall|k: int| 0 <= k < rs2.len() ==> (#[trigger] rs2[k]).pc + 4 <= n
                && (rs2[k].ready <==> reservation_stations::operands_ready(rs2[k]))
        }),
{
    let rs2 = Seq::new(rs.len(), |i: int| spec_update_entry(rs[i], t, v));
    assert(rs_tags(rs2) =~= rs_tags(rs));
}

/// Executing keeps the invariants: a completed non-load leaves the pending
/// tags as its entry completes; a completed load stays pending on its way to
/// write-back.
#[verifier::rlimit(30)]
pub proof fn lemma_execute_inv(s: OooState)
    requires
        ooo_inv(s),
        s.alu_mem_staged is None,
    ensures
        ooo_inv(spec_execute(s)),
{
    broadcast use vstd::seq_lib::group_to_multiset_ensures;
    let s1 = spec_dispatched(s);
    lemma_dispatch_inv(s);
    lemma_execute_ready(s, s1);
    let (rs1, sel) = spec_dispatch_from(s.rs, 0, s.rs.len(), ooo_pipe_kinds(), s.alu_usage);
    let a = s1.alu;
    let issued = sel is Some;
    match sel {
        Some((e, p)) => {
            lemma_new_progress(InstrFormat { rob_tag: e.rob_tag, instr: e }, p);
            assert(a.drop_last() =~= s.alu);
        },
        None => {
            assert(a =~= s.alu);
        },
    }
    lemma_single_issue(a, issued);
    lemma_after_tick_tags(a);
    let s2 = spec_execute(s);
    assert(s2.alu == spec_after_tick(a));
    assert forall|k: int| 0 <= k < s2.alu.len() implies (#[trigger] s2.alu[k]).spec_instruction().instr.pc + 4 <= s2.mem.len()
        && s2.alu[k].spec_instruction().inputs_available() by {
        let i = choose|i: int| 0 <= i < a.len() && s2.alu[k].spec_instruction() == a[i].spec_instruction();
        assert(a[i].spec_instruction().instr.pc + 4 <= s.mem.len());
    }
    match spec_selected(a) {
        None => {
            assert(pending_tags(s2) =~= pending_tags(s1));
        },
        Some(k) => {
            let p = a[k];
            let instr = p.spec_instruction();
            let t = instr.rob_tag;
            let load = spec_is_load(instr.instr.opcode);
            crate::alu::lemma_first_free_bounds(ooo_pipe_kinds(), s.alu_usage, instr.instr.opcode, 3);
            assert(alu_tags(a)[0] == t);
            assert(alu_tags(a).contains(t));
            lemma_pending_parts(s1, t);
            if load {
                assert(pending_tags(s2) =~= pending_tags(s1));
            } else {
                lemma_update_rs(rs1, t, spec_compute(instr.spec_opcode(), instr.spec_inputs()), s.mem.len());
                lemma_rob_complete_facts(s1, s2, t as int, spec_compute(instr.spec_opcode(), instr.spec_inputs()));
                assert(pending_tags(s2) =~= pending_tags(s1).remove(t));
                assert forall|u: usize| #[trigger] pending_tags(s2).count(u) > 0
                    implies rob_live(s2, u as int) && !rob_entry(s2, u as int).ready by {
                    assert(u != t);
                    assert(pending_tags(s1).count(u) > 0);
                }
                assert forall|r: int| 0 <= r < 32 implies (#[trigger] s2.rat[r] matches Some(u) ==> {
                    &&& rob_live(s2, u as int)
                    &&& rob_entry(s2, u as int).rd == r
                    &&& r != 0
                    &&& spec_writes_rd(rob_entry(s2, u as int).format)
                }) by {
                    assert(s2.rat[r] == s1.rat[r]);
                }
                assert forall|j: int| 0 <= j < s2.rob.len() implies ((#[trigger] s2.rob[j]).ready <==> s2.rob[j].result is Some)
                    && s2.rob[j].rd < 32 by {
                    assert(s.rob[j].rd < 32);
                    if j != ring_offset(s.rob_head, t as int, s.rob_cap as int) {
                        assert(s2.rob[j] == s.rob[j]);
                    }
                }
            }
        },
    }
}

/// The memory stage keeps the invariants: the instruction moves on unchanged
/// but for its value, and memory keeps its size.
pub proof fn lemma_memory_inv(s: OooState)
    requires
        ooo_inv(s),
        s.mem_rob_release_staged is None,
        s.alu_mem matches Some(i) ==> (spec_access_width(i.instr.opcode) > 0 ==> i.result + spec_access_width(
            i.instr.opcode) <= s.mem.len()),
    ensures
        ooo_inv(spec_memory(s)),
{
    let s2 = spec_memory(s);
    if let Some(i) = s.alu_mem {
        let a = i.result as int;
        let data = i.instr.rs2->Ready_0;
        assert(s2.mem.len() == s.mem.len());
        assert(pending_tags(s2) =~= pending_tags(s));
    }
}

/// Write-back keeps the invariants: the load leaves the pending tags as its
/// entry completes.
pub proof fn lemma_writeback_inv(s: OooState)
    requires
        ooo_inv(s),
    ensures
        ooo_inv(spec_writeback(s)),
{
    broadcast use vstd::seq_lib::group_to_multiset_ensures;
    let s2 = spec_writeback(s);
    if let Some(i) = s.mem_rob_release {
        if spec_is_load(i.instr.opcode) {
            let t = i.rob_tag;
            lemma_pending_parts(s, t);
            lemma_update_rs(s.rs, t, i.result, s.mem.len());
            lemma_rob_complete_facts(s, s2, t as int, i.result);
            assert(pending_tags(s2) =~= pending_tags(s).remove(t));
            assert forall|u: usize| #[trigger] pending_tags(s2).count(u) > 0
                implies rob_live(s2, u as int) && !rob_entry(s2, u as int).ready by {
                assert(u != t);
                assert(pending_tags(s).count(u) > 0);
            }
            assert forall|r: int| 0 <= r < 32 implies (#[trigger] s2.rat[r] matches Some(u) ==> {
                &&& rob_live(s2, u as int)
                &&& rob_entry(s2, u as int).rd == r
                &&& r != 0
                &&& spec_writes_rd(rob_entry(s2, u as int).format)
            }) by {
                assert(s2.rat[r] == s.rat[r]);
            }
            assert forall|j: int| 0 <= j < s2.rob.len() implies ((#[trigger] s2.rob[j]).ready <==> s2.rob[j].result is Some)
                && s2.rob[j].rd < 32 by {
                assert(s.rob[j].rd < 32);
                if j != ring_offset(s.rob_head, t as int, s.rob_cap as int) {
                    assert(s2.rob[j] == s.rob[j]);
                }
            }
        } else {
            assert(pending_tags(s2) =~= pending_tags(s));
        }
    }
}

/// Committing keeps the invariants: a complete head is not pending, and no
/// alias but the one it may clear names it.
pub proof fn lemma_commit_inv(s: OooState)
    requires
        ooo_inv(s),
    ensures
        ooo_inv(spec_commit(s)),
{
    let s2 = spec_commit(s);
    if s.rob.len() > 0 && s.rob[0].ready {
        let n = s.rob_cap as int;
        let h = s.rob_head;
        let l = s.rob.len() as int;
        let e = s.rob[0];
        lemma_ring_pop(h, n, l, h);
        assert(rob_live(s, h));
        assert(rob_entry(s, h) == e);
        assert(pending_tags(s2) == pending_tags(s));
        assert forall|u: int| #[trigger] rob_live(s2, u) == (rob_live(s, u) && u != h) by {
            if 0 <= u < n { lemma_ring_pop(h, n, l, u); }
        }
        assert forall|u: int| rob_live(s, u) && u != h implies #[trigger] rob_entry(s2, u) == rob_entry(s, u) by {
            lemma_ring_pop(h, n, l, u);
        }
        assert forall|u: usize| #[trigger] pending_tags(s2).count(u) > 0
            implies rob_live(s2, u as int) && !rob_entry(s2, u as int).ready by {
            assert(pending_tags(s).count(u) > 0);
            assert(rob_live(s, u as int) && !rob_entry(s, u as int).ready);
            assert(u as int != h);
        }
        assert forall|r: int| 0 <= r < 32 implies (#[trigger] s2.rat[r] matches Some(u) ==> {
            &&& rob_live(s2, u as int)
            &&& rob_entry(s2, u as int).rd == r
            &&& r != 0
            &&& spec_writes_rd(rob_entry(s2, u as int).format)
        }) by {
            if let Some(u) = s2.rat[r] {
                assert(s.rat[r] == Some(u));
                assert(rob_live(s, u as int));
                if u as int == h {
                    assert(rob_entry(s, u as int).rd == r);
                    assert(false);
                }
            }
        }
        assert forall|j: int| 0 <= j < s2.rob.len() implies ((#[trigger] s2.rob[j]).ready <==> s2.rob[j].result is Some)
            && s2.rob[j].rd < 32 by {
            assert(s2.rob[j] == s.rob[j + 1]);
        }
        assert(0 <= (h + 1) % n < n) by (nonlinear_arith) requires 0 <= h < n;
    }
}

/// Advancing the pipeline registers keeps the invariants.
pub proof fn lemma_advance_inv(s: OooState)
    requires
        ooo_inv(s),
        s.alu_mem is None,
        s.mem_rob_release is None,
    ensures
        ooo_inv(spec_advance(s)),
        spec_advance(s).id_rs_staged is None,
        spec_advance(s).alu_mem_staged is None,
        spec_advance(s).mem_rob_release_staged is None,
{
    assert(pending_tags(spec_advance(s)) =~= pending_tags(s));
}

pub struct SimpleOOO {
    mem: Vec<u8>,
    pub regs: [u32; 32],
    // Register Alias Table: rat[r] = Some(tag) means register r's current value
    // is being produced by the instruction with that ROB tag, and has not yet
    // committed. None means the register file holds the current value.
    rat: [Option<usize>; 32],
    pc: u32,
    // When a branch or jump is issued the frontend stalls until the ALU has
    // computed the true next pc, so no speculative instructions enter the pipeline.
    branch_stall: bool,
    if_id: Latch<IfId>,
    id_rs: Latch<IdRs>,
    reservation_station: SimpleReservationStation,
    reorder_buffer: SimpleReorderBuffer,
    alu: OOOALU,
    alu_mem: Latch<ResultFormat>,
    mem_rob_release: Latch<ResultFormat>,
}

impl SimpleOOO {
    pub closed spec fn view(&self) -> OooState {
        OooState {
            mem: self.mem@,
            regs: self.regs@,
            rat: self.rat@,
            pc: self.pc,
            branch_stall: self.branch_stall,
            if_id: self.if_id.active(),
            if_id_staged: self.if_id.staged(),
            id_rs: self.id_rs.active(),
            id_rs_staged: self.id_rs.staged(),
            rs: self.reservation_station.entries(),
            rs_cap: self.reservation_station.spec_num_stations(),
            rob: self.reorder_buffer.entries(),
            rob_head: self.reorder_buffer.head(),
            rob_cap: self.reorder_buffer.capacity(),
            alu: self.alu.in_flight(),
            alu_usage: self.alu.usage(),
            alu_mem: self.alu_mem.active(),
            alu_mem_staged: self.alu_mem.staged(),
            mem_rob_release: self.mem_rob_release.active(),
            mem_rob_release_staged: self.mem_rob_release.staged(),
        }
    }

    /// The components are well formed and the data invariants hold.
    pub closed spec fn parts_wf(&self) -> bool {
        &&& self.reservation_station.wf()
        &&& self.reorder_buffer.wf()
        &&& self.alu.wf()
        &&& self.alu.pipe_kinds() == ooo_pipe_kinds()
        &&& ooo_inv(self@)
    }

    /// Between cycles: as within a cycle, with nothing staged but a fetch.
    pub open spec fn wf(&self) -> bool {
        &&& self.parts_wf()
        &&& self@.id_rs_staged is None
        &&& self@.alu_mem_staged is None
        &&& self@.mem_rob_release_staged is None
    }

    /// The register file has 32 registers.
    pub proof fn lemma_register_count(&self)
        ensures
            self@.regs.len() == 32,
    {
    }

    /// Copies `bytes` into memory at `addr`.
    pub fn load(&mut self, addr: usize, bytes: &[u8])
        requires
            old(self).wf(),
            addr + bytes@.len() <= old(self)@.mem.len(),
        ensures
            final(self).wf(),
            final(self)@ == (OooState { mem: spec_copy_in(old(self)@.mem, addr as int, bytes@), ..old(self)@ }),
    {
        let ghost s0 = self@;
        copy_in(&mut self.mem, addr, bytes);
        assert(pending_tags(self@) == pending_tags(s0));
    }

    fn fetch(&mut self) -> (r: IfId)
        requires
            old(self).pc + 4 <= old(self).mem@.len() <= u32::MAX,
        ensures
            r == (IfId { pc: old(self).pc, word: spec_read_u32(old(self).mem@, old(self).pc as int) }),
            final(self).pc == old(self).pc + 4,
            final(self).mem == old(self).mem,
            final(self).regs == old(self).regs,
            final(self).rat == old(self).rat,
            final(self).branch_stall == old(self).branch_stall,
            final(self).if_id == old(self).if_id,
            final(self).id_rs == old(self).id_rs,
            final(self).reservation_station == old(self).reservation_station,
            final(self).reorder_buffer == old(self).reorder_buffer,
            final(self).alu == old(self).alu,
            final(self).alu_mem == old(self).alu_mem,
            final(self).mem_rob_release == old(self).mem_rob_release,
    {
        let pc = self.pc as usize;
        let result = IfId { pc: self.pc, word: read_u32(&self.mem, pc) };
        self.pc = self.pc + 4;
        result
    }

    fn is_branch(opcode: Opcode) -> (r: bool)
        ensures
            r == spec_is_branch(opcode),
    {
        matches!(opcode, Opcode::Beq | Opcode::Bne | Opcode::Blt | Opcode::Bge | Opcode::Bltu
            | Opcode::Bgeu | Opcode::Jal | Opcode::Jalr)
    }

    fn is_load(opcode: Opcode) -> (r: bool)
        ensures
            r == spec_is_load(opcode),
    {
        matches!(opcode, Opcode::Lb | Opcode::Lh | Opcode::Lw | Opcode::Lbu | Opcode::Lhu)
    }

    // Only R, I, U, J instructions write a meaningful value to rd.
    // B-type and S-type encode immediates in bits[11:7], so that field must
    // not be treated as a destination register.
    fn writes_rd(format: Format) -> (r: bool)
        ensures
            r == spec_writes_rd(format),
    {
        matches!(format, Format::R | Format::I | Format::U | Format::J)
    }

    // Check the RAT to determine how to read a source register.
    // If the RAT maps this register to a ROB tag, the value is still
    // in-flight; the instruction must wait for that tag to be broadcast.
    // Otherwise the register file holds the current committed value.
    fn resolve_operands(&self, rs: u8) -> (r: Operand)
        requires
            self.reorder_buffer.wf(),
            rs < 32,
            self@.rat.len() == 32,
            self@.rat[rs as int] matches Some(t) ==> rob_live(self@, t as int),
        ensures
            r == spec_resolve(self@, rs),
    {
        match self.rat[rs as usize] {
            Some(rob_tag) => match self.reorder_buffer.is_tag_ready(rob_tag) {
                Some(val) => Operand::Ready(val),
                None => Operand::Waiting(rob_tag),
            },
            None => Operand::Ready(self.regs[rs as usize]),
        }
    }

    /// The components are well formed.
    pub closed spec fn parts_ok(&self) -> bool {
        &&& self.reservation_station.wf()
        &&& self.reorder_buffer.wf()
        &&& self.alu.wf()
        &&& self.alu.pipe_kinds() == ooo_pipe_kinds()
    }

    /// IF: fetch the next instruction word from memory, unless the frontend stalls.
    fn fetch_stage(&mut self, stall: bool)
        requires
            stall == spec_stall(old(self)@),
            !stall ==> old(self).pc + 4 <= old(self).mem@.len() <= u32::MAX,
            old(self).parts_ok(),
        ensures
            final(self)@ == spec_fetch(old(self)@),
            final(self).parts_ok(),
    {
        if !stall {
            let fetched = self.fetch();
            self.if_id.stage(fetched);
        }
    }

    /// ID: decode the fetched word; `true` when the word is zero, which ends
    /// the cycle.
    fn decode_stage(&mut self) -> (halted: bool)
        requires
            old(self)@.if_id matches Some(b) ==> (spec_decode(b.word) is Some || b.word == 0),
            old(self).parts_ok(),
        ensures
            (final(self)@, halted) == spec_decode_step(old(self)@),
            final(self).parts_ok(),
    {
        if let Some(buffer_state) = self.if_id.read() {
            let decoded = isa::decode(buffer_state.word);
            if let Some(instr) = decoded {
                self.id_rs.stage(IdRs { pc: buffer_state.pc, instr });
            } else {
                // a zero word ends the cycle; any other unrecognised word is
                // excluded by the precondition
                return true;
            }
        }
        false
    }

    /// IS: allocate a ROB entry, resolve operands via the RAT and enqueue the
    /// instruction into the reservation station. Operands already available
    /// come from the register file or a completed ROB entry; the others are
    /// tagged with the ROB entry that will produce them.
    fn issue_stage(&mut self)
        requires
            old(self).parts_ok(),
            ooo_inv(old(self)@),
            old(self)@.id_rs is Some ==> old(self)@.rob.len() < old(self)@.rob_cap
                && old(self)@.rs.len() < old(self)@.rs_cap,
        ensures
            final(self)@ == spec_issue(old(self)@),
            final(self).parts_ok(),
    {
        let ghost s0 = self@;
        if let Some(instr) = self.id_rs.read() {
            if Self::is_branch(instr.instr.opcode) {
                self.branch_stall = true;
            }
            let rob_tag = self.reorder_buffer.enqueue(&instr);
            let ghost s1 = self@;
            proof {
                assert forall|r: int| 0 <= r < 32 && s1.rat[r] is Some implies rob_live(s1, s1.rat[r]->0 as int) by {
                    let t = s1.rat[r]->0 as int;
                    assert(s0.rat[r] == s1.rat[r]);
                    lemma_ring_push(s0.rob_head, s0.rob_cap as int, s0.rob.len() as int, t);
                }
            }
            let rs1 = self.resolve_operands(instr.instr.rs1);
            let rs2 = self.resolve_operands(instr.instr.rs2);
            // Only update the RAT for instructions that actually write a result to rd.
            if Self::writes_rd(instr.instr.format) && instr.instr.rd != 0 {
                self.rat.set(instr.instr.rd as usize, Some(rob_tag));
            }
            self.reservation_station.enqueue(rob_tag, rs1, rs2, &instr);
        }
    }

    /// EX: dispatch a ready instruction to the ALU, then tick the ALU. A
    /// completed non-load broadcasts its result to the reservation station and
    /// completes its ROB entry right away; a load only has its address, so it
    /// waits for MEM. A completed branch sets the pc and lifts the branch stall.
    fn execute_stage(&mut self)
        requires
            old(self).parts_ok(),
            ooo_inv(old(self)@),
            old(self)@.alu_mem_staged is None,
        ensures
            final(self)@ == spec_execute(old(self)@),
            final(self).parts_ok(),
    {
        let ghost s0 = self@;
        self.reservation_station.dispatch(&mut self.alu);
        let ghost s1 = self@;
        proof {
            assert(s1 == spec_dispatched(s0));
            lemma_execute_ready(s0, s1);
            lemma_scan_bounds(s1.alu, s1.alu.len());
        }
        if let Some(res) = self.alu.tick() {
            if Self::is_branch(res.instr.opcode) {
                self.pc = next_pc(&res);
                self.branch_stall = false;
            }
            if !Self::is_load(res.instr.opcode) {
                self.reservation_station.update(res.rob_tag, res.result);
                self.reorder_buffer.update(res.rob_tag, res.result);
            }
            self.alu_mem.stage(res);
        }
    }

    /// MEM: perform the access of a load or store whose address the ALU computed.
    fn memory_stage(&mut self)
        requires
            old(self)@.mem_rob_release_staged is None,
            old(self)@.alu_mem matches Some(i)
                ==> (spec_access_width(i.instr.opcode) > 0 ==> i.result + spec_access_width(i.instr.opcode)
                <= old(self)@.mem.len()) && i.instr.rs2 is Ready,
            old(self).parts_ok(),
        ensures
            final(self)@ == spec_memory(old(self)@),
            final(self).parts_ok(),
    {
        if let Some(instr) = self.alu_mem.read() {
            let result = self.mem_stage(instr);
            self.mem_rob_release.stage(result);
        }
    }

    /// WB: a load's value is final now: broadcast it on the result bus, waking
    /// reservation-station entries waiting for it, and complete its ROB entry.
    fn writeback_stage(&mut self)
        requires
            old(self).parts_ok(),
            old(self)@.mem_rob_release matches Some(i) ==> (spec_is_load(i.instr.opcode) ==> rob_live(old(self)@, i.rob_tag as int)),
        ensures
            final(self)@ == spec_writeback(old(self)@),
            final(self).parts_ok(),
    {
        if let Some(instr) = self.mem_rob_release.read() {
            if Self::is_load(instr.instr.opcode) {
                self.reservation_station.update(instr.rob_tag, instr.result);
                self.reorder_buffer.update(instr.rob_tag, instr.result);
            }
        }
    }

    /// Commit: retire the head of the ROB if it is complete. Results reach the
    /// register file only here, in program order. The RAT entry is cleared
    /// only if it still names this instruction.
    fn commit_stage(&mut self)
        requires
            old(self).parts_ok(),
            old(self)@.rat.len() == 32,
            old(self)@.rob.len() > 0 ==> old(self)@.rob[0].rd < 32,
        ensures
            final(self)@ == spec_commit(old(self)@),
            final(self).parts_ok(),
    {
        if let Some(instr) = self.reorder_buffer.release() {
            let rd = instr.result.rd as usize;
            if Self::writes_rd(instr.result.format) && rd != 0 {
                if let Some(rat_tag) = self.rat[rd] {
                    if rat_tag == instr.rob_tag {
                        self.rat.set(rd, None);
                    }
                }
                self.regs.set(rd, instr.result.result);
            }
        }
    }

    /// The pipeline registers take their staged values.
    fn advance(&mut self)
        requires
            old(self).parts_ok(),
        ensures
            final(self)@ == spec_advance(old(self)@),
            final(self).parts_ok(),
    {
        self.if_id.update();
        self.id_rs.update();
        self.alu_mem.update();
        self.mem_rob_release.update();
    }

    /// Advances the CPU by one cycle:
    ///   IF → ID → IS (ROB entry, RAT, reservation station) → EX (ALU) → MEM → WB → Commit.
    /// A zero word in decode ends the cycle after decode.
    #[verifier::rlimit(30)]
    pub fn tick(&mut self)
        requires
            old(self).wf(),
            spec_ooo_tick_safe(old(self)@),
        ensures
            final(self).wf(),
            final(self)@ == spec_ooo_tick(old(self)@),
            old(self)@.regs[0] == 0 ==> final(self)@.regs[0] == 0,
    {
        let ghost s0 = self@;
        // Stall the frontend if the RS or ROB are full, or a branch is unresolved.
        let stall_frontend = self.reservation_station.stall() || self.reorder_buffer.stall()
            || self.branch_stall;
        proof { lemma_fetch_inv(s0); }
        self.fetch_stage(stall_frontend);
        let ghost s1 = self@;
        proof { lemma_decode_inv(s1); }
        let halted = self.decode_stage();
        if halted {
            return;
        }
        let ghost s2 = self@;
        proof { lemma_issue_inv(s2); }
        self.issue_stage();
        let ghost s3 = self@;
        proof { lemma_execute_inv(s3); }
        self.execute_stage();
        let ghost s4 = self@;
        proof { lemma_memory_inv(s4); }
        self.memory_stage();
        let ghost s5 = self@;
        proof {
            lemma_writeback_inv(s5);
            if let Some(i) = s5.mem_rob_release {
                if spec_is_load(i.instr.opcode) {
                    lemma_pending_parts(s5, i.rob_tag);
                }
            }
        }
        self.writeback_stage();
        let ghost s6 = self@;
        proof { lemma_commit_inv(s6); }
        self.commit_stage();
        let ghost s7 = self@;
        proof { lemma_advance_inv(s7); }
        self.advance();
    }

    /// Whether `tick` can run without a fault (see `spec_ooo_tick_safe`).
    pub fn can_tick(&self) -> (r: bool)
        requires
            self.wf(),
        ensures
            r == spec_ooo_tick_safe(self@),
    {
        let stall = self.reservation_station.stall() || self.reorder_buffer.stall() || self.branch_stall;
        if !stall && self.pc as u64 + 4 > self.mem.len() as u64 {
            return false;
        }
        let mut halted = false;
        if let Some(b) = self.if_id.peek() {
            match isa::decode(b.word) {
                Some(_) => {},
                None => {
                    if b.word != 0 {
                        return false;
                    }
                    halted = true;
                },
            }
        }
        if halted {
            return true;
        }
        if self.id_rs.peek().is_some() && (self.reorder_buffer.stall() || self.reservation_station.stall()) {
            return false;
        }
        match self.alu_mem.peek() {
            Some(i) => {
                let width: u64 = match i.instr.opcode {
                    Opcode::Lb | Opcode::Lbu | Opcode::Sb => 1,
                    Opcode::Lh | Opcode::Lhu | Opcode::Sh => 2,
                    Opcode::Lw | Opcode::Sw => 4,
                    _ => 0,
                };
                width == 0 || i.result as u64 + width <= self.mem.len() as u64
            },
            None => true,
        }
    }

    // Perform the memory access for load/store instructions.
    // The ALU has already computed the effective address and stored it in
    // `result`; a store's rs2 is ready by the time it gets here.
    // Non-memory instructions pass their ALU result through unchanged.
    fn mem_stage(&mut self, instr: ResultFormat) -> (r: ResultFormat)
        requires
            spec_access_width(instr.instr.opcode) > 0 ==> instr.result + spec_access_width(instr.instr.opcode)
                <= old(self).mem@.len(),
            instr.instr.rs2 is Ready,
        ensures
            ({
                let (mem, result) = spec_mem_access(old(self).mem@, instr);
                &&& final(self).mem@ == mem
                &&& r == (ResultFormat { result, ..instr })
            }),
            final(self).regs == old(self).regs,
            final(self).rat == old(self).rat,
            final(self).pc == old(self).pc,
            final(self).branch_stall == old(self).branch_stall,
            final(self).if_id == old(self).if_id,
            final(self).id_rs == old(self).id_rs,
            final(self).reservation_station == old(self).reservation_station,
            final(self).reorder_buffer == old(self).reorder_buffer,
            final(self).alu == old(self).alu,
            final(self).alu_mem == old(self).alu_mem,
            final(self).mem_rob_release == old(self).mem_rob_release,
    {
        let addr = instr.result as usize;
        let result = match instr.instr.opcode {
            Opcode::Lb => (self.mem[addr] as i8) as u32,
            Opcode::Lbu => self.mem[addr] as u32,
            Opcode::Lh => (read_u16(&self.mem, addr) as i16) as u32,
            Opcode::Lhu => read_u16(&self.mem, addr) as u32,
            Opcode::Lw => read_u32(&self.mem, addr),
            Opcode::Sb | Opcode::Sh | Opcode::Sw => {
                let data = match instr.instr.rs2 {
                    Operand::Ready(d) => d,
                    Operand::Waiting(_) => 0,
                };
                match instr.instr.opcode {
                    Opcode::Sb => self.mem.set(addr, (data & 0xff) as u8),
                    Opcode::Sh => write_le(&mut self.mem, addr, (data as u16) as u32, 2),
                    _ => write_le(&mut self.mem, addr, data, 4),
                }
                0
            },
            _ => instr.result,
        };
        ResultFormat { rob_tag: instr.rob_tag, instr: instr.instr, result }
    }
}

/// The CPU with 256 bytes of memory, an 8-entry reservation station, a
/// 16-entry reorder buffer and an integer, a load/store and a branch pipe.
pub fn build_default() -> (r: SimpleOOO)
    ensures
        r.wf(),
        r@ == (OooState {
            mem: Seq::new(256, |i: int| 0u8),
            regs: Seq::new(32, |i: int| 0u32),
            rat: Seq::new(32, |i: int| None::<usize>),
            pc: 0,
            branch_stall: false,
            if_id: None,
            if_id_staged: None,
            id_rs: None,
            id_rs_staged: None,
            rs: Seq::empty(),
            rs_cap: 8,
            rob: Seq::empty(),
            rob_head: 0,
            rob_cap: 16,
            alu: Seq::empty(),
            alu_usage: seq![false, false, false],
            alu_mem: None,
            alu_mem_staged: None,
            mem_rob_release: None,
            mem_rob_release_staged: None,
        }),
{
    let mut mem: Vec<u8> = Vec::new();
    let mut i: usize = 0;
    while i < 256
        invariant
            i <= 256,
            mem@ == Seq::new(i as nat, |j: int| 0u8),
        decreases 256 - i,
    {
        mem.push(0u8);
        i = i + 1;
        assert(mem@ =~= Seq::new(i as nat, |j: int| 0u8));
    }
    let p0 = AluPipe::new(vec![FuncUnitKind::IntAlu]);
    let p1 = AluPipe::new(vec![FuncUnitKind::LoadStore]);
    let p2 = AluPipe::new(vec![FuncUnitKind::Branch]);
    assert(p0.kinds() =~= seq![FuncUnitKind::IntAlu]);
    assert(p1.kinds() =~= seq![FuncUnitKind::LoadStore]);
    assert(p2.kinds() =~= seq![FuncUnitKind::Branch]);
    let pipes = vec![p0, p1, p2];
    assert(pipes@[0].kinds() == seq![FuncUnitKind::IntAlu]);
    assert(pipes@[1].kinds() == seq![FuncUnitKind::LoadStore]);
    assert(pipes@[2].kinds() == seq![FuncUnitKind::Branch]);
    let alu = OOOALU::new(pipes);
    let r = SimpleOOO {
        mem,
        regs: [0u32; 32],
        rat: [None; 32],
        pc: 0,
        branch_stall: false,
        if_id: Latch::new(),
        id_rs: Latch::new(),
        reservation_station: SimpleReservationStation::new(8),
        reorder_buffer: SimpleReorderBuffer::new(16),
        alu,
        alu_mem: Latch::new(),
        mem_rob_release: Latch::new(),
    };
    proof {
        assert(r@.regs =~= Seq::new(32, |i: int| 0u32));
        assert(r@.rat =~= Seq::new(32, |i: int| None::<usize>));
        assert(r.alu.pipe_kinds() =~= ooo_pipe_kinds());
        assert(r@.alu_usage =~= seq![false, false, false]);
        assert(rs_tags(r@.rs) =~= Seq::<usize>::empty());
        assert(alu_tags(r@.alu) =~= Seq::<usize>::empty());
        assert forall|t: usize| pending_tags(r@).count(t) == 0 by {
            assert(!rs_tags(r@.rs).contains(t));
            assert(!alu_tags(r@.alu).contains(t));
        }
        assert(pending_tags(r@) =~= Multiset::empty());
    }
    r
}


/// In a cycle the register file changes in at most one register, and never
/// in `x0`.
pub proof fn law_registers_change_only_at_retirement(s: OooState)
    ensures
        spec_ooo_tick(s).regs == s.regs || exists|rd: int, v: u32|
            0 < rd && #[trigger] spec_ooo_tick(s).regs == s.regs.update(rd, v),
{
    let (s2, halted) = spec_decode_step(spec_fetch(s));
    assert(s2.regs == s.regs);
    if !halted {
        let t = spec_writeback(spec_memory(spec_execute(spec_issue(s2))));
        assert(spec_issue(s2).regs == s.regs);
        assert(spec_execute(spec_issue(s2)).regs == s.regs);
        assert(spec_memory(spec_execute(spec_issue(s2))).regs == s.regs);
        assert(t.regs == s.regs);
        let c = spec_commit(t);
        assert(spec_advance(c).regs == c.regs);
        if t.rob.len() > 0 && t.rob[0].ready {
            let e = t.rob[0];
            let rd = e.rd as int;
            if spec_writes_rd(e.format) && rd != 0 {
                assert(c.regs == s.regs.update(rd, e.result->0));
                assert(spec_ooo_tick(s).regs == s.regs.update(rd, e.result->0));
            }
        }
    }
}

// ── Diagnostics ─────────────────────────────────────────────────────────────

/// The fetch-stage register as `{:?}` writes it.
pub open spec fn ooo_if_id_text(v: IfId) -> Seq<char> {
    "IfId { pc: "@ + dec_text(v.pc as nat) + ", word: "@ + dec_text(v.word as nat) + " }"@
}

/// The decode-stage register as `{:?}` writes it.
pub open spec fn id_rs_text(v: IdRs) -> Seq<char> {
    "IdRs { pc: "@ + dec_text(v.pc as nat) + ", instr: "@ + decoded_text(v.instr) + " }"@
}

/// A completed ALU operation as `{:?}` writes it.
pub open spec fn result_format_text(v: ResultFormat) -> Seq<char> {
    "ResultFormat { rob_tag: "@ + dec_text(v.rob_tag as nat) + ", instr: "@ + sr_entry_text(v.instr)
        + ", result: "@ + dec_text(v.result as nat) + " }"@
}

/// `true` or `false`.
pub open spec fn bool_text(b: bool) -> Seq<char> {
    if b { "true"@ } else { "false"@ }
}

/// The registers among the first `n` that wait for a reorder-buffer entry,
/// with the tag of that entry, in register order.
pub open spec fn rat_pairs(rat: Seq<Option<usize>>, n: nat) -> Seq<(nat, usize)>
    decreases n,
{
    if n == 0 {
        Seq::empty()
    } else {
        let earlier = rat_pairs(rat, (n - 1) as nat);
        match rat[n - 1] {
            Some(t) => earlier.push(((n - 1) as nat, t)),
            None => earlier,
        }
    }
}

/// `n` describes the register alias table: one leaf per register that waits
/// for an entry, or the single leaf `empty`.
pub open spec fn rat_diagnosis(n: DiagNode, rat: Seq<Option<usize>>) -> bool {
    let pairs = rat_pairs(rat, rat.len());
    if pairs.len() == 0 {
        leaf_is(n, "rat"@, "empty"@)
    } else {
        &&& n.label@ == "rat"@
        &&& n.value is None
        &&& n.children@.len() == pairs.len()
        &&& forall|i: int| 0 <= i < pairs.len() ==> leaf_is(
            #[trigger] n.children@[i],
            "x"@ + dec_text(pairs[i].0),
            "rob["@ + dec_text(pairs[i].1 as nat) + "]"@,
        )
    }
}

fn push_ooo_if_id(out: &mut Vec<char>, o: Option<IfId>)
    ensures
        final(out)@ == old(out)@ + option_text(match o { Some(v) => Some(ooo_if_id_text(v)), None => None }),
{
    let ghost start = out@;
    match o {
        Some(v) => {
            push_str(out, "Some(");
            push_str(out, "IfId { pc: ");
            push_dec(out, v.pc as u64);
            push_str(out, ", word: ");
            push_dec(out, v.word as u64);
            push_str(out, " }");
            push_str(out, ")");
        },
        None => push_str(out, "None"),
    }
    assert(out@ =~= start + option_text(match o { Some(v) => Some(ooo_if_id_text(v)), None => None }));
}

fn push_id_rs(out: &mut Vec<char>, o: Option<IdRs>)
    ensures
        final(out)@ == old(out)@ + option_text(match o { Some(v) => Some(id_rs_text(v)), None => None }),
{
    let ghost start = out@;
    match o {
        Some(v) => {
            push_str(out, "Some(");
            push_str(out, "IdRs { pc: ");
            push_dec(out, v.pc as u64);
            push_str(out, ", instr: ");
            push_decoded(out, &v.instr);
            push_str(out, " }");
            push_str(out, ")");
        },
        None => push_str(out, "None"),
    }
    assert(out@ =~= start + option_text(match o { Some(v) => Some(id_rs_text(v)), None => None }));
}

fn push_result_format(out: &mut Vec<char>, o: Option<ResultFormat>)
    ensures
        final(out)@ == old(out)@ + option_text(match o { Some(v) => Some(result_format_text(v)), None => None }),
{
    let ghost start = out@;
    match o {
        Some(v) => {
            push_str(out, "Some(");
            push_str(out, "ResultFormat { rob_tag: ");
            push_dec(out, v.rob_tag as u64);
            push_str(out, ", instr: ");
            push_sr_entry(out, &v.instr);
            push_str(out, ", result: ");
            push_dec(out, v.result as u64);
            push_str(out, " }");
            push_str(out, ")");
        },
        None => push_str(out, "None"),
    }
    assert(out@ =~= start + option_text(match o { Some(v) => Some(result_format_text(v)), None => None }));
}

fn push_bool(out: &mut Vec<char>, b: bool)
    ensures
        final(out)@ == old(out)@ + bool_text(b),
{
    if b {
        push_str(out, "true");
    } else {
        push_str(out, "false");
    }
}

/// A leaf `label: value` with the label written from a literal.
fn text_leaf(label: &str, value: &Vec<char>) -> (r: DiagNode)
    ensures
        leaf_is(r, label@, value@),
{
    let mut l: Vec<char> = Vec::new();
    push_str(&mut l, label);
    assert(l@ =~= label@);
    leaf_of(&l, value)
}

impl SimpleOOO {
    pub closed spec fn alu_unit(&self) -> OOOALU {
        self.alu
    }

    pub closed spec fn station(&self) -> SimpleReservationStation {
        self.reservation_station
    }

    pub closed spec fn rob(&self) -> SimpleReorderBuffer {
        self.reorder_buffer
    }

    /// `n` describes this CPU: its pc, whether the frontend stalls, what each
    /// pipeline register holds, the register alias table, the ALU, the
    /// reservation station and the reorder buffer.
    pub open spec fn diagnosis(&self, n: DiagNode) -> bool {
        let s = self@;
        &&& n.label@ == "simple_ooo"@
        &&& n.value is None
        &&& n.children@.len() == 11
        &&& leaf_is(n.children@[0], "pc"@, hex8_text(s.pc))
        &&& leaf_is(n.children@[1], "stall"@, bool_text(spec_stall(s)))
        &&& leaf_is(n.children@[2], "branch_stall"@, bool_text(s.branch_stall))
        &&& leaf_is(n.children@[3], "if_id"@, option_text(match s.if_id { Some(v) => Some(ooo_if_id_text(v)), None => None }))
        &&& leaf_is(n.children@[4], "id_rs"@, option_text(match s.id_rs { Some(v) => Some(id_rs_text(v)), None => None }))
        &&& leaf_is(n.children@[5], "alu_mem"@, option_text(match s.alu_mem { Some(v) => Some(result_format_text(v)), None => None }))
        &&& leaf_is(n.children@[6], "mem_rob_release"@, option_text(match s.mem_rob_release { Some(v) => Some(result_format_text(v)), None => None }))
        &&& rat_diagnosis(n.children@[7], s.rat)
        &&& self.alu_unit().diagnosis(n.children@[8])
        &&& self.station().diagnosis(n.children@[9])
        &&& self.rob().diagnosis(n.children@[10])
    }

    fn rat_node(&self) -> (r: DiagNode)
        ensures
            rat_diagnosis(r, self@.rat),
    {
        let ghost rat = self@.rat;
        let mut entries: Vec<DiagNode> = Vec::new();
        let mut r: usize = 0;
        while r < 32
            invariant
                rat == self@.rat,
                rat.len() == 32,
                r <= 32,
                entries@.len() == rat_pairs(rat, r as nat).len(),
                forall|i: int| 0 <= i < entries@.len() ==> leaf_is(
                    #[trigger] entries@[i],
                    "x"@ + dec_text(rat_pairs(rat, r as nat)[i].0),
                    "rob["@ + dec_text(rat_pairs(rat, r as nat)[i].1 as nat) + "]"@,
                ),
            decreases 32 - r,
        {
            let ghost before = rat_pairs(rat, r as nat);
            if let Some(tag) = self.rat[r] {
                let mut label: Vec<char> = Vec::new();
                push_str(&mut label, "x");
                push_dec(&mut label, r as u64);
                let mut val: Vec<char> = Vec::new();
                push_str(&mut val, "rob[");
                push_dec(&mut val, tag as u64);
                push_str(&mut val, "]");
                entries.push(leaf_of(&label, &val));
                assert(rat_pairs(rat, (r + 1) as nat) == before.push((r as nat, tag)));
            } else {
                assert(rat_pairs(rat, (r + 1) as nat) == before);
            }
            r = r + 1;
        }
        assert(rat.len() == 32);
        if entries.len() == 0 {
            let mut val: Vec<char> = Vec::new();
            push_str(&mut val, "empty");
            text_leaf("rat", &val)
        } else {
            let mut label: Vec<char> = Vec::new();
            push_str(&mut label, "rat");
            inner_of(&label, entries)
        }
    }
}

impl Diagnosable for SimpleOOO {
    open spec fn diagnosable(&self) -> bool {
        self.parts_ok()
    }

    fn diagnose(&self) -> (r: DiagNode)
        ensures
            self.diagnosis(r),
    {
        let stall = self.reservation_station.stall() || self.reorder_buffer.stall() || self.branch_stall;
        let mut children: Vec<DiagNode> = Vec::new();
        let mut val: Vec<char> = Vec::new();
        push_hex8(&mut val, self.pc);
        children.push(text_leaf("pc", &val));
        let mut val: Vec<char> = Vec::new();
        push_bool(&mut val, stall);
        children.push(text_leaf("stall", &val));
        let mut val: Vec<char> = Vec::new();
        push_bool(&mut val, self.branch_stall);
        children.push(text_leaf("branch_stall", &val));
        let mut val: Vec<char> = Vec::new();
        push_ooo_if_id(&mut val, self.if_id.peek());
        children.push(text_leaf("if_id", &val));
        let mut val: Vec<char> = Vec::new();
        push_id_rs(&mut val, self.id_rs.peek());
        children.push(text_leaf("id_rs", &val));
        let mut val: Vec<char> = Vec::new();
        push_result_format(&mut val, self.alu_mem.peek());
        children.push(text_leaf("alu_mem", &val));
        let mut val: Vec<char> = Vec::new();
        push_result_format(&mut val, self.mem_rob_release.peek());
        children.push(text_leaf("mem_rob_release", &val));
        children.push(self.rat_node());
        children.push(self.alu.diagnose());
        children.push(self.reservation_station.diagnose());
        children.push(self.reorder_buffer.diagnose());
        let mut root: Vec<char> = Vec::new();
        push_str(&mut root, "simple_ooo");
        inner_of(&root, children)
    }
}

} // verus!
