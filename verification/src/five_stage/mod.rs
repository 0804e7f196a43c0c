//! The in-order five-stage pipeline (IF, ID, EX, MEM, WB).
//!
//! Each inter-stage register is a `Latch`, which enforces the two-phase
//! (stage then update) discipline of real pipeline registers: a stage's
//! output is only visible to the next stage on the following cycle.
pub mod forwarding;
pub mod hazard;
pub mod stages;

use vstd::prelude::*;
use crate::isa::{self, Opcode, InstrFormat, DecodedInstr, spec_decode};
use crate::alu::{
    spec_pipe_supports, spec_kind_supports,
    ALU, AluPipe, ExecInputs, FuncUnitKind, OpaqueInstruction, OpaqueResult, InstructionProgress,
    spec_first_free_pipe, spec_new_progress, spec_selected, spec_after_tick, spec_compute,
    settled, lemma_single_issue, lemma_new_progress, lemma_aged, spec_all_aged, lemma_scan_bounds,
};
use crate::latch::Latch;
use crate::utils::le_bytes::{
    read_u16, read_u32, write_le, copy_in, spec_read_u16, spec_read_u32, spec_write_le, spec_copy_in,
};
use stages::{
    ex_mem_text, id_ex_text, if_id_text, mem_wb_text, push_ex_mem, push_id_ex, push_if_id, push_mem_wb,
    ExMem, IdEx, IfId, MemWb,
};
use crate::diag::{inner_of, leaf_is, leaf_of, DiagNode, Diagnosable};
use crate::utils::text::{dec_text, hex8_text, option_text, push_dec, push_hex8, push_str};
use hazard::HazardPolicy;
use forwarding::ForwardingPolicy;

verus! {

/// A decoded instruction as it travels through the generic ALU.
pub struct FiveStageInstr(pub IdEx);

/// What the ALU hands back: the execute-stage register value.
pub struct FiveStageResult {
    pub ex_mem: ExMem,
}

impl OpaqueInstruction for FiveStageInstr {
    open spec fn spec_opcode(&self) -> Opcode {
        self.0.instr.opcode
    }

    open spec fn inputs_available(&self) -> bool {
        true
    }

    open spec fn spec_inputs(&self) -> ExecInputs {
        ExecInputs { pc: self.0.pc, rs1: self.0.rs1, rs2: self.0.rs2, imm: self.0.instr.imm }
    }

    fn get_opcode(&self) -> (r: Opcode) {
        self.0.instr.opcode
    }

    fn get_inputs(&self) -> (r: ExecInputs) {
        ExecInputs { pc: self.0.pc, rs1: self.0.rs1, rs2: self.0.rs2, imm: self.0.instr.imm }
    }
}

impl OpaqueResult<FiveStageInstr> for FiveStageResult {
    open spec fn spec_from_instr_and_result(instr: FiveStageInstr, result: u32) -> Self {
        FiveStageResult { ex_mem: ExMem { instr: instr.0.instr, result, rs2: instr.0.rs2 } }
    }

    fn from_instr_and_result(instr: FiveStageInstr, result: u32) -> (r: Self) {
        FiveStageResult { ex_mem: ExMem { instr: instr.0.instr, result, rs2: instr.0.rs2 } }
    }
}

pub type FiveALU = ALU<FiveStageInstr, FiveStageResult>;

/// The pipes of the pipeline's ALU: two, each running every operation, so
/// that an instruction issued while the previous one completes finds a pipe.
pub open spec fn five_stage_pipe_kinds() -> Seq<Seq<FuncUnitKind>> {
    seq![
        seq![FuncUnitKind::IntAlu, FuncUnitKind::LoadStore, FuncUnitKind::Branch],
        seq![FuncUnitKind::IntAlu, FuncUnitKind::LoadStore, FuncUnitKind::Branch],
    ]
}

/// Each pipe of the pipeline's ALU runs every operation.
proof fn lemma_pipes_run_everything(op: Opcode)
    ensures
        spec_pipe_supports(five_stage_pipe_kinds()[0], op),
        spec_pipe_supports(five_stage_pipe_kinds()[1], op),
{
    let k = five_stage_pipe_kinds()[0];
    assert(k == five_stage_pipe_kinds()[1]);
    assert(k[0] == FuncUnitKind::IntAlu && k[1] == FuncUnitKind::LoadStore && k[2] == FuncUnitKind::Branch);
    if spec_kind_supports(k[0], op) {
    } else if spec_kind_supports(k[1], op) {
    } else {
        assert(spec_kind_supports(k[2], op));
    }
}

/// The busy pipes are exactly those of the instructions in flight (at most one).
pub open spec fn pipes_track(alu: Seq<InstructionProgress<FiveStageInstr>>, usage: Seq<bool>) -> bool {
    &&& usage.len() == 2
    &&& alu.len() == 1 ==> alu[0].spec_pipe() < 2
    &&& forall|p: int| 0 <= p < 2 ==> (#[trigger] usage[p] <==> (alu.len() == 1 && alu[0].spec_pipe() == p))
}

fn default_alu() -> (r: FiveALU)
    ensures
        r.wf(),
        r.pipe_kinds() == five_stage_pipe_kinds(),
        r.in_flight() == Seq::<InstructionProgress<FiveStageInstr>>::empty(),
        r.usage() == seq![false, false],
{
    let r = FiveALU::new(vec![
        AluPipe::new(vec![FuncUnitKind::IntAlu, FuncUnitKind::LoadStore, FuncUnitKind::Branch]),
        AluPipe::new(vec![FuncUnitKind::IntAlu, FuncUnitKind::LoadStore, FuncUnitKind::Branch]),
    ]);
    assert(r.pipe_kinds() =~= five_stage_pipe_kinds());
    assert(r.usage() =~= seq![false, false]);
    r
}

/// A store to memory, as the MEM stage computes it.
pub enum MemWrite {
    Byte(u32, u8),
    Half(u32, u16),
    Word(u32, u32),
}

/// The number of bytes a load or store accesses; 0 for other operations.
pub open spec fn access_width(op: Opcode) -> int {
    match op {
        Opcode::Lb | Opcode::Lbu | Opcode::Sb => 1,
        Opcode::Lh | Opcode::Lhu | Opcode::Sh => 2,
        Opcode::Lw | Opcode::Sw => 4,
        _ => 0,
    }
}

/// The MEM stage's value and store for an execute-stage result: loads read
/// (sign- or zero-extended) at the computed address, stores write the low
/// bytes of rs2 there, everything else passes its result through.
pub open spec fn spec_compute_memory(mem: Seq<u8>, l: ExMem) -> (u32, Option<MemWrite>) {
    let a = l.result as int;
    match l.instr.opcode {
        Opcode::Lb => (mem[a] as i8 as i32 as u32, None),
        Opcode::Lbu => (mem[a] as u32, None),
        Opcode::Lh => (spec_read_u16(mem, a) as i16 as i32 as u32, None),
        Opcode::Lhu => (spec_read_u16(mem, a) as u32, None),
        Opcode::Lw => (spec_read_u32(mem, a), None),
        Opcode::Sb => (0, Some(MemWrite::Byte(l.result, l.rs2 as u8))),
        Opcode::Sh => (0, Some(MemWrite::Half(l.result, l.rs2 as u16))),
        Opcode::Sw => (0, Some(MemWrite::Word(l.result, l.rs2))),
        _ => (l.result, None),
    }
}

/// The loads of the MEM stage: `lb` and `lh` sign-extend the byte or the
/// little-endian halfword at the address (a value with its top bit set gets
/// all upper bits set), `lbu` and `lhu` zero-extend it, and `lw` reads the
/// little-endian word.
pub proof fn law_load_values(mem: Seq<u8>, l: ExMem)
    requires
        l.result as int + 4 <= mem.len(),
    ensures
        ({
            let a = l.result as int;
            let b = mem[a] as int;
            let h = mem[a] as int + 256 * mem[a + 1] as int;
            let value = |op: Opcode| spec_compute_memory(mem, ExMem { instr: DecodedInstr { opcode: op, ..l.instr }, ..l }).0 as int;
            &&& value(Opcode::Lb) == if b < 0x80 { b } else { b + 0xFFFF_FF00 }
            &&& value(Opcode::Lbu) == b
            &&& value(Opcode::Lh) == if h < 0x8000 { h } else { h + 0xFFFF_0000 }
            &&& value(Opcode::Lhu) == h
            &&& value(Opcode::Lw) == h + 65536 * mem[a + 2] as int + 16777216 * mem[a + 3] as int
        }),
{
    let a = l.result as int;
    let x = mem[a];
    let hv = spec_read_u16(mem, a);
    crate::utils::le_bytes::lemma_width_bits(x, hv, 0);
    assert(hv as int == mem[a] as int + 256 * mem[a + 1] as int);
}

/// Memory after a store.
pub open spec fn spec_apply_write(mem: Seq<u8>, w: MemWrite) -> Seq<u8> {
    match w {
        MemWrite::Byte(addr, val) => mem.update(addr as int, val),
        MemWrite::Half(addr, val) => spec_write_le(mem, addr as int, val as u32, 2),
        MemWrite::Word(addr, val) => spec_write_le(mem, addr as int, val, 4),
    }
}

/// The memory a store in the MEM stage leaves: `sb`, `sh` and `sw` write the
/// low one, two or four bytes of rs2 at the address, least significant first,
/// and leave every other byte as it was.
pub proof fn law_store_effects(mem: Seq<u8>, l: ExMem)
    requires
        l.result as int + 4 <= mem.len(),
    ensures
        ({
            let a = l.result as int;
            let v = l.rs2 as int;
            let after = |op: Opcode| match spec_compute_memory(mem, ExMem { instr: DecodedInstr { opcode: op, ..l.instr }, ..l }).1 {
                Some(w) => spec_apply_write(mem, w),
                None => mem,
            };
            &&& forall|j: int| 0 <= j < mem.len() ==> #[trigger] after(Opcode::Sb)[j]
                == if j == a { (v % 256) as u8 } else { mem[j] }
            &&& forall|j: int| 0 <= j < mem.len() ==> #[trigger] after(Opcode::Sh)[j]
                == if j == a { (v % 256) as u8 } else if j == a + 1 { ((v / 256) % 256) as u8 } else { mem[j] }
            &&& forall|j: int| 0 <= j < mem.len() ==> #[trigger] after(Opcode::Sw)[j]
                == if j == a { (v % 256) as u8 } else if j == a + 1 { ((v / 256) % 256) as u8 }
                else if j == a + 2 { ((v / 65536) % 256) as u8 } else if j == a + 3 { (v / 16777216) as u8 }
                else { mem[j] }
            &&& after(Opcode::Sb).len() == mem.len() && after(Opcode::Sh).len() == mem.len()
            &&& after(Opcode::Sw).len() == mem.len()
        }),
{
    let x = l.rs2;
    crate::utils::le_bytes::lemma_width_bits(0, 0, x);
    let h = x as u16;
    assert(h as int % 256 == x as int % 256) by (nonlinear_arith) requires h as int == x as int % 65536;
    assert((h as int / 256) % 256 == (x as int / 256) % 256) by (nonlinear_arith)
        requires h as int == x as int % 65536, x >= 0;
    assert((x as int / 16777216) % 256 == x as int / 16777216) by (nonlinear_arith) requires 0 <= x < 0x1_0000_0000;
    assert(crate::utils::le_bytes::pow256(0) == 1 && crate::utils::le_bytes::pow256(1) == 256
        && crate::utils::le_bytes::pow256(2) == 65536 && crate::utils::le_bytes::pow256(3) == 16777216);
}

/// Formats whose rd field names a destination register.
pub open spec fn writes_rd(format: InstrFormat) -> bool {
    matches!(format, InstrFormat::R | InstrFormat::I | InstrFormat::U | InstrFormat::J)
}

/// The register fields of a decoded instruction name registers.
pub open spec fn regs_in_range(d: DecodedInstr) -> bool {
    d.rd < 32 && d.rs1 < 32 && d.rs2 < 32
}

/// The state of the pipeline between cycles, as values.
pub struct FiveStageState {
    pub regs: Seq<u32>,
    pub mem: Seq<u8>,
    pub pc: u32,
    pub cycle: u64,
    pub if_id: Option<IfId>,
    pub id_ex: Option<IdEx>,
    pub ex_mem: Option<ExMem>,
    pub mem_wb: Option<MemWb>,
    pub alu: Seq<InstructionProgress<FiveStageInstr>>,
    pub alu_usage: Seq<bool>,
}

/// The decode stage's output for a fetched word: its fields and the register
/// values it names; nothing for an unrecognised word.
pub open spec fn spec_decode_stage(regs: Seq<u32>, l: IfId) -> Option<IdEx> {
    match spec_decode(l.word) {
        Some(instr) => Some(IdEx {
            pc: l.pc,
            rs1: regs[instr.rs1 as int],
            rs2: regs[instr.rs2 as int],
            instr,
        }),
        None => None,
    }
}

/// The ALU's in-flight instructions and pipe usage after the execute stage
/// offers it `issue`.
pub open spec fn spec_issue(
    alu: Seq<InstructionProgress<FiveStageInstr>>,
    usage: Seq<bool>,
    issue: Option<IdEx>,
) -> (Seq<InstructionProgress<FiveStageInstr>>, Seq<bool>) {
    match issue {
        Some(l) => match spec_first_free_pipe(five_stage_pipe_kinds(), usage, l.instr.opcode, usage.len()) {
            Some(i) => (alu.push(spec_new_progress(FiveStageInstr(l), i)), usage.update(i, true)),
            None => (alu, usage),
        },
        None => (alu, usage),
    }
}

/// One cycle of the pipeline with the given policies (see `tick`).
pub open spec fn spec_five_stage_tick<H: HazardPolicy, F: ForwardingPolicy>(
    hazard: H,
    forwarding: F,
    s: FiveStageState,
) -> FiveStageState {
    let stall = hazard.spec_should_stall(s.if_id, s.id_ex);
    // IF
    let fetched = if !stall { Some(IfId { pc: s.pc, word: spec_read_u32(s.mem, s.pc as int) }) } else { s.if_id };
    let pc = if !stall { (s.pc + 4) as u32 } else { s.pc };
    // ID
    let decoded = if !stall {
        match s.if_id { Some(l) => spec_decode_stage(s.regs, l), None => None }
    } else {
        None
    };
    // EX
    let issue = match s.id_ex { Some(l) => Some(forwarding.spec_forward(l, s.ex_mem, s.mem_wb)), None => None };
    let (alu1, usage1) = spec_issue(s.alu, s.alu_usage, issue);
    let alu2 = spec_after_tick(alu1);
    let (usage2, executed) = match spec_selected(alu1) {
        None => (usage1, None),
        Some(k) => {
            let p = alu1[k];
            let instr = p.spec_instruction();
            (
                if p.spec_pipe() < usage1.len() { usage1.update(p.spec_pipe() as int, false) } else { usage1 },
                Some(ExMem {
                    instr: instr.0.instr,
                    result: spec_compute(instr.spec_opcode(), instr.spec_inputs()),
                    rs2: instr.0.rs2,
                }),
            )
        },
    };
    // MEM
    let (mem, memwb) = match s.ex_mem {
        Some(l) => {
            let (result, write) = spec_compute_memory(s.mem, l);
            (
                match write { Some(w) => spec_apply_write(s.mem, w), None => s.mem },
                Some(MemWb { instr: l.instr, result }),
            )
        },
        None => (s.mem, None),
    };
    // WB
    let regs = match s.mem_wb {
        Some(l) => if writes_rd(l.instr.format) && l.instr.rd != 0 {
            s.regs.update(l.instr.rd as int, l.result)
        } else {
            s.regs
        },
        None => s.regs,
    };
    FiveStageState {
        regs: regs.update(0, 0),
        mem,
        pc,
        cycle: (s.cycle + 1) as u64,
        if_id: fetched,
        id_ex: decoded,
        ex_mem: executed,
        mem_wb: memwb,
        alu: alu2,
        alu_usage: usage2,
    }
}

/// A tick runs without a fault: the cycle counter has room, a fetch (if the
/// pipeline does not stall) and the memory access of the instruction in the
/// MEM stage lie within memory.
pub open spec fn spec_tick_safe<H: HazardPolicy>(hazard: H, s: FiveStageState) -> bool {
    &&& s.cycle < u64::MAX
    &&& !hazard.spec_should_stall(s.if_id, s.id_ex) ==> s.pc + 4 <= s.mem.len()
    &&& s.ex_mem matches Some(l) ==> (access_width(l.instr.opcode) > 0 ==> l.result + access_width(l.instr.opcode)
        <= s.mem.len())
}

pub struct FiveStageCpu<H: HazardPolicy, F: ForwardingPolicy> {
    pub regs: [u32; 32],
    pub mem: Vec<u8>,
    pub pc: u32,
    pub cycle: u64,
    if_id: Latch<IfId>,
    id_ex: Latch<IdEx>,
    ex_mem: Latch<ExMem>,
    mem_wb: Latch<MemWb>,
    alu: FiveALU,
    hazard: H,
    forwarding: F,
}

impl<H: HazardPolicy, F: ForwardingPolicy> FiveStageCpu<H, F> {
    pub closed spec fn view(&self) -> FiveStageState {
        FiveStageState {
            regs: self.regs@,
            mem: self.mem@,
            pc: self.pc,
            cycle: self.cycle,
            if_id: self.if_id.active(),
            id_ex: self.id_ex.active(),
            ex_mem: self.ex_mem.active(),
            mem_wb: self.mem_wb.active(),
            alu: self.alu.in_flight(),
            alu_usage: self.alu.usage(),
        }
    }

    pub closed spec fn hazard_policy(&self) -> H {
        self.hazard
    }

    pub closed spec fn forwarding_policy(&self) -> F {
        self.forwarding
    }

    pub closed spec fn wf(&self) -> bool {
        let n = self.mem@.len();
        &&& n <= u32::MAX
        &&& self.if_id.staged() is None
        &&& self.id_ex.staged() is None
        &&& self.ex_mem.staged() is None
        &&& self.mem_wb.staged() is None
        &&& self.alu.wf()
        &&& self.alu.pipe_kinds() == five_stage_pipe_kinds()
        &&& pipes_track(self.alu.in_flight(), self.alu.usage())
        &&& settled(self.alu.in_flight())
        &&& forall|k: int| 0 <= k < self.alu.in_flight().len()
            ==> (#[trigger] self.alu.in_flight()[k]).spec_instruction().0.pc + 4 <= n
        &&& forall|k: int| 0 <= k < self.alu.in_flight().len()
            ==> regs_in_range((#[trigger] self.alu.in_flight()[k]).spec_instruction().0.instr)
        &&& self.if_id.active() matches Some(l) ==> l.pc + 4 <= n
        &&& self.id_ex.active() matches Some(l) ==> l.pc + 4 <= n && regs_in_range(l.instr)
        &&& self.ex_mem.active() matches Some(l) ==> regs_in_range(l.instr)
        &&& self.mem_wb.active() matches Some(l) ==> regs_in_range(l.instr)
    }

    /// The register file has 32 registers.
    pub proof fn lemma_register_count(&self)
        ensures
            self@.regs.len() == 32,
    {
    }

    /// An instruction that reaches execute always finds a free pipe: the
    /// pipeline drops none.
    pub proof fn law_execute_never_drops(&self, op: Opcode)
        requires
            self.wf(),
        ensures
            spec_first_free_pipe(five_stage_pipe_kinds(), self@.alu_usage, op, self@.alu_usage.len()) is Some,
    {
        reveal_with_fuel(spec_first_free_pipe, 3);
        lemma_pipes_run_everything(op);
        let u = self@.alu_usage;
        assert(!u[0] || !u[1]);
    }

    /// After a tick `x0` reads zero, and at most one other register changed.
    pub proof fn law_x0_after_tick(&self)
        requires
            self.wf(),
        ensures
            spec_five_stage_tick(self.hazard_policy(), self.forwarding_policy(), self@).regs[0] == 0,
            spec_five_stage_tick(self.hazard_policy(), self.forwarding_policy(), self@).regs.len() == 32,
    {
        law_five_stage_registers(self.hazard_policy(), self.forwarding_policy(), self@);
    }

    pub fn new(mem_size: usize, hazard: H, forwarding: F) -> (r: Self)
        requires
            mem_size <= u32::MAX,
        ensures
            r.wf(),
            r@ == (FiveStageState {
                regs: Seq::new(32, |i: int| 0u32),
                mem: Seq::new(mem_size as nat, |i: int| 0u8),
                pc: 0,
                cycle: 0,
                if_id: None,
                id_ex: None,
                ex_mem: None,
                mem_wb: None,
                alu: Seq::empty(),
                alu_usage: seq![false, false],
            }),
            r.hazard_policy() == hazard,
            r.forwarding_policy() == forwarding,
    {
        let mut mem: Vec<u8> = Vec::new();
        let mut i: usize = 0;
        while i < mem_size
            invariant
                i <= mem_size,
                mem@ == Seq::new(i as nat, |j: int| 0u8),
            decreases mem_size - i,
        {
            mem.push(0u8);
            i = i + 1;
            assert(mem@ =~= Seq::new(i as nat, |j: int| 0u8));
        }
        let r = Self {
            regs: [0u32; 32],
            mem,
            pc: 0,
            cycle: 0,
            if_id: Latch::new(),
            id_ex: Latch::new(),
            ex_mem: Latch::new(),
            mem_wb: Latch::new(),
            alu: default_alu(),
            hazard,
            forwarding,
        };
        assert(r@.regs =~= Seq::new(32, |i: int| 0u32));
        r
    }

    /// Copies `bytes` into memory at `addr`.
    pub fn load(&mut self, addr: usize, bytes: &[u8])
        requires
            old(self).wf(),
            addr + bytes@.len() <= old(self)@.mem.len(),
        ensures
            final(self).wf(),
            final(self)@ == (FiveStageState { mem: spec_copy_in(old(self)@.mem, addr as int, bytes@), ..old(self)@ }),
            final(self).hazard_policy() == old(self).hazard_policy(),
            final(self).forwarding_policy() == old(self).forwarding_policy(),
    {
        copy_in(&mut self.mem, addr, bytes);
    }

    /// Whether `tick` can run without a fault (see `spec_tick_safe`).
    pub fn can_tick(&self) -> (r: bool)
        requires
            self.wf(),
        ensures
            r == spec_tick_safe(self.hazard_policy(), self@),
    {
        if self.cycle == u64::MAX {
            return false;
        }
        let if_id_snap = self.if_id.peek();
        let id_ex_snap = self.id_ex.peek();
        let stall = self.hazard.should_stall(&if_id_snap, &id_ex_snap);
        if !stall && self.pc as u64 + 4 > self.mem.len() as u64 {
            return false;
        }
        match self.ex_mem.peek() {
            Some(l) => {
                let width: u64 = match l.instr.opcode {
                    Opcode::Lb | Opcode::Lbu | Opcode::Sb => 1,
                    Opcode::Lh | Opcode::Lhu | Opcode::Sh => 2,
                    Opcode::Lw | Opcode::Sw => 4,
                    _ => 0,
                };
                width == 0 || l.result as u64 + width <= self.mem.len() as u64
            },
            None => true,
        }
    }

    /// Advances the pipeline by one cycle.
    #[verifier::rlimit(40)]
    pub fn tick(&mut self)
        requires
            old(self).wf(),
            spec_tick_safe(old(self).hazard_policy(), old(self)@),
        ensures
            final(self).wf(),
            final(self)@ == spec_five_stage_tick(old(self).hazard_policy(), old(self).forwarding_policy(), old(self)@),
            final(self).hazard_policy() == old(self).hazard_policy(),
            final(self).forwarding_policy() == old(self).forwarding_policy(),
    {
        let ghost s = self@;
        self.cycle = self.cycle + 1;

        // Snapshot latches for hazard/forwarding checks — these must reflect
        // start-of-cycle state so stages don't observe each other's outputs.
        let if_id_snap = self.if_id.peek();
        let id_ex_snap = self.id_ex.peek();
        let ex_mem_snap = self.ex_mem.peek();
        let mem_wb_snap = self.mem_wb.peek();

        let stall = self.hazard.should_stall(&if_id_snap, &id_ex_snap);

        self.fetch_and_decode(stall, if_id_snap);
        self.execute(id_ex_snap, ex_mem_snap, mem_wb_snap);
        self.memory_stage(ex_mem_snap);
        self.write_back(mem_wb_snap);

        // Advance all latches: staged values become active for the next cycle.
        self.if_id.update();
        self.id_ex.update();
        self.ex_mem.update();
        self.mem_wb.update();

        self.regs.set(0, 0);
        proof {
            assert(self@.regs =~= spec_five_stage_tick(self.hazard, self.forwarding, s).regs);
        }
    }

    /// IF and ID: unless stalled, fetch the word at pc and decode the word
    /// fetched last cycle; a stall holds the fetched word for the next cycle.
    fn fetch_and_decode(&mut self, stall: bool, if_id_snap: Option<IfId>)
        requires
            old(self).if_id.staged() is None,
            old(self).id_ex.staged() is None,
            !stall ==> old(self).pc + 4 <= old(self).mem@.len() <= u32::MAX,
            if_id_snap matches Some(l) ==> l.pc + 4 <= old(self).mem@.len(),
        ensures
            final(self).if_id.staged() == if !stall {
                Some(IfId { pc: old(self).pc, word: spec_read_u32(old(self).mem@, old(self).pc as int) })
            } else {
                if_id_snap
            },
            final(self).id_ex.staged() == if !stall {
                match if_id_snap { Some(l) => spec_decode_stage(old(self).regs@, l), None => None }
            } else {
                None::<IdEx>
            },
            final(self).pc == if !stall { (old(self).pc + 4) as u32 } else { old(self).pc },
            final(self).if_id.active() == old(self).if_id.active(),
            final(self).id_ex.active() == old(self).id_ex.active(),
            final(self).id_ex.staged() matches Some(l) ==> l.pc + 4 <= old(self).mem@.len() && regs_in_range(l.instr),
            final(self).regs == old(self).regs,
            final(self).mem == old(self).mem,
            final(self).cycle == old(self).cycle,
            final(self).ex_mem == old(self).ex_mem,
            final(self).mem_wb == old(self).mem_wb,
            final(self).alu == old(self).alu,
            final(self).hazard == old(self).hazard,
            final(self).forwarding == old(self).forwarding,
    {
        // IF: fetch instruction word from memory.
        if !stall {
            let word = self.mem_read_u32(self.pc);
            self.if_id.stage(IfId { pc: self.pc, word });
            self.pc = self.pc + 4;
        } else {
            self.if_id.direct_stage(if_id_snap);
        }

        // ID: decode and read register file.
        if !stall {
            if let Some(latch) = if_id_snap {
                if let Some(instr) = isa::decode(latch.word) {
                    self.id_ex.stage(IdEx {
                        pc: latch.pc,
                        rs1: self.regs[instr.rs1 as usize],
                        rs2: self.regs[instr.rs2 as usize],
                        instr,
                    });
                }
            }
        }
    }

    /// EX: apply forwarding, then dispatch to the ALU. The ALU is pipelined:
    /// its tick returns a result when one is ready.
    #[verifier::rlimit(30)]
    fn execute(&mut self, id_ex_snap: Option<IdEx>, ex_mem_snap: Option<ExMem>, mem_wb_snap: Option<MemWb>)
        requires
            old(self).ex_mem.staged() is None,
            old(self).alu.wf(),
            old(self).alu.pipe_kinds() == five_stage_pipe_kinds(),
            pipes_track(old(self).alu.in_flight(), old(self).alu.usage()),
            settled(old(self).alu.in_flight()),
            old(self).mem@.len() <= u32::MAX,
            forall|k: int| 0 <= k < old(self).alu.in_flight().len()
                ==> (#[trigger] old(self).alu.in_flight()[k]).spec_instruction().0.pc + 4 <= old(self).mem@.len()
                    && regs_in_range(old(self).alu.in_flight()[k].spec_instruction().0.instr),
            id_ex_snap matches Some(l) ==> l.pc + 4 <= old(self).mem@.len() && regs_in_range(l.instr),
        ensures
            ({
                let issue = match id_ex_snap {
                    Some(l) => Some(old(self).forwarding.spec_forward(l, ex_mem_snap, mem_wb_snap)),
                    None => None,
                };
                let (alu1, usage1) = spec_issue(old(self).alu.in_flight(), old(self).alu.usage(), issue);
                &&& final(self).alu.in_flight() == spec_after_tick(alu1)
                &&& match spec_selected(alu1) {
                    None => final(self).alu.usage() == usage1 && final(self).ex_mem.staged() is None,
                    Some(k) => {
                        let p = alu1[k];
                        let instr = p.spec_instruction();
                        &&& final(self).alu.usage() == if p.spec_pipe() < usage1.len() {
                            usage1.update(p.spec_pipe() as int, false)
                        } else {
                            usage1
                        }
                        &&& final(self).ex_mem.staged() == Some(ExMem {
                            instr: instr.0.instr,
                            result: spec_compute(instr.spec_opcode(), instr.spec_inputs()),
                            rs2: instr.0.rs2,
                        })
                    },
                }
            }),
            final(self).alu.wf(),
            final(self).alu.pipe_kinds() == five_stage_pipe_kinds(),
            pipes_track(final(self).alu.in_flight(), final(self).alu.usage()),
            settled(final(self).alu.in_flight()),
            id_ex_snap is Some ==> spec_first_free_pipe(five_stage_pipe_kinds(), old(self).alu.usage(),
                id_ex_snap->0.instr.opcode, 2) is Some,
            forall|k: int| 0 <= k < final(self).alu.in_flight().len()
                ==> (#[trigger] final(self).alu.in_flight()[k]).spec_instruction().0.pc + 4 <= old(self).mem@.len()
                    && regs_in_range(final(self).alu.in_flight()[k].spec_instruction().0.instr),
            final(self).ex_mem.staged() matches Some(l) ==> regs_in_range(l.instr),
            final(self).ex_mem.active() == old(self).ex_mem.active(),
            final(self).regs == old(self).regs,
            final(self).mem == old(self).mem,
            final(self).pc == old(self).pc,
            final(self).cycle == old(self).cycle,
            final(self).if_id == old(self).if_id,
            final(self).id_ex == old(self).id_ex,
            final(self).mem_wb == old(self).mem_wb,
            final(self).hazard == old(self).hazard,
            final(self).forwarding == old(self).forwarding,
    {
        let ghost alu0 = self.alu.in_flight();
        let ghost issued = id_ex_snap is Some;
        let ghost u0 = self.alu.usage();
        let ghost pi: int = if id_ex_snap is Some {
            spec_first_free_pipe(five_stage_pipe_kinds(), u0, id_ex_snap->0.instr.opcode, 2)->0
        } else {
            0
        };
        proof {
            reveal_with_fuel(spec_first_free_pipe, 3);
            if id_ex_snap is Some {
                let op = id_ex_snap->0.instr.opcode;
                lemma_pipes_run_everything(op);
                assert(!u0[0] || !u0[1]);
                assert(spec_first_free_pipe(five_stage_pipe_kinds(), u0, op, 2) is Some);
                assert(0 <= pi < 2 && !u0[pi]);
                assert(alu0.len() == 0 ==> pi == 0);
            }
        }
        if let Some(mut latch) = id_ex_snap {
            self.forwarding.forward(&mut latch, &ex_mem_snap, &mem_wb_snap);
            let ghost fl = latch;
            self.alu.try_enqueue(FiveStageInstr(latch));
            proof {
                reveal_with_fuel(spec_first_free_pipe, 3);
                lemma_new_progress(FiveStageInstr(fl), pi);
                assert(self.alu.in_flight() == alu0.push(spec_new_progress(FiveStageInstr(fl), pi)));
                assert(self.alu.usage() == u0.update(pi, true));
            }
        }
        let ghost a = self.alu.in_flight();
        let ghost u1 = self.alu.usage();
        proof {
            if issued {
                assert(a.drop_last() =~= alu0);
            } else {
                assert(a =~= alu0);
            }
            lemma_single_issue(a, issued);
            lemma_scan_bounds(a, a.len());
            assert forall|k: int| 0 <= k < a.len() implies (#[trigger] a[k]).spec_age() < 255
                && a[k].spec_instruction().0.pc + 4 <= self.mem@.len()
                && regs_in_range(a[k].spec_instruction().0.instr) by {
                if issued && k == a.len() - 1 {
                } else {
                    assert(a[k] == alu0[k]);
                }
            }
        }
        if let Some(res) = self.alu.tick() {
            self.ex_mem.stage(res.ex_mem);
        }
        proof {
            let f = self.alu.in_flight();
            assert forall|k: int| 0 <= k < f.len() implies
                (#[trigger] f[k]).spec_instruction().0.pc + 4 <= self.mem@.len()
                && regs_in_range(f[k].spec_instruction().0.instr) by {
                match spec_selected(a) {
                    None => { lemma_aged(a[k]); },
                    Some(j) => {
                        if k < j { lemma_aged(a[k]); } else { lemma_aged(a[k + 1]); }
                    },
                }
            }
            let u2 = self.alu.usage();
            if alu0.len() == 1 {
                assert(a[0] == alu0[0]);
                assert(spec_selected(a) == Some(0int));
                let q = alu0[0].spec_pipe() as int;
                assert(u0[q]);
                assert(u2 == u1.update(q, false));
                if issued {
                    assert(pi != q);
                    lemma_aged(a[1]);
                    assert(f.len() == 1 && f[0] == spec_all_aged(a)[1]);
                    assert(f[0].spec_pipe() == pi);
                    assert forall|p: int| 0 <= p < 2 implies (#[trigger] u2[p] <==> (f.len() == 1 && f[0].spec_pipe() == p)) by {}
                } else {
                    assert(f.len() == 0);
                    assert forall|p: int| 0 <= p < 2 implies (#[trigger] u2[p] <==> (f.len() == 1 && f[0].spec_pipe() == p)) by {}
                }
            } else {
                assert(alu0.len() == 0);
                if issued {
                    assert(spec_selected(a) is None);
                    lemma_aged(a[0]);
                    assert(f.len() == 1 && f[0] == spec_all_aged(a)[0]);
                    assert forall|p: int| 0 <= p < 2 implies (#[trigger] u2[p] <==> (f.len() == 1 && f[0].spec_pipe() == p)) by {}
                } else {
                    assert(spec_selected(a) is None);
                    assert forall|p: int| 0 <= p < 2 implies (#[trigger] u2[p] <==> (f.len() == 1 && f[0].spec_pipe() == p)) by {}
                }
            }
        }
    }

    /// MEM: perform the load or store of the instruction in the MEM stage.
    fn memory_stage(&mut self, ex_mem_snap: Option<ExMem>)
        requires
            old(self).mem_wb.staged() is None,
            ex_mem_snap matches Some(l) ==> (access_width(l.instr.opcode) > 0 ==> l.result + access_width(l.instr.opcode)
                <= old(self).mem@.len()),
        ensures
            match ex_mem_snap {
                Some(l) => {
                    let (result, write) = spec_compute_memory(old(self).mem@, l);
                    &&& final(self).mem@ == match write { Some(w) => spec_apply_write(old(self).mem@, w), None => old(self).mem@ }
                    &&& final(self).mem_wb.staged() == Some(MemWb { instr: l.instr, result })
                },
                None => final(self).mem@ == old(self).mem@ && final(self).mem_wb.staged() is None,
            },
            final(self).mem_wb.active() == old(self).mem_wb.active(),
            final(self).regs == old(self).regs,
            final(self).pc == old(self).pc,
            final(self).cycle == old(self).cycle,
            final(self).if_id == old(self).if_id,
            final(self).id_ex == old(self).id_ex,
            final(self).ex_mem == old(self).ex_mem,
            final(self).alu == old(self).alu,
            final(self).hazard == old(self).hazard,
            final(self).forwarding == old(self).forwarding,
    {
        if let Some(latch) = ex_mem_snap {
            let (result, write) = self.compute_memory(&latch);
            if let Some(w) = write {
                self.apply_mem_write(w);
            }
            self.mem_wb.stage(MemWb { instr: latch.instr, result });
        }
    }

    /// WB: write the result to the register file.
    fn write_back(&mut self, mem_wb_snap: Option<MemWb>)
        requires
            mem_wb_snap matches Some(l) ==> regs_in_range(l.instr),
        ensures
            final(self).regs@ == match mem_wb_snap {
                Some(l) => if writes_rd(l.instr.format) && l.instr.rd != 0 {
                    old(self).regs@.update(l.instr.rd as int, l.result)
                } else {
                    old(self).regs@
                },
                None => old(self).regs@,
            },
            final(self).mem == old(self).mem,
            final(self).pc == old(self).pc,
            final(self).cycle == old(self).cycle,
            final(self).if_id == old(self).if_id,
            final(self).id_ex == old(self).id_ex,
            final(self).ex_mem == old(self).ex_mem,
            final(self).mem_wb == old(self).mem_wb,
            final(self).alu == old(self).alu,
            final(self).hazard == old(self).hazard,
            final(self).forwarding == old(self).forwarding,
    {
        if let Some(latch) = mem_wb_snap {
            let rd = latch.instr.rd;
            let writes = matches!(latch.instr.format, InstrFormat::R | InstrFormat::I | InstrFormat::U | InstrFormat::J);
            if writes && rd != 0 {
                self.regs.set(rd as usize, latch.result);
            }
        }
    }

    fn compute_memory(&self, latch: &ExMem) -> (r: (u32, Option<MemWrite>))
        requires
            access_width(latch.instr.opcode) > 0 ==> latch.result + access_width(latch.instr.opcode) <= self.mem@.len(),
        ensures
            r == spec_compute_memory(self.mem@, *latch),
    {
        match latch.instr.opcode {
            Opcode::Lb => (self.mem_read_u8(latch.result) as i8 as i32 as u32, None),
            Opcode::Lbu => (self.mem_read_u8(latch.result) as u32, None),
            Opcode::Lh => (self.mem_read_u16(latch.result) as i16 as i32 as u32, None),
            Opcode::Lhu => (self.mem_read_u16(latch.result) as u32, None),
            Opcode::Lw => (self.mem_read_u32(latch.result), None),
            Opcode::Sb => (0, Some(MemWrite::Byte(latch.result, latch.rs2 as u8))),
            Opcode::Sh => (0, Some(MemWrite::Half(latch.result, latch.rs2 as u16))),
            Opcode::Sw => (0, Some(MemWrite::Word(latch.result, latch.rs2))),
            _ => (latch.result, None),
        }
    }

    fn apply_mem_write(&mut self, w: MemWrite)
        requires
            match w {
                MemWrite::Byte(addr, _) => addr + 1 <= old(self).mem@.len(),
                MemWrite::Half(addr, _) => addr + 2 <= old(self).mem@.len(),
                MemWrite::Word(addr, _) => addr + 4 <= old(self).mem@.len(),
            },
        ensures
            final(self).mem@ == spec_apply_write(old(self).mem@, w),
            final(self).regs == old(self).regs,
            final(self).pc == old(self).pc,
            final(self).cycle == old(self).cycle,
            final(self).if_id == old(self).if_id,
            final(self).id_ex == old(self).id_ex,
            final(self).ex_mem == old(self).ex_mem,
            final(self).mem_wb == old(self).mem_wb,
            final(self).alu == old(self).alu,
            final(self).hazard == old(self).hazard,
            final(self).forwarding == old(self).forwarding,
    {
        match w {
            MemWrite::Byte(addr, val) => self.mem.set(addr as usize, val),
            MemWrite::Half(addr, val) => write_le(&mut self.mem, addr as usize, val as u32, 2),
            MemWrite::Word(addr, val) => write_le(&mut self.mem, addr as usize, val, 4),
        }
    }

    fn mem_read_u8(&self, addr: u32) -> (r: u8)
        requires
            addr + 1 <= self.mem@.len(),
        ensures
            r == self.mem@[addr as int],
    {
        self.mem[addr as usize]
    }

    fn mem_read_u16(&self, addr: u32) -> (r: u16)
        requires
            addr + 2 <= self.mem@.len(),
        ensures
            r == spec_read_u16(self.mem@, addr as int),
    {
        read_u16(&self.mem, addr as usize)
    }

    fn mem_read_u32(&self, addr: u32) -> (r: u32)
        requires
            addr + 4 <= self.mem@.len(),
        ensures
            r == spec_read_u32(self.mem@, addr as int),
    {
        read_u32(&self.mem, addr as usize)
    }
}


impl<H: HazardPolicy, F: ForwardingPolicy> FiveStageCpu<H, F> {
    /// The ALU of the execute stage.
    pub closed spec fn alu_unit(&self) -> FiveALU {
        self.alu
    }

    /// `n` describes this CPU: its pc, its cycle count, what each pipeline
    /// register holds, and its ALU.
    pub open spec fn diagnosis(&self, n: DiagNode) -> bool {
        let s = self.view();
        &&& n.label@ == "five_stage_cpu"@
        &&& n.value is None
        &&& n.children@.len() == 7
        &&& leaf_is(n.children@[0], "pc"@, hex8_text(s.pc))
        &&& leaf_is(n.children@[1], "cycle"@, dec_text(s.cycle as nat))
        &&& leaf_is(n.children@[2], "if_id"@, option_text(match s.if_id { Some(v) => Some(if_id_text(v)), None => None }))
        &&& leaf_is(n.children@[3], "id_ex"@, option_text(match s.id_ex { Some(v) => Some(id_ex_text(v)), None => None }))
        &&& leaf_is(n.children@[4], "ex_mem"@, option_text(match s.ex_mem { Some(v) => Some(ex_mem_text(v)), None => None }))
        &&& leaf_is(n.children@[5], "mem_wb"@, option_text(match s.mem_wb { Some(v) => Some(mem_wb_text(v)), None => None }))
        &&& self.alu_unit().diagnosis(n.children@[6])
    }
}

impl<H: HazardPolicy, F: ForwardingPolicy> Diagnosable for FiveStageCpu<H, F> {
    open spec fn diagnosable(&self) -> bool {
        true
    }

    fn diagnose(&self) -> (r: DiagNode)
        ensures
            self.diagnosis(r),
    {
        let mut children: Vec<DiagNode> = Vec::new();
        let mut label: Vec<char> = Vec::new();
        push_str(&mut label, "pc");
        let mut val: Vec<char> = Vec::new();
        push_hex8(&mut val, self.pc);
        children.push(leaf_of(&label, &val));
        let mut label: Vec<char> = Vec::new();
        push_str(&mut label, "cycle");
        let mut val: Vec<char> = Vec::new();
        push_dec(&mut val, self.cycle);
        children.push(leaf_of(&label, &val));
        let mut label: Vec<char> = Vec::new();
        push_str(&mut label, "if_id");
        let mut val: Vec<char> = Vec::new();
        push_if_id(&mut val, self.if_id.peek());
        children.push(leaf_of(&label, &val));
        let mut label: Vec<char> = Vec::new();
        push_str(&mut label, "id_ex");
        let mut val: Vec<char> = Vec::new();
        push_id_ex(&mut val, self.id_ex.peek());
        children.push(leaf_of(&label, &val));
        let mut label: Vec<char> = Vec::new();
        push_str(&mut label, "ex_mem");
        let mut val: Vec<char> = Vec::new();
        push_ex_mem(&mut val, self.ex_mem.peek());
        children.push(leaf_of(&label, &val));
        let mut label: Vec<char> = Vec::new();
        push_str(&mut label, "mem_wb");
        let mut val: Vec<char> = Vec::new();
        push_mem_wb(&mut val, self.mem_wb.peek());
        children.push(leaf_of(&label, &val));
        children.push(self.alu.diagnose());
        let mut root: Vec<char> = Vec::new();
        push_str(&mut root, "five_stage_cpu");
        inner_of(&root, children)
    }
}


/// `x0` always reads zero, and in a cycle at most one other register changes.
pub proof fn law_five_stage_registers<H: HazardPolicy, F: ForwardingPolicy>(hazard: H, forwarding: F, s: FiveStageState)
    requires
        s.regs.len() == 32,
        s.mem_wb matches Some(l) ==> regs_in_range(l.instr),
    ensures
        spec_five_stage_tick(hazard, forwarding, s).regs.len() == 32,
        spec_five_stage_tick(hazard, forwarding, s).regs[0] == 0,
        spec_five_stage_tick(hazard, forwarding, s).regs == s.regs.update(0, 0) || exists|rd: int, v: u32|
            0 < rd < 32 && #[trigger] spec_five_stage_tick(hazard, forwarding, s).regs == s.regs.update(rd, v).update(0, 0),
{
    let r = spec_five_stage_tick(hazard, forwarding, s).regs;
    match s.mem_wb {
        Some(l) => {
            if writes_rd(l.instr.format) && l.instr.rd != 0 {
                let rd = l.instr.rd as int;
                assert(r == s.regs.update(rd, l.result).update(0, 0));
            }
        },
        None => {},
    }
}

} // verus!
