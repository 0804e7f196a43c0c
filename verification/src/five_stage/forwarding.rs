//! Which later-stage results replace register-file operands in execute.
use vstd::prelude::*;
use crate::five_stage::stages::{ExMem, IdEx, MemWb};
use crate::five_stage::writes_rd;
use crate::isa::{DecodedInstr, InstrFormat};

verus! {

pub trait ForwardingPolicy {
    spec fn spec_forward(&self, id_ex: IdEx, ex_mem: Option<ExMem>, mem_wb: Option<MemWb>) -> IdEx;

    /// Optionally override rs1/rs2 in the decoded latch using values from
    /// later pipeline stages, bypassing the register file. The instruction and
    /// its pc stay as they are.
    fn forward(&self, id_ex: &mut IdEx, ex_mem: &Option<ExMem>, mem_wb: &Option<MemWb>)
        ensures
            *final(id_ex) == self.spec_forward(*old(id_ex), *ex_mem, *mem_wb),
            final(id_ex).instr == old(id_ex).instr,
            final(id_ex).pc == old(id_ex).pc,
    ;
}

/// No forwarding — always use register file values.
pub struct NoForwarding;

impl ForwardingPolicy for NoForwarding {
    open spec fn spec_forward(&self, id_ex: IdEx, ex_mem: Option<ExMem>, mem_wb: Option<MemWb>) -> IdEx {
        id_ex
    }

    fn forward(&self, _id_ex: &mut IdEx, _ex_mem: &Option<ExMem>, _mem_wb: &Option<MemWb>) {
    }
}

/// An instruction whose result is forwarded: one that writes rd (the rd bits
/// of stores and branches hold immediate bits).
pub open spec fn produces(instr: DecodedInstr) -> bool {
    writes_rd(instr.format)
}

/// The value execute uses for the operand register `reg`, read as `current`
/// from the register file: the newest result produced for it, the
/// execute-stage one first, then the memory-stage one; `x0` is never replaced.
pub open spec fn forward_operand(reg: u8, current: u32, ex_mem: Option<ExMem>, mem_wb: Option<MemWb>) -> u32 {
    if reg != 0 && ex_mem is Some && produces(ex_mem->0.instr) && ex_mem->0.instr.rd == reg {
        ex_mem->0.result
    } else if reg != 0 && mem_wb is Some && produces(mem_wb->0.instr) && mem_wb->0.instr.rd == reg {
        mem_wb->0.result
    } else {
        current
    }
}

fn forward_value(reg: u8, current: u32, ex_mem: &Option<ExMem>, mem_wb: &Option<MemWb>) -> (r: u32)
    ensures
        r == forward_operand(reg, current, *ex_mem, *mem_wb),
{
    if reg != 0 {
        if let Some(e) = ex_mem {
            let writes = matches!(e.instr.format, InstrFormat::R | InstrFormat::I | InstrFormat::U | InstrFormat::J);
            if writes && e.instr.rd == reg {
                return e.result;
            }
        }
        if let Some(m) = mem_wb {
            let writes = matches!(m.instr.format, InstrFormat::R | InstrFormat::I | InstrFormat::U | InstrFormat::J);
            if writes && m.instr.rd == reg {
                return m.result;
            }
        }
    }
    current
}

/// Full forwarding — forward from ex_mem and mem_wb into execute inputs.
pub struct FullForwarding;

impl ForwardingPolicy for FullForwarding {
    /// Each operand takes the newest result produced for its register.
    open spec fn spec_forward(&self, id_ex: IdEx, ex_mem: Option<ExMem>, mem_wb: Option<MemWb>) -> IdEx {
        IdEx {
            rs1: forward_operand(id_ex.instr.rs1, id_ex.rs1, ex_mem, mem_wb),
            rs2: forward_operand(id_ex.instr.rs2, id_ex.rs2, ex_mem, mem_wb),
            ..id_ex
        }
    }

    fn forward(&self, id_ex: &mut IdEx, ex_mem: &Option<ExMem>, mem_wb: &Option<MemWb>) {
        id_ex.rs1 = forward_value(id_ex.instr.rs1, id_ex.rs1, ex_mem, mem_wb);
        id_ex.rs2 = forward_value(id_ex.instr.rs2, id_ex.rs2, ex_mem, mem_wb);
    }
}

} // verus!
