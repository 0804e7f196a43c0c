//! When the pipeline must hold fetch and decode for a cycle.
use vstd::prelude::*;
use crate::isa::{Opcode, rs1_field, rs2_field};
use crate::five_stage::stages::{IfId, IdEx};

verus! {

/// The first source register field of a raw instruction word.
pub open spec fn spec_word_rs1(word: u32) -> u8 {
    ((word >> 15u32) & 0x1f) as u8
}

/// The second source register field of a raw instruction word.
pub open spec fn spec_word_rs2(word: u32) -> u8 {
    ((word >> 20u32) & 0x1f) as u8
}

fn word_rs1(word: u32) -> (r: u8)
    ensures
        r == spec_word_rs1(word),
{
    ((word >> 15u32) & 0x1f) as u8
}

fn word_rs2(word: u32) -> (r: u8)
    ensures
        r == spec_word_rs2(word),
{
    ((word >> 20u32) & 0x1f) as u8
}

pub trait HazardPolicy {
    spec fn spec_should_stall(&self, if_id: Option<IfId>, id_ex: Option<IdEx>) -> bool;

    /// Return true if the pipeline should stall — i.e. hold fetch/decode and
    /// inject a bubble into execute this cycle.
    fn should_stall(&self, if_id: &Option<IfId>, id_ex: &Option<IdEx>) -> (r: bool)
        ensures
            r == self.spec_should_stall(*if_id, *id_ex),
    ;
}

/// No hazard detection — instructions always proceed. Correct only when the
/// caller inserts sufficient NOPs manually, or forwarding covers all cases.
pub struct NoHazardDetection;

impl HazardPolicy for NoHazardDetection {
    open spec fn spec_should_stall(&self, if_id: Option<IfId>, id_ex: Option<IdEx>) -> bool {
        false
    }

    fn should_stall(&self, _if_id: &Option<IfId>, _id_ex: &Option<IdEx>) -> (r: bool) {
        false
    }
}

/// An opcode that reads memory.
pub open spec fn is_load_op(op: Opcode) -> bool {
    matches!(op, Opcode::Lb | Opcode::Lbu | Opcode::Lh | Opcode::Lhu | Opcode::Lw)
}

/// Stalls when a load is one cycle ahead of an instruction that uses its result.
/// The check runs on the IF/ID and ID/EX registers, so a small extra decoder
/// extracts the source registers from the word just fetched.
pub struct StallOnLoad;

impl HazardPolicy for StallOnLoad {
    /// A load in execute writes a register (other than x0) that the fetched
    /// word reads.
    open spec fn spec_should_stall(&self, if_id: Option<IfId>, id_ex: Option<IdEx>) -> bool {
        match (if_id, id_ex) {
            (Some(fetch), Some(exec)) => {
                &&& is_load_op(exec.instr.opcode)
                &&& exec.instr.rd != 0
                &&& (exec.instr.rd == spec_word_rs1(fetch.word) || exec.instr.rd == spec_word_rs2(fetch.word))
            },
            _ => false,
        }
    }

    fn should_stall(&self, if_id: &Option<IfId>, id_ex: &Option<IdEx>) -> (r: bool) {
        let (fetch, exec) = match (if_id, id_ex) {
            (Some(fetch), Some(exec)) => (fetch, exec),
            _ => { return false; },
        };

        let is_load = matches!(exec.instr.opcode,
            Opcode::Lb | Opcode::Lbu | Opcode::Lh | Opcode::Lhu | Opcode::Lw);

        is_load && exec.instr.rd != 0 && (exec.instr.rd == word_rs1(fetch.word)
            || exec.instr.rd == word_rs2(fetch.word))
    }
}

/// The load-use check stalls exactly when the instruction in execute is one of
/// the five loads, writes a register other than x0, and that register is one
/// of the two source registers the decoder will read from the fetched word;
/// with either latch empty it never stalls.
pub proof fn law_stall_on_load(fetch: Option<IfId>, exec: Option<IdEx>)
    ensures
        StallOnLoad.spec_should_stall(fetch, exec) == (fetch is Some && exec is Some && {
            let e = exec->0.instr;
            let w = fetch->0.word;
            &&& (e.opcode == Opcode::Lb || e.opcode == Opcode::Lbu || e.opcode == Opcode::Lh
                || e.opcode == Opcode::Lhu || e.opcode == Opcode::Lw)
            &&& e.rd != 0
            &&& (e.rd == rs1_field(w) || e.rd == rs2_field(w))
        }),
{
}

} // verus!
