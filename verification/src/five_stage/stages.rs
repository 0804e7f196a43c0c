//! The values carried by the registers between the pipeline stages.
use vstd::prelude::*;
use crate::isa::{decoded_text, push_decoded, DecodedInstr};
use crate::utils::text::{dec_text, option_text, push_dec, push_str};

verus! {

/// Output of the Fetch stage
#[derive(Clone, Copy, Debug)]
pub struct IfId {
    pub pc: u32,
    pub word: u32,
}

/// Output of the Decode stage
#[derive(Clone, Copy, Debug)]
pub struct IdEx {
    pub pc: u32,
    pub instr: DecodedInstr,
    pub rs1: u32,
    pub rs2: u32,
}

/// Output of the Execute stage
#[derive(Clone, Copy, Debug)]
pub struct ExMem {
    pub instr: DecodedInstr,
    pub result: u32,
    pub rs2: u32,  // store value
}

/// Output of the Memory stage
#[derive(Clone, Copy, Debug)]
pub struct MemWb {
    pub instr: DecodedInstr,
    pub result: u32,
}


/// The fetch-stage register as `{:?}` writes it.
pub open spec fn if_id_text(v: IfId) -> Seq<char> {
    "IfId { pc: "@ + dec_text(v.pc as nat) + ", word: "@ + dec_text(v.word as nat) + " }"@
}

/// The decode-stage register as `{:?}` writes it.
pub open spec fn id_ex_text(v: IdEx) -> Seq<char> {
    "IdEx { pc: "@ + dec_text(v.pc as nat) + ", instr: "@ + decoded_text(v.instr) + ", rs1: "@
        + dec_text(v.rs1 as nat) + ", rs2: "@ + dec_text(v.rs2 as nat) + " }"@
}

/// The execute-stage register as `{:?}` writes it.
pub open spec fn ex_mem_text(v: ExMem) -> Seq<char> {
    "ExMem { instr: "@ + decoded_text(v.instr) + ", result: "@ + dec_text(v.result as nat) + ", rs2: "@
        + dec_text(v.rs2 as nat) + " }"@
}

/// The memory-stage register as `{:?}` writes it.
pub open spec fn mem_wb_text(v: MemWb) -> Seq<char> {
    "MemWb { instr: "@ + decoded_text(v.instr) + ", result: "@ + dec_text(v.result as nat) + " }"@
}

pub fn push_if_id(out: &mut Vec<char>, o: Option<IfId>)
    ensures
        final(out)@ == old(out)@ + option_text(match o { Some(v) => Some(if_id_text(v)), None => None }),
{
    let ghost start = out@;
    match o {
        Some(v) => {
            push_str(out, "Some(");
            push_str(out, "IfId { pc: ");
            push_dec(out, v.pc as u64);
            push_str(out, ", word: ");
            push_dec(out, v.word as u64);
            push_str(out, " }");
            push_str(out, ")");
        },
        None => push_str(out, "None"),
    }
    assert(out@ =~= start + option_text(match o { Some(v) => Some(if_id_text(v)), None => None }));
}

pub fn push_id_ex(out: &mut Vec<char>, o: Option<IdEx>)
    ensures
        final(out)@ == old(out)@ + option_text(match o { Some(v) => Some(id_ex_text(v)), None => None }),
{
    let ghost start = out@;
    match o {
        Some(v) => {
            push_str(out, "Some(");
            push_str(out, "IdEx { pc: ");
            push_dec(out, v.pc as u64);
            push_str(out, ", instr: ");
            push_decoded(out, &v.instr);
            push_str(out, ", rs1: ");
            push_dec(out, v.rs1 as u64);
            push_str(out, ", rs2: ");
            push_dec(out, v.rs2 as u64);
            push_str(out, " }");
            push_str(out, ")");
        },
        None => push_str(out, "None"),
    }
    assert(out@ =~= start + option_text(match o { Some(v) => Some(id_ex_text(v)), None => None }));
}

pub fn push_ex_mem(out: &mut Vec<char>, o: Option<ExMem>)
    ensures
        final(out)@ == old(out)@ + option_text(match o { Some(v) => Some(ex_mem_text(v)), None => None }),
{
    let ghost start = out@;
    match o {
        Some(v) => {
            push_str(out, "Some(");
            push_str(out, "ExMem { instr: ");
            push_decoded(out, &v.instr);
            push_str(out, ", result: ");
            push_dec(out, v.result as u64);
            push_str(out, ", rs2: ");
            push_dec(out, v.rs2 as u64);
            push_str(out, " }");
            push_str(out, ")");
        },
        None => push_str(out, "None"),
    }
    assert(out@ =~= start + option_text(match o { Some(v) => Some(ex_mem_text(v)), None => None }));
}

pub fn push_mem_wb(out: &mut Vec<char>, o: Option<MemWb>)
    ensures
        final(out)@ == old(out)@ + option_text(match o { Some(v) => Some(mem_wb_text(v)), None => None }),
{
    let ghost start = out@;
    match o {
        Some(v) => {
            push_str(out, "Some(");
            push_str(out, "MemWb { instr: ");
            push_decoded(out, &v.instr);
            push_str(out, ", result: ");
            push_dec(out, v.result as u64);
            push_str(out, " }");
            push_str(out, ")");
        },
        None => push_str(out, "None"),
    }
    assert(out@ =~= start + option_text(match o { Some(v) => Some(mem_wb_text(v)), None => None }));
}

} // verus!
