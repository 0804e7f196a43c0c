//! A centralised reservation station: decoded instructions wait here until
//! both operands are known, then go to the ALU.
use vstd::prelude::*;
use crate::diag::{inner_of, leaf_is, leaf_of, DiagNode, Diagnosable};
use crate::isa::{opcode_name, opcode_str};
use crate::utils::text::{dec_text, hex8_text, idec_text, push_dec, push_hex8, push_idec, push_str};
use crate::isa::Opcode;
use crate::alu::{spec_first_free_pipe, spec_new_progress};
use crate::simple_ooo::{IdRs, InstrFormat, OOOALU};

verus! {

/// An operand: its value, or the reorder-buffer tag of the instruction that
/// will produce it.
#[derive(Debug, Clone, Copy)]
pub enum Operand {
    Ready(u32),
    Waiting(usize),
}

/// An instruction waiting in the station.
#[derive(Debug, Clone, Copy)]
pub struct SREntry {
    pub rob_tag: usize,
    pub opcode: Opcode,
    pub pc: u32,
    pub imm: i32,
    pub rs1: Operand,
    pub rs2: Operand,
    pub ready: bool,
}

/// Both operands are known.
pub open spec fn operands_ready(e: SREntry) -> bool {
    e.rs1 is Ready && e.rs2 is Ready
}

/// An operand after the result `val` of `rob_tag` is broadcast.
pub open spec fn spec_wake(op: Operand, rob_tag: usize, val: u32) -> Operand {
    match op {
        Operand::Waiting(t) => if t == rob_tag { Operand::Ready(val) } else { op },
        Operand::Ready(_) => op,
    }
}

/// An entry after the result `val` of `rob_tag` is broadcast: waiting operands
/// with that tag take the value, and the entry becomes ready once both
/// operands are known.
pub open spec fn spec_update_entry(e: SREntry, rob_tag: usize, val: u32) -> SREntry {
    let rs1 = spec_wake(e.rs1, rob_tag, val);
    let rs2 = spec_wake(e.rs2, rob_tag, val);
    SREntry { rs1, rs2, ready: e.ready || (rs1 is Ready && rs2 is Ready), ..e }
}

/// The dispatch scan from position `i` of `n`: the first ready entry for which
/// the ALU has a free pipe is taken out (the result's second part: the entry
/// and its pipe); a ready entry with no free pipe is moved to the front.
pub open spec fn spec_dispatch_from(
    es: Seq<SREntry>,
    i: nat,
    n: nat,
    kinds: Seq<Seq<crate::alu::FuncUnitKind>>,
    usage: Seq<bool>,
) -> (Seq<SREntry>, Option<(SREntry, int)>)
    decreases n - i,
{
    if i >= n {
        (es, None)
    } else if es[i as int].ready {
        let e = es[i as int];
        let rest = es.remove(i as int);
        match spec_first_free_pipe(kinds, usage, e.opcode, usage.len()) {
            Some(p) => (rest, Some((e, p))),
            None => spec_dispatch_from(rest.insert(0, e), i + 1, n, kinds, usage),
        }
    } else {
        spec_dispatch_from(es, i + 1, n, kinds, usage)
    }
}

/// The reorder-buffer tags of the entries.
pub open spec fn entry_tags(es: Seq<SREntry>) -> Seq<usize> {
    es.map_values(|e: SREntry| e.rob_tag)
}

/// The dispatch scan only moves entries: what stays plus what is taken is what
/// was there, and what is taken is ready and has a free pipe.
pub proof fn lemma_dispatch_from(
    es: Seq<SREntry>,
    i: nat,
    n: nat,
    kinds: Seq<Seq<crate::alu::FuncUnitKind>>,
    usage: Seq<bool>,
)
    requires
        n == es.len(),
    ensures
        ({
            let (es2, sel) = spec_dispatch_from(es, i, n, kinds, usage);
            &&& forall|j: int| 0 <= j < es2.len() ==> es.contains(#[trigger] es2[j])
            &&& match sel {
                None => {
                    &&& es2.len() == es.len()
                    &&& entry_tags(es2).to_multiset() == entry_tags(es).to_multiset()
                },
                Some((e, p)) => {
                    &&& es2.len() + 1 == es.len()
                    &&& entry_tags(es2).to_multiset().insert(e.rob_tag) == entry_tags(es).to_multiset()
                    &&& es.contains(e)
                    &&& e.ready
                    &&& spec_first_free_pipe(kinds, usage, e.opcode, usage.len()) == Some(p)
                },
            }
        }),
    decreases n - i,
{
    broadcast use vstd::seq_lib::group_to_multiset_ensures;
    if i >= n {
    } else if es[i as int].ready {
        let e = es[i as int];
        let rest = es.remove(i as int);
        assert(entry_tags(rest) =~= entry_tags(es).remove(i as int));
        assert(entry_tags(rest).to_multiset() == entry_tags(es).to_multiset().remove(e.rob_tag));
        assert forall|j: int| 0 <= j < rest.len() implies es.contains(#[trigger] rest[j]) by {
            if j < i { assert(rest[j] == es[j]); } else { assert(rest[j] == es[j + 1]); }
        }
        assert(es[i as int] == e);
        match spec_first_free_pipe(kinds, usage, e.opcode, usage.len()) {
            Some(p) => {
                assert(entry_tags(es).to_multiset().count(e.rob_tag) > 0) by {
                    assert(entry_tags(es)[i as int] == e.rob_tag);
                    assert(entry_tags(es).contains(e.rob_tag));
                }
                assert(entry_tags(rest).to_multiset().insert(e.rob_tag) =~= entry_tags(es).to_multiset());
            },
            None => {
                let es1 = rest.insert(0, e);
                assert(entry_tags(es1) =~= entry_tags(rest).insert(0, e.rob_tag));
                assert(entry_tags(es1).to_multiset() == entry_tags(rest).to_multiset().insert(e.rob_tag));
                assert(entry_tags(es).to_multiset().count(e.rob_tag) > 0) by {
                    assert(entry_tags(es)[i as int] == e.rob_tag);
                    assert(entry_tags(es).contains(e.rob_tag));
                }
                assert(entry_tags(es1).to_multiset() =~= entry_tags(es).to_multiset());
                lemma_dispatch_from(es1, i + 1, n, kinds, usage);
                assert forall|j: int| 0 <= j < es1.len() implies es.contains(#[trigger] es1[j]) by {
                    if j == 0 { } else { assert(es1[j] == rest[j - 1]); }
                }
                let (es2, sel) = spec_dispatch_from(es1, i + 1, n, kinds, usage);
                assert forall|j: int| 0 <= j < es2.len() implies es.contains(#[trigger] es2[j]) by {
                    assert(es1.contains(es2[j]));
                }
                match sel {
                    Some((e2, p2)) => { assert(es1.contains(e2)); },
                    None => {},
                }
            },
        }
    } else {
        lemma_dispatch_from(es, i + 1, n, kinds, usage);
    }
}

/// The dispatch scan from position `i` takes an entry whenever one at `i` or
/// after it is ready and the ALU has a free pipe for it.
proof fn lemma_dispatch_progress(
    es: Seq<SREntry>,
    i: nat,
    n: nat,
    kinds: Seq<Seq<crate::alu::FuncUnitKind>>,
    usage: Seq<bool>,
)
    requires
        n == es.len(),
        exists|j: int| i <= j < n && (#[trigger] es[j]).ready
            && spec_first_free_pipe(kinds, usage, es[j].opcode, usage.len()) is Some,
    ensures
        spec_dispatch_from(es, i, n, kinds, usage).1 is Some,
    decreases n - i,
{
    let j = choose|j: int| i <= j < n && (#[trigger] es[j]).ready
        && spec_first_free_pipe(kinds, usage, es[j].opcode, usage.len()) is Some;
    if es[i as int].ready {
        let e = es[i as int];
        let rest = es.remove(i as int);
        if spec_first_free_pipe(kinds, usage, e.opcode, usage.len()) is None {
            let es1 = rest.insert(0, e);
            assert(j != i);
            assert(es1[j] == es[j]);
            lemma_dispatch_progress(es1, i + 1, n, kinds, usage);
        }
    } else {
        assert(j != i);
        lemma_dispatch_progress(es, i + 1, n, kinds, usage);
    }
}

/// Dispatch makes progress: when some entry is ready and the ALU has a free
/// pipe that can run it, an entry is taken and placed in the ALU.
pub proof fn law_dispatch_progress(es: Seq<SREntry>, kinds: Seq<Seq<crate::alu::FuncUnitKind>>, usage: Seq<bool>)
    ensures
        (exists|j: int| 0 <= j < es.len() && (#[trigger] es[j]).ready
            && spec_first_free_pipe(kinds, usage, es[j].opcode, usage.len()) is Some)
            ==> spec_dispatch_from(es, 0, es.len(), kinds, usage).1 is Some,
{
    if exists|j: int| 0 <= j < es.len() && (#[trigger] es[j]).ready
        && spec_first_free_pipe(kinds, usage, es[j].opcode, usage.len()) is Some {
        lemma_dispatch_progress(es, 0, es.len(), kinds, usage);
    }
}

// Dispatches at most one ready instruction per cycle.
pub struct SimpleReservationStation {
    num_stations: usize,
    station_entries: Vec<SREntry>,
}

impl SimpleReservationStation {
    pub closed spec fn entries(&self) -> Seq<SREntry> {
        self.station_entries@
    }

    pub closed spec fn spec_num_stations(&self) -> nat {
        self.num_stations as nat
    }

    /// An entry is ready exactly when its operands are known.
    pub open spec fn wf(&self) -> bool {
        forall|i: int| 0 <= i < self.entries().len()
            ==> ((#[trigger] self.entries()[i]).ready <==> operands_ready(self.entries()[i]))
    }

    pub fn new(num_stations: usize) -> (r: Self)
        ensures
            r.wf(),
            r.entries() == Seq::<SREntry>::empty(),
            r.spec_num_stations() == num_stations,
    {
        Self { num_stations, station_entries: Vec::new() }
    }

    /// The station is full: the frontend must stop.
    pub fn stall(&self) -> (r: bool)
        ensures
            r == (self.entries().len() >= self.spec_num_stations()),
    {
        self.station_entries.len() >= self.num_stations
    }

    /// Adds a newly decoded instruction with its operands as resolved.
    pub fn enqueue(&mut self, rob_tag: usize, rs1: Operand, rs2: Operand, instr: &IdRs)
        requires
            old(self).wf(),
            old(self).entries().len() < old(self).spec_num_stations(),
        ensures
            final(self).wf(),
            final(self).spec_num_stations() == old(self).spec_num_stations(),
            final(self).entries() == old(self).entries().push(SREntry {
                rob_tag,
                opcode: instr.instr.opcode,
                pc: instr.pc,
                imm: instr.instr.imm,
                rs1,
                rs2,
                ready: rs1 is Ready && rs2 is Ready,
            }),
    {
        let ready = matches!(rs1, Operand::Ready(_)) && matches!(rs2, Operand::Ready(_));
        self.station_entries.push(SREntry {
            rob_tag,
            opcode: instr.instr.opcode,
            pc: instr.pc,
            imm: instr.instr.imm,
            rs1,
            rs2,
            ready,
        });
    }

    /// Broadcasts a completed result to every waiting entry.
    pub fn update(&mut self, rob_tag: usize, val: u32)
        requires
            old(self).wf(),
        ensures
            final(self).wf(),
            final(self).spec_num_stations() == old(self).spec_num_stations(),
            final(self).entries() == Seq::new(
                old(self).entries().len(),
                |i: int| spec_update_entry(old(self).entries()[i], rob_tag, val),
            ),
    {
        let n = self.station_entries.len();
        let mut i: usize = 0;
        while i < n
            invariant
                n == self.station_entries@.len(),
                n == old(self).station_entries@.len(),
                self.num_stations == old(self).num_stations,
                i <= n,
                forall|k: int| 0 <= k < i ==> #[trigger] self.station_entries@[k]
                    == spec_update_entry(old(self).station_entries@[k], rob_tag, val),
                forall|k: int| i <= k < n ==> #[trigger] self.station_entries@[k] == old(self).station_entries@[k],
            decreases n - i,
        {
            let mut entry = self.station_entries[i];
            if let Operand::Waiting(t) = entry.rs1 {
                if t == rob_tag {
                    entry.rs1 = Operand::Ready(val);
                }
            }
            if let Operand::Waiting(t) = entry.rs2 {
                if t == rob_tag {
                    entry.rs2 = Operand::Ready(val);
                }
            }
            if matches!(entry.rs1, Operand::Ready(_)) && matches!(entry.rs2, Operand::Ready(_)) {
                entry.ready = true;
            }
            self.station_entries.set(i, entry);
            i = i + 1;
        }
        assert(self.entries() =~= Seq::new(
            old(self).entries().len(),
            |i: int| spec_update_entry(old(self).entries()[i], rob_tag, val),
        ));
    }

    /// Sends the first ready entry that the ALU can take to the ALU.
    pub fn dispatch(&mut self, alu: &mut OOOALU)
        requires
            old(self).wf(),
            old(alu).wf(),
        ensures
            final(self).wf(),
            final(alu).wf(),
            final(self).spec_num_stations() == old(self).spec_num_stations(),
            final(alu).pipe_kinds() == old(alu).pipe_kinds(),
            ({
                let (es, sel) = spec_dispatch_from(
                    old(self).entries(),
                    0,
                    old(self).entries().len(),
                    old(alu).pipe_kinds(),
                    old(alu).usage(),
                );
                &&& final(self).entries() == es
                &&& match sel {
                    Some((e, p)) => {
                        &&& final(alu).in_flight() == old(alu).in_flight().push(
                            spec_new_progress(InstrFormat { rob_tag: e.rob_tag, instr: e }, p))
                        &&& final(alu).usage() == old(alu).usage().update(p, true)
                    },
                    None => {
                        &&& final(alu).in_flight() == old(alu).in_flight()
                        &&& final(alu).usage() == old(alu).usage()
                    },
                }
            }),
    {
        let n = self.station_entries.len();
        let mut i: usize = 0;
        while i < n
            invariant
                self.wf(),
                alu.wf(),
                alu.in_flight() == old(alu).in_flight(),
                alu.usage() == old(alu).usage(),
                alu.pipe_kinds() == old(alu).pipe_kinds(),
                self.num_stations == old(self).num_stations,
                self.station_entries@.len() == n,
                n == old(self).station_entries@.len(),
                i <= n,
                spec_dispatch_from(self.entries(), i as nat, n as nat, alu.pipe_kinds(), alu.usage())
                    == spec_dispatch_from(old(self).entries(), 0, n as nat, old(alu).pipe_kinds(), old(alu).usage()),
            decreases n - i,
        {
            if self.station_entries[i].ready {
                let entry = self.station_entries.remove(i);
                let instr = InstrFormat { rob_tag: entry.rob_tag, instr: entry };
                if alu.try_enqueue(instr) {
                    return;
                } else {
                    self.station_entries.insert(0, entry);
                }
            }
            i = i + 1;
        }
    }
}


/// How the diagnostic tree shows an operand: its value, or the entry it waits for.
pub open spec fn operand_text(op: Operand) -> Seq<char> {
    match op {
        Operand::Ready(v) => hex8_text(v),
        Operand::Waiting(t) => "waiting(rob["@ + dec_text(t as nat) + "])"@,
    }
}

/// How the diagnostic tree shows a waiting instruction.
pub open spec fn station_entry_text(e: SREntry) -> Seq<char> {
    opcode_name(e.opcode) + "  rs1="@ + operand_text(e.rs1) + "  rs2="@ + operand_text(e.rs2) + "  "@
        + if e.ready { "ready"@ } else { "blocked"@ }
}

fn push_operand(out: &mut Vec<char>, op: Operand)
    ensures
        final(out)@ == old(out)@ + operand_text(op),
{
    match op {
        Operand::Ready(v) => push_hex8(out, v),
        Operand::Waiting(t) => {
            let ghost start = out@;
            push_str(out, "waiting(rob[");
            push_dec(out, t as u64);
            push_str(out, "])");
            assert(out@ =~= start + operand_text(op));
        },
    }
}

impl SimpleReservationStation {
    /// `n` describes this station: its fill level and each waiting
    /// instruction, oldest first.
    pub open spec fn diagnosis(&self, n: DiagNode) -> bool {
        &&& n.label@ == "reservation_station"@
        &&& n.value is None
        &&& n.children@.len() == 1 + self.entries().len()
        &&& leaf_is(n.children@[0], "capacity"@, dec_text(self.entries().len()) + "/"@ + dec_text(self.spec_num_stations()))
        &&& forall|i: int| 0 <= i < self.entries().len() ==> leaf_is(
            #[trigger] n.children@[1 + i],
            "rob["@ + dec_text(self.entries()[i].rob_tag as nat) + "]"@,
            station_entry_text(self.entries()[i]),
        )
    }
}

impl Diagnosable for SimpleReservationStation {
    open spec fn diagnosable(&self) -> bool {
        true
    }

    /// The fill level and each waiting instruction, oldest first.
    fn diagnose(&self) -> (r: DiagNode)
        ensures
            self.diagnosis(r),
    {
        let mut cap: Vec<char> = Vec::new();
        push_dec(&mut cap, self.station_entries.len() as u64);
        push_str(&mut cap, "/");
        push_dec(&mut cap, self.num_stations as u64);
        let mut label: Vec<char> = Vec::new();
        push_str(&mut label, "capacity");
        let mut children: Vec<DiagNode> = Vec::new();
        children.push(leaf_of(&label, &cap));
        let mut i: usize = 0;
        while i < self.station_entries.len()
            invariant
                i <= self.entries().len(),
                children@.len() == 1 + i,
                leaf_is(children@[0], "capacity"@, dec_text(self.entries().len()) + "/"@ + dec_text(self.spec_num_stations())),
                forall|k: int| 0 <= k < i ==> leaf_is(
                    #[trigger] children@[1 + k],
                    "rob["@ + dec_text(self.entries()[k].rob_tag as nat) + "]"@,
                    station_entry_text(self.entries()[k]),
                ),
            decreases self.entries().len() - i,
        {
            let e = self.station_entries[i];
            let mut label: Vec<char> = Vec::new();
            push_str(&mut label, "rob[");
            push_dec(&mut label, e.rob_tag as u64);
            push_str(&mut label, "]");
            let mut val: Vec<char> = Vec::new();
            push_str(&mut val, opcode_str(e.opcode));
            push_str(&mut val, "  rs1=");
            push_operand(&mut val, e.rs1);
            push_str(&mut val, "  rs2=");
            push_operand(&mut val, e.rs2);
            push_str(&mut val, "  ");
            if e.ready {
                push_str(&mut val, "ready");
            } else {
                push_str(&mut val, "blocked");
            }
            assert(val@ =~= station_entry_text(self.entries()[i as int]));
            children.push(leaf_of(&label, &val));
            i = i + 1;
        }
        let mut root: Vec<char> = Vec::new();
        push_str(&mut root, "reservation_station");
        inner_of(&root, children)
    }
}


/// An operand as `{:?}` writes it.
pub open spec fn operand_debug_text(op: Operand) -> Seq<char> {
    match op {
        Operand::Ready(v) => "Ready("@ + dec_text(v as nat) + ")"@,
        Operand::Waiting(t) => "Waiting("@ + dec_text(t as nat) + ")"@,
    }
}

/// A waiting instruction as `{:?}` writes it.
pub open spec fn sr_entry_text(e: SREntry) -> Seq<char> {
    "SREntry { rob_tag: "@ + dec_text(e.rob_tag as nat) + ", opcode: "@ + opcode_name(e.opcode) + ", pc: "@
        + dec_text(e.pc as nat) + ", imm: "@ + idec_text(e.imm as int) + ", rs1: "@ + operand_debug_text(e.rs1)
        + ", rs2: "@ + operand_debug_text(e.rs2) + ", ready: "@ + if e.ready { "true"@ } else { "false"@ }
        + " }"@
}

fn push_operand_debug(out: &mut Vec<char>, op: Operand)
    ensures
        final(out)@ == old(out)@ + operand_debug_text(op),
{
    let ghost start = out@;
    match op {
        Operand::Ready(v) => {
            push_str(out, "Ready(");
            push_dec(out, v as u64);
        },
        Operand::Waiting(t) => {
            push_str(out, "Waiting(");
            push_dec(out, t as u64);
        },
    }
    push_str(out, ")");
    assert(out@ =~= start + operand_debug_text(op));
}

/// Appends a waiting instruction as `{:?}` writes it.
pub fn push_sr_entry(out: &mut Vec<char>, e: &SREntry)
    ensures
        final(out)@ == old(out)@ + sr_entry_text(*e),
{
    let ghost start = out@;
    push_str(out, "SREntry { rob_tag: ");
    push_dec(out, e.rob_tag as u64);
    push_str(out, ", opcode: ");
    push_str(out, opcode_str(e.opcode));
    push_str(out, ", pc: ");
    push_dec(out, e.pc as u64);
    push_str(out, ", imm: ");
    push_idec(out, e.imm);
    push_str(out, ", rs1: ");
    push_operand_debug(out, e.rs1);
    push_str(out, ", rs2: ");
    push_operand_debug(out, e.rs2);
    push_str(out, ", ready: ");
    if e.ready {
        push_str(out, "true");
    } else {
        push_str(out, "false");
    }
    push_str(out, " }");
    assert(out@ =~= start + sr_entry_text(*e));
}

} // verus!
