//! A simple set-associative, write-through cache.
//!
//! The cache has a read port and a write port, not exposed through the
//! interface: requests are sorted onto them by their kind.
//!
//! The read port checks the ways of the addressed set one per cycle. On a
//! hit the value goes back upstream; on a miss a read goes to the next level
//! of memory, and when its value comes back it is filled into the way the
//! eviction policy names and forwarded upstream.
//!
//! The write port looks for the addressed line in the same way and updates it
//! if present; a write miss does not allocate. Either way the write is then
//! passed on to the next level of memory.
use vstd::prelude::*;
use std::collections::{HashMap, VecDeque};
use vstd::arithmetic::power2::{pow2, lemma_pow2_adds, lemma_pow2_pos};
use crate::memory::mem_fabric::{
    MemProtocol, Memory, ReadReq, ReadResp, RequestId, SimpleRW, SimpleRWReq, SimpleRWResp,
    WriteReq, WriteResp,
};
use crate::memory::tree_lru::{TreeLRUPolicy, spec_hit, spec_victim};
use crate::utils::step::{
    Port, PortModel, PortStatus, Step, SteppedProcess, spec_port_start, spec_port_tick,
};

verus! {

broadcast use vstd::std_specs::hash::group_hash_axioms;

/// One cache line: whether it holds data, the tag of its address and the value.
#[derive(Clone, Copy)]
pub struct PTE {
    pub valid: bool,
    pub tag: u32,
    pub val: u32,
}

/// The cache table: `2^d` ways (banks) of `2^k` sets each, bank-major.
pub struct CacheData {
    k: usize,  // log2 number of sets
    d: usize,  // log2 associativity
    table: Vec<PTE>,
}

/// The set an address maps to: its low `k` bits.
pub open spec fn cache_index(addr: u32, k: nat) -> int {
    addr as int % pow2(k) as int
}

/// The tag of an address: the bits above the set index.
pub open spec fn cache_tag(addr: u32, k: nat) -> u32 {
    (addr as int / pow2(k) as int) as u32
}

/// The table position of a set in a bank.
pub open spec fn slot(bank: int, index: int, k: nat) -> int {
    bank * pow2(k) + index
}

/// Bank `bank` of set `index` in a table of `2^k` sets holds the line of `addr`.
pub open spec fn line_matches(entries: Seq<PTE>, k: nat, bank: int, index: int, tag: u32) -> bool {
    entries[slot(bank, index, k)].valid && entries[slot(bank, index, k)].tag == tag
}

/// A position in a table of `a` banks of `b` sets lies in the table.
proof fn lemma_slot_in_table(bank: int, index: int, a: int, b: int)
    requires
        0 <= bank < a,
        0 <= index < b,
    ensures
        0 <= bank * b + index < a * b,
        bank * b + index + 1 <= a * b,
{
    assert(0 <= bank * b + index < a * b) by (nonlinear_arith)
        requires 0 <= bank < a, 0 <= index < b;
}

impl CacheData {
    pub closed spec fn spec_k(&self) -> nat {
        self.k as nat
    }

    pub closed spec fn spec_d(&self) -> nat {
        self.d as nat
    }

    pub closed spec fn entries(&self) -> Seq<PTE> {
        self.table@
    }

    pub open spec fn spec_assoc(&self) -> nat {
        pow2(self.spec_d())
    }

    pub open spec fn spec_bank_size(&self) -> nat {
        pow2(self.spec_k())
    }

    pub open spec fn wf(&self) -> bool {
        &&& self.spec_k() + self.spec_d() < 32
        &&& self.entries().len() == self.spec_assoc() * self.spec_bank_size()
    }

    /// The low `k` bits set.
    fn mask(&self) -> (r: u32)
        requires
            self.wf(),
        ensures
            r == pow2(self.spec_k()) - 1,
    {
        proof {
            vstd::bits::lemma_u32_pow2_no_overflow(self.k as nat);
            vstd::bits::lemma_u32_shl_is_mul(1, self.k as u32);
        }
        (1u32 << self.k as u32).wrapping_sub(1)
    }

    fn assoc(&self) -> (r: usize)
        requires
            self.wf(),
        ensures
            r == self.spec_assoc(),
    {
        proof {
            vstd::bits::lemma_usize_pow2_no_overflow(self.d as nat);
            vstd::bits::lemma_usize_shl_is_mul(1, self.d);
        }
        1 << self.d
    }

    fn bank_size(&self) -> (r: usize)
        requires
            self.wf(),
        ensures
            r == self.spec_bank_size(),
    {
        proof {
            vstd::bits::lemma_usize_pow2_no_overflow(self.k as nat);
            vstd::bits::lemma_usize_shl_is_mul(1, self.k);
        }
        1 << self.k
    }

    /// The set index and tag of an address.
    fn index_and_tag(&self, addr: u32) -> (r: (usize, u32))
        requires
            self.wf(),
        ensures
            r.0 == cache_index(addr, self.spec_k()),
            r.1 == cache_tag(addr, self.spec_k()),
            r.0 < self.spec_bank_size(),
    {
        let mask = self.mask();
        proof {
            vstd::bits::lemma_u32_low_bits_mask_is_mod(addr, self.k as nat);
            vstd::bits::lemma_u32_shr_is_div(addr, self.k as u32);
            lemma_pow2_pos(self.k as nat);
            vstd::bits::lemma_usize_pow2_no_overflow(self.k as nat);
            vstd::bits::lemma_u32_pow2_no_overflow(self.k as nat);
            assert(mask == vstd::bits::low_bits_mask(self.k as nat) as u32);
            assert(mask & addr == addr & mask) by (bit_vector);
            assert(addr & mask == addr % (pow2(self.k as nat) as u32));
            assert((addr % (pow2(self.k as nat) as u32)) as int == addr as int % pow2(self.k as nat) as int);
        }
        ((mask & addr) as usize, addr >> self.k as u32)
    }

    /// Writes a valid line for `addr` holding `val` into bank `bank` of its set.
    fn insert_value(&mut self, addr: u32, bank: u32, val: u32)
        requires
            old(self).wf(),
            bank < old(self).spec_assoc(),
        ensures
            final(self).wf(),
            final(self).spec_k() == old(self).spec_k(),
            final(self).spec_d() == old(self).spec_d(),
            final(self).entries() == old(self).entries().update(
                slot(bank as int, cache_index(addr, old(self).spec_k()), old(self).spec_k()),
                PTE { valid: true, tag: cache_tag(addr, old(self).spec_k()), val },
            ),
    {
        let (index, tag) = self.index_and_tag(addr);
        let bank_size = self.bank_size();
        proof {
            lemma_slot_in_table(bank as int, index as int, self.spec_assoc() as int, bank_size as int);
            vstd::bits::lemma_u32_pow2_no_overflow((self.k + self.d) as nat);
            lemma_pow2_adds(self.d as nat, self.k as nat);
        }
        self.table.set(index + (bank as usize) * bank_size, PTE { valid: true, tag, val });
    }
}

// Read port

/// A read in progress: the request, its set and tag, and the next bank to check.
#[derive(Clone, Copy)]
pub struct ReadCtx {
    pub request_id: RequestId,
    pub addr: u32,
    pub index: usize,
    pub tag: u32,
    pub bank_to_check: usize,
}

pub struct ReadPort;

/// A finished read: `Some((value, bank))` on a hit, `None` on a miss.
pub struct ReadPortResult {
    pub request_id: RequestId,
    pub addr: u32,
    pub val_and_bank: Option<(u32, usize)>,
}

impl SteppedProcess<ReadReq, CacheData> for ReadPort {
    type Ctx = ReadCtx;
    type Result = ReadPortResult;

    open spec fn parent_wf(parent: CacheData) -> bool {
        parent.wf()
    }

    open spec fn ctx_wf(parent: CacheData, ctx: ReadCtx) -> bool {
        &&& ctx.index < parent.spec_bank_size()
        &&& ctx.bank_to_check <= parent.spec_assoc()
    }

    open spec fn spec_create_context(parent: CacheData, task: ReadReq, task_id: u8) -> ReadCtx {
        ReadCtx {
            request_id: task_id,
            addr: task.0,
            index: cache_index(task.0, parent.spec_k()) as usize,
            tag: cache_tag(task.0, parent.spec_k()),
            bank_to_check: 0,
        }
    }

    /// Checks one bank: a hit or the last bank finishes the read.
    open spec fn spec_step(parent: CacheData, ctx: ReadCtx) -> Step<ReadCtx, ReadPortResult> {
        if ctx.bank_to_check >= parent.spec_assoc() {
            Step::Done(ReadPortResult { request_id: ctx.request_id, addr: ctx.addr, val_and_bank: None })
        } else if line_matches(parent.entries(), parent.spec_k(), ctx.bank_to_check as int, ctx.index as int, ctx.tag) {
            let pte = parent.entries()[slot(ctx.bank_to_check as int, ctx.index as int, parent.spec_k())];
            Step::Done(ReadPortResult {
                request_id: ctx.request_id,
                addr: ctx.addr,
                val_and_bank: Some((pte.val, ctx.bank_to_check)),
            })
        } else {
            Step::Continue(ReadCtx { bank_to_check: (ctx.bank_to_check + 1) as usize, ..ctx })
        }
    }

    /// Reading leaves the table as it is.
    open spec fn spec_step_parent(pre: CacheData, ctx: ReadCtx, post: CacheData) -> bool {
        post == pre
    }

    fn create_context(data: &CacheData, task: ReadReq, request_id: u8) -> (r: ReadCtx) {
        let addr = task.0;
        let (index, tag) = data.index_and_tag(addr);
        ReadCtx { request_id, addr, index, tag, bank_to_check: 0 }
    }

    fn step(data: &mut CacheData, ctx: &ReadCtx) -> (r: Step<ReadCtx, ReadPortResult>) {
        if ctx.bank_to_check >= data.assoc() {
            return Step::Done(
                ReadPortResult { request_id: ctx.request_id, addr: ctx.addr, val_and_bank: None },
            );
        }
        let bank_size = data.bank_size();
        proof {
            lemma_slot_in_table(ctx.bank_to_check as int, ctx.index as int, data.spec_assoc() as int, bank_size as int);
            vstd::bits::lemma_u32_pow2_no_overflow((data.k + data.d) as nat);
            lemma_pow2_adds(data.d as nat, data.k as nat);
        }
        let pte = data.table[ctx.bank_to_check * bank_size + ctx.index];
        if pte.valid && pte.tag == ctx.tag {
            return Step::Done(
                ReadPortResult {
                    request_id: ctx.request_id,
                    addr: ctx.addr,
                    val_and_bank: Some((pte.val, ctx.bank_to_check)),
                },
            );
        }
        Step::Continue(ReadCtx { bank_to_check: ctx.bank_to_check + 1, ..*ctx })
    }
}

// Write port

/// A write in progress: the request, its set and tag, and the next bank to check.
#[derive(Clone, Copy)]
pub struct WriteCtx {
    pub request_id: RequestId,
    pub addr: u32,
    pub val: u32,
    pub index: usize,
    pub tag: u32,
    pub bank_to_check: usize,
}

pub struct WritePort;

/// The table after a write step that checks `ctx`'s current bank: a matching
/// line takes the new value.
pub open spec fn spec_write_step_entries(parent: CacheData, ctx: WriteCtx) -> Seq<PTE> {
    let s = slot(ctx.bank_to_check as int, ctx.index as int, parent.spec_k());
    if ctx.bank_to_check < parent.spec_assoc()
        && line_matches(parent.entries(), parent.spec_k(), ctx.bank_to_check as int, ctx.index as int, ctx.tag) {
        parent.entries().update(s, PTE { val: ctx.val, ..parent.entries()[s] })
    } else {
        parent.entries()
    }
}

/// A write never allocates: a step of the write port changes at most the value
/// of a line that was already valid with the written tag, and no line's
/// validity or tag.
pub proof fn law_write_never_allocates(parent: CacheData, ctx: WriteCtx)
    requires
        parent.wf(),
        ctx.index < parent.spec_bank_size(),
    ensures
        spec_write_step_entries(parent, ctx).len() == parent.entries().len(),
        forall|i: int| 0 <= i < parent.entries().len() ==> {
            &&& (#[trigger] spec_write_step_entries(parent, ctx)[i]).valid == parent.entries()[i].valid
            &&& spec_write_step_entries(parent, ctx)[i].tag == parent.entries()[i].tag
        },
        forall|i: int| 0 <= i < parent.entries().len() && !parent.entries()[i].valid
            ==> #[trigger] spec_write_step_entries(parent, ctx)[i] == parent.entries()[i],
{
    if ctx.bank_to_check < parent.spec_assoc() {
        lemma_slot_in_table(
            ctx.bank_to_check as int,
            ctx.index as int,
            parent.spec_assoc() as int,
            parent.spec_bank_size() as int,
        );
    }
}

/// Writes go through: whenever the write port finishes a write, hit or miss,
/// what it hands on for the next level is that write.
pub proof fn law_write_through(parent: CacheData, ctx: WriteCtx)
    ensures
        <WritePort as SteppedProcess<WriteReq, CacheData>>::spec_step(parent, ctx) matches Step::Done(r)
            ==> r == (ctx.request_id, WriteReq(ctx.addr, ctx.val)),
{
}

/// A read sees a write: once the write port's step has updated the line of an
/// address, the read port's step at that line answers with the written value.
pub proof fn law_read_sees_write(parent: CacheData, w: WriteCtx, post: CacheData, r: ReadCtx)
    requires
        parent.wf(),
        w.index < parent.spec_bank_size(),
        w.bank_to_check < parent.spec_assoc(),
        line_matches(parent.entries(), parent.spec_k(), w.bank_to_check as int, w.index as int, w.tag),
        <WritePort as SteppedProcess<WriteReq, CacheData>>::spec_step_parent(parent, w, post),
        r.index == w.index,
        r.tag == w.tag,
        r.bank_to_check == w.bank_to_check,
    ensures
        <ReadPort as SteppedProcess<ReadReq, CacheData>>::spec_step(post, r) == Step::<ReadCtx, ReadPortResult>::Done(
            ReadPortResult { request_id: r.request_id, addr: r.addr, val_and_bank: Some((w.val, w.bank_to_check)) },
        ),
{
    lemma_slot_in_table(
        w.bank_to_check as int,
        w.index as int,
        parent.spec_assoc() as int,
        parent.spec_bank_size() as int,
    );
}

// The result carries the downstream write: always produced, for write-through.
// The cache's tick dispatches it downstream.
impl SteppedProcess<WriteReq, CacheData> for WritePort {
    type Ctx = WriteCtx;
    type Result = (RequestId, WriteReq);

    open spec fn parent_wf(parent: CacheData) -> bool {
        parent.wf()
    }

    open spec fn ctx_wf(parent: CacheData, ctx: WriteCtx) -> bool {
        &&& ctx.index < parent.spec_bank_size()
        &&& ctx.bank_to_check <= parent.spec_assoc()
    }

    open spec fn spec_create_context(parent: CacheData, task: WriteReq, task_id: u8) -> WriteCtx {
        WriteCtx {
            request_id: task_id,
            addr: task.0,
            val: task.1,
            index: cache_index(task.0, parent.spec_k()) as usize,
            tag: cache_tag(task.0, parent.spec_k()),
            bank_to_check: 0,
        }
    }

    /// Checks one bank: a hit (after updating the line) or the last bank
    /// finishes the write.
    open spec fn spec_step(parent: CacheData, ctx: WriteCtx) -> Step<WriteCtx, (RequestId, WriteReq)> {
        if ctx.bank_to_check >= parent.spec_assoc()
            || line_matches(parent.entries(), parent.spec_k(), ctx.bank_to_check as int, ctx.index as int, ctx.tag) {
            Step::Done((ctx.request_id, WriteReq(ctx.addr, ctx.val)))
        } else {
            Step::Continue(WriteCtx { bank_to_check: (ctx.bank_to_check + 1) as usize, ..ctx })
        }
    }

    open spec fn spec_step_parent(pre: CacheData, ctx: WriteCtx, post: CacheData) -> bool {
        &&& post.spec_k() == pre.spec_k()
        &&& post.spec_d() == pre.spec_d()
        &&& post.entries() == spec_write_step_entries(pre, ctx)
    }

    fn create_context(data: &CacheData, task: WriteReq, request_id: u8) -> (r: WriteCtx) {
        let (index, tag) = data.index_and_tag(task.0);
        WriteCtx { request_id, addr: task.0, val: task.1, index, tag, bank_to_check: 0 }
    }

    fn step(data: &mut CacheData, ctx: &WriteCtx) -> (r: Step<WriteCtx, (RequestId, WriteReq)>) {
        let downstream = (ctx.request_id, WriteReq(ctx.addr, ctx.val));

        if ctx.bank_to_check >= data.assoc() {
            return Step::Done(downstream);
        }
        let bank_size = data.bank_size();
        proof {
            lemma_slot_in_table(ctx.bank_to_check as int, ctx.index as int, data.spec_assoc() as int, bank_size as int);
            vstd::bits::lemma_u32_pow2_no_overflow((data.k + data.d) as nat);
            lemma_pow2_adds(data.d as nat, data.k as nat);
        }
        let idx = ctx.bank_to_check * bank_size + ctx.index;
        let pte = data.table[idx];
        if pte.valid && pte.tag == ctx.tag {
            data.table.set(idx, PTE { val: ctx.val, ..pte });
            return Step::Done(downstream);
        }

        Step::Continue(WriteCtx { bank_to_check: ctx.bank_to_check + 1, ..*ctx })
    }
}

/// Chooses which way of a set to replace on a fill.
pub trait EvictionPolicy {
    /// The number of ways per set the policy tracks.
    spec fn spec_ways(&self) -> nat;

    /// The number of sets the policy tracks.
    spec fn spec_lines(&self) -> nat;

    spec fn policy_wf(&self) -> bool;

    fn new(assoc: u32, lines_per_bank: u32) -> (r: Self) where Self: Sized
        requires
            assoc < 32,
        ensures
            r.policy_wf(),
            r.spec_ways() == pow2(assoc as nat),
            r.spec_lines() == lines_per_bank,
    ;

    /// Records an access to way `bank` of set `line`.
    fn log_hit(&mut self, line: u32, bank: u32)
        requires
            old(self).policy_wf(),
            line < old(self).spec_lines(),
            bank < old(self).spec_ways(),
        ensures
            final(self).policy_wf(),
            final(self).spec_ways() == old(self).spec_ways(),
            final(self).spec_lines() == old(self).spec_lines(),
    ;

    /// The way of set `line` to replace next.
    fn get_eviction_id(&mut self, line: u32) -> (r: u32)
        requires
            old(self).policy_wf(),
            line < old(self).spec_lines(),
        ensures
            final(self).policy_wf(),
            final(self).spec_ways() == old(self).spec_ways(),
            final(self).spec_lines() == old(self).spec_lines(),
            r < final(self).spec_ways(),
    ;
}

/// Bank `b` is the first bank of set `index` that holds no valid line.
pub open spec fn is_first_free_bank(data: CacheData, index: int, b: int) -> bool {
    let k = data.spec_k();
    &&& 0 <= b < data.spec_assoc()
    &&& !data.entries()[slot(b, index, k)].valid
    &&& forall|j: int| 0 <= j < b ==> #[trigger] data.entries()[slot(j, index, k)].valid
}

/// A read that missed and waits for the next level of memory: the id it came
/// with from upstream, its address and its set.
pub struct PendingRead {
    pub upstream_request_id: RequestId,
    pub addr: u32,
    pub index: u32,
}

/// A write-through cache in front of the memory `D`.
pub struct SimpleCache<D: Memory<SimpleRW>> {
    data: CacheData,
    read_port: Port<ReadReq, ReadPort, CacheData>,
    write_port: Port<WriteReq, WritePort, CacheData>,
    id_seq: RequestId,
    outbox: VecDeque<SimpleRWResp>,
    downstream: D,
    pending_buffer: HashMap<RequestId, PendingRead>,
    pending_buffer_size: usize,
    eviction_policy: TreeLRUPolicy,
    received: Ghost<Seq<SimpleRWReq>>,
}

/// What a tick leaves of the read port's finished result, the upstream
/// responses, the pending misses and the policy trees, when `sent_id` is the id
/// the next level returns for a miss: (read outbox, outbox, pending, trees).
pub open spec fn spec_take_read_result(
    read_out: Seq<ReadPortResult>,
    outbox: Seq<SimpleRWResp>,
    pending: Map<RequestId, PendingRead>,
    trees: Seq<Seq<bool>>,
    k: nat,
    d: nat,
    sent_id: RequestId,
) -> (Seq<ReadPortResult>, Seq<SimpleRWResp>, Map<RequestId, PendingRead>, Seq<Seq<bool>>) {
    if read_out.len() == 0 {
        (read_out, outbox, pending, trees)
    } else {
        let r = read_out[0];
        let index = cache_index(r.addr, k);
        match r.val_and_bank {
            Some((val, bank)) => (
                read_out.drop_first(),
                outbox.push(SimpleRWResp::Read(ReadResp(r.request_id, val))),
                pending,
                trees.update(index, spec_hit(trees[index], bank as u32, d)),
            ),
            None => (
                read_out.drop_first(),
                outbox,
                pending.insert(sent_id, PendingRead { upstream_request_id: r.request_id, addr: r.addr, index: index as u32 }),
                trees,
            ),
        }
    }
}

/// What a reply from the next level does: a read response for a pending miss
/// fills the line into the policy's victim way, marks that way used, answers
/// upstream and retires the miss. Anything else changes nothing.
/// (entries, outbox, pending, trees)
pub open spec fn spec_take_reply(
    reply: Option<SimpleRWResp>,
    entries: Seq<PTE>,
    outbox: Seq<SimpleRWResp>,
    pending: Map<RequestId, PendingRead>,
    trees: Seq<Seq<bool>>,
    k: nat,
    d: nat,
) -> (Seq<PTE>, Seq<SimpleRWResp>, Map<RequestId, PendingRead>, Seq<Seq<bool>>) {
    match reply {
        Some(SimpleRWResp::Read(ReadResp(id, val))) => if pending.contains_key(id) {
            let pr = pending[id];
            let bank = spec_victim(trees[pr.index as int], d);
            (
                entries.update(
                    slot(bank as int, cache_index(pr.addr, k), k),
                    PTE { valid: true, tag: cache_tag(pr.addr, k), val },
                ),
                outbox.push(SimpleRWResp::Read(ReadResp(pr.upstream_request_id, val))),
                pending.remove(id),
                trees.update(pr.index as int, spec_hit(trees[pr.index as int], bank, d)),
            )
        } else {
            (entries, outbox, pending, trees)
        },
        _ => (entries, outbox, pending, trees),
    }
}

impl<D: Memory<SimpleRW>> SimpleCache<D> {
    pub closed spec fn data(&self) -> CacheData {
        self.data
    }

    pub closed spec fn read_model(&self) -> PortModel<ReadReq, ReadPort, CacheData> {
        self.read_port@
    }

    pub closed spec fn write_model(&self) -> PortModel<WriteReq, WritePort, CacheData> {
        self.write_port@
    }

    /// Responses ready for upstream, oldest first.
    pub closed spec fn outbox(&self) -> Seq<SimpleRWResp> {
        self.outbox@
    }

    /// Misses waiting for the next level, by the id it gave them.
    pub closed spec fn pending(&self) -> Map<RequestId, PendingRead> {
        self.pending_buffer@
    }

    /// The id the next request will get.
    pub closed spec fn next_id(&self) -> RequestId {
        self.id_seq
    }

    /// The eviction policy's direction bits for every set.
    pub closed spec fn trees(&self) -> Seq<Seq<bool>> {
        self.eviction_policy.trees()
    }

    /// The next level of memory.
    pub closed spec fn downstream(&self) -> D {
        self.downstream
    }

    pub closed spec fn wf(&self) -> bool {
        let k = self.data.spec_k();
        &&& self.data.wf()
        &&& self.read_port.ready_for(self.data)
        &&& self.write_port.ready_for(self.data)
        &&& self.downstream.mem_inv()
        &&& self.eviction_policy.wf()
        &&& self.eviction_policy.spec_lines() == pow2(k)
        &&& self.eviction_policy.spec_assoc() == self.data.spec_d()
        &&& forall|i: int| 0 <= i < self.read_port@.outbox.len()
            ==> ((#[trigger] self.read_port@.outbox[i]).val_and_bank matches Some((v, b))
                ==> b < self.data.spec_assoc())
        &&& forall|id: RequestId| #[trigger] self.pending_buffer@.contains_key(id)
            ==> self.pending_buffer@[id].index < pow2(k)
    }

    /// A cache of `2^c` lines in `2^d` ways in front of `downstream`.
    pub fn new(c: usize, d: usize, downstream: D) -> (r: Self)
        requires
            d <= c,
            c < 32,
            downstream.mem_inv(),
        ensures
            r.wf(),
            r.data().spec_k() == c - d,
            r.data().spec_d() == d,
            r.data().entries() == Seq::new(pow2(c as nat), |i: int| PTE { valid: false, tag: 0, val: 0 }),
            r.read_model() == (PortModel::<ReadReq, ReadPort, CacheData> {
                status: PortStatus::Idle,
                inbox: Seq::empty(),
                outbox: Seq::empty(),
            }),
            r.write_model() == (PortModel::<WriteReq, WritePort, CacheData> {
                status: PortStatus::Idle,
                inbox: Seq::empty(),
                outbox: Seq::empty(),
            }),
            r.outbox() == Seq::<SimpleRWResp>::empty(),
            r.pending() == Map::<RequestId, PendingRead>::empty(),
            r.next_id() == 0,
            r.trees() == Seq::new(
                pow2((c - d) as nat),
                |l: int| Seq::new((pow2(d as nat) - 1) as nat, |i: int| false),
            ),
            r.downstream() == downstream,
            r.requests() == Seq::<SimpleRWReq>::empty(),
    {
        let k = c - d;
        proof {
            vstd::bits::lemma_usize_pow2_no_overflow(c as nat);
            vstd::bits::lemma_usize_shl_is_mul(1, c);
            vstd::bits::lemma_u32_pow2_no_overflow(k as nat);
            vstd::bits::lemma_u32_shl_is_mul(1, k as u32);
            lemma_pow2_adds(d as nat, k as nat);
        }
        let n: usize = 1 << c;
        let mut table: Vec<PTE> = Vec::new();
        let mut i: usize = 0;
        while i < n
            invariant
                i <= n,
                table@ == Seq::new(i as nat, |j: int| PTE { valid: false, tag: 0, val: 0 }),
            decreases n - i,
        {
            table.push(PTE { valid: false, tag: 0, val: 0 });
            i = i + 1;
            assert(table@ =~= Seq::new(i as nat, |j: int| PTE { valid: false, tag: 0, val: 0 }));
        }
        let lines: u32 = 1u32 << k as u32;
        let r = Self {
            data: CacheData { k, d, table },
            read_port: Port::new(),
            write_port: Port::new(),
            id_seq: 0,
            outbox: VecDeque::new(),
            downstream,
            pending_buffer: HashMap::new(),
            pending_buffer_size: 16,
            eviction_policy: TreeLRUPolicy::new(d as u32, lines),
            received: Ghost(Seq::empty()),
        };
        r
    }

    /// Places a valid line for `addr` holding `val` in the first bank of its
    /// set that holds no valid line.
    pub fn seed(&mut self, addr: u32, val: u32)
        requires
            old(self).wf(),
            exists|b: int| 0 <= b < old(self).data().spec_assoc() && !(#[trigger] old(self).data().entries()[slot(
                b,
                cache_index(addr, old(self).data().spec_k()),
                old(self).data().spec_k(),
            )]).valid,
        ensures
            final(self).wf(),
            exists|b: int|
                #[trigger] is_first_free_bank(old(self).data(), cache_index(addr, old(self).data().spec_k()), b)
                && final(self).data().entries() == old(self).data().entries().update(
                    slot(b, cache_index(addr, old(self).data().spec_k()), old(self).data().spec_k()),
                    PTE { valid: true, tag: cache_tag(addr, old(self).data().spec_k()), val },
                ),
            final(self).data().spec_k() == old(self).data().spec_k(),
            final(self).data().spec_d() == old(self).data().spec_d(),
            final(self).read_model() == old(self).read_model(),
            final(self).write_model() == old(self).write_model(),
            final(self).outbox() == old(self).outbox(),
            final(self).pending() == old(self).pending(),
            final(self).next_id() == old(self).next_id(),
            final(self).trees() == old(self).trees(),
            final(self).downstream() == old(self).downstream(),
            final(self).requests() == old(self).requests(),
    {
        let (index, tag) = self.data.index_and_tag(addr);
        let bank_size = self.data.bank_size();
        let assoc = self.data.assoc();
        let ghost k = self.data.spec_k();
        let mut i: usize = 0;
        while i < assoc
            invariant
                *self == *old(self),
                self.wf(),
                assoc == self.data.spec_assoc(),
                bank_size == self.data.spec_bank_size(),
                index == cache_index(addr, k),
                index < bank_size,
                tag == cache_tag(addr, k),
                k == self.data.spec_k(),
                i <= assoc,
                exists|b: int| i <= b < assoc && !(#[trigger] self.data.entries()[slot(b, index as int, k)]).valid,
                forall|j: int| 0 <= j < i ==> #[trigger] self.data.entries()[slot(j, index as int, k)].valid,
            decreases assoc - i,
        {
            proof {
                lemma_slot_in_table(i as int, index as int, assoc as int, bank_size as int);
                vstd::bits::lemma_u32_pow2_no_overflow((self.data.k + self.data.d) as nat);
                lemma_pow2_adds(self.data.d as nat, self.data.k as nat);
            }
            let pos = i * bank_size + index;
            let pte = self.data.table[pos];
            if !pte.valid {
                self.data.table.set(pos, PTE { valid: true, tag, val });
                proof { assert(is_first_free_bank(old(self).data(), index as int, i as int)); }
                return;
            }
            i = i + 1;
        }
        proof { assert(false); }
    }
}

/// A boxed memory behaves as the memory in the box.
impl<M: Memory<SimpleRW>> Memory<SimpleRW> for Box<M> {
    open spec fn mem_inv(&self) -> bool {
        (**self).mem_inv()
    }

    open spec fn obeys_request_log() -> bool {
        M::obeys_request_log()
    }

    open spec fn requests(&self) -> Seq<SimpleRWReq> {
        (**self).requests()
    }

    /// Sending to the box sends to the memory inside.
    open spec fn send_step(&self, next: &Self, req: SimpleRWReq, id: RequestId) -> bool {
        (**self).send_step(&**next, req, id)
    }

    /// Taking a response from the box takes it from the memory inside.
    open spec fn recv_step(&self, next: &Self, r: Option<SimpleRWResp>) -> bool {
        (**self).recv_step(&**next, r)
    }

    /// A cycle of the box is a cycle of the memory inside.
    open spec fn tick_step(&self, next: &Self) -> bool {
        (**self).tick_step(&**next)
    }

    fn send(&mut self, req: SimpleRWReq) -> (id: RequestId) {
        (**self).send(req)
    }

    fn recv(&mut self) -> (r: Option<SimpleRWResp>) {
        (**self).recv()
    }

    fn tick(&mut self) {
        (**self).tick()
    }
}

/// What the next level has been sent is stated only of a next level that keeps
/// its request log (`obeys_request_log`).
///
/// One tick of a cache, from `pre` to `post`, when the next level gives
/// `sent_id` to a miss sent to it and `reply` is what it answers (see `tick`):
/// `reply` is what taking a response from the next level gives, in the state
/// that the miss (if any) left it in.
pub open spec fn spec_tick_relation<D: Memory<SimpleRW>>(
    pre: SimpleCache<D>,
    post: SimpleCache<D>,
    sent_id: RequestId,
    reply: Option<SimpleRWResp>,
) -> bool {
    let k = pre.data().spec_k();
    let d = pre.data().spec_d();
    let rp = spec_port_tick(pre.data(), pre.read_model());
    let wp = spec_port_tick(pre.data(), pre.write_model());
    let e1 = match spec_port_start(pre.data(), pre.write_model()).0 {
        PortStatus::Idle => pre.data().entries(),
        PortStatus::InProgress(c) => spec_write_step_entries(pre.data(), c),
    };
    let (rout, out1, pend1, trees1) = spec_take_read_result(
        rp.outbox, pre.outbox(), pre.pending(), pre.trees(), k, d, sent_id);
    let (e2, out2, pend2, trees2) = spec_take_reply(reply, e1, out1, pend1, trees1, k, d);
    let miss = rp.outbox.len() > 0 && rp.outbox[0].val_and_bank is None;
    let reqs1 = if miss {
        pre.downstream().requests().push(SimpleRWReq::Read(ReadReq(rp.outbox[0].addr)))
    } else {
        pre.downstream().requests()
    };
    &&& post.data().spec_k() == k
    &&& post.data().spec_d() == d
    &&& post.data().entries() == e2
    &&& post.read_model() == (PortModel { outbox: rout, ..rp })
    &&& post.pending() == pend2
    &&& post.trees() == trees2
    &&& post.next_id() == pre.next_id()
    &&& if wp.outbox.len() > 0 {
        &&& post.write_model() == (PortModel { outbox: wp.outbox.drop_first(), ..wp })
        &&& post.outbox() == out2.push(SimpleRWResp::Write(WriteResp(wp.outbox[0].0)))
        &&& D::obeys_request_log() ==> post.downstream().requests() == reqs1.push(SimpleRWReq::Write(wp.outbox[0].1))
    } else {
        &&& post.write_model() == wp
        &&& post.outbox() == out2
        &&& D::obeys_request_log() ==> post.downstream().requests() == reqs1
    }
    &&& exists|d1: D, d2: D| {
        &&& (if miss {
            &&& pre.downstream().send_step(&d1, SimpleRWReq::Read(ReadReq(rp.outbox[0].addr)), sent_id)
            &&& D::obeys_request_log() ==> d1.requests() == reqs1
        } else {
            d1 == pre.downstream()
        })
        &&& #[trigger] d1.recv_step(&d2, reply)
        &&& d2.requests() == d1.requests()
        &&& if wp.outbox.len() == 0 {
            post.downstream() == d2
        } else {
            exists|wid: RequestId| #[trigger] d2.send_step(
                &post.downstream(),
                SimpleRWReq::Write(wp.outbox[0].1),
                wid,
            )
        }
    }
}

impl<D: Memory<SimpleRW>> Memory<SimpleRW> for SimpleCache<D> {
    open spec fn mem_inv(&self) -> bool {
        self.wf()
    }

    open spec fn obeys_request_log() -> bool {
        true
    }

    closed spec fn requests(&self) -> Seq<SimpleRWReq> {
        self.received@
    }

    /// Taking a response gives the oldest one in the outbox, and changes nothing else.
    open spec fn recv_step(&self, next: &Self, r: Option<SimpleRWResp>) -> bool {
        &&& if self.outbox().len() == 0 {
            r is None && next.outbox() == self.outbox()
        } else {
            r == Some(self.outbox()[0]) && next.outbox() == self.outbox().drop_first()
        }
        &&& next.data() == self.data()
        &&& next.read_model() == self.read_model()
        &&& next.write_model() == self.write_model()
        &&& next.pending() == self.pending()
        &&& next.next_id() == self.next_id()
        &&& next.trees() == self.trees()
        &&& next.downstream() == self.downstream()
    }

    /// A cycle is one of `spec_tick_relation`, for the id and the reply that the
    /// next level gives.
    open spec fn tick_step(&self, next: &Self) -> bool {
        exists|sent_id: RequestId, reply: Option<SimpleRWResp>|
            #[trigger] spec_tick_relation(*self, *next, sent_id, reply)
    }

    /// Sending hands the request to the port of its kind under the next id,
    /// and changes nothing else.
    open spec fn send_step(&self, next: &Self, req: SimpleRWReq, id: RequestId) -> bool {
        &&& id == self.next_id()
        &&& next.next_id() == self.next_id().wrapping_add(1)
        &&& match req {
            SimpleRWReq::Read(r) => {
                &&& next.read_model() == (PortModel { inbox: self.read_model().inbox.push((r, id)), ..self.read_model() })
                &&& next.write_model() == self.write_model()
            },
            SimpleRWReq::Write(w) => {
                &&& next.write_model() == (PortModel { inbox: self.write_model().inbox.push((w, id)), ..self.write_model() })
                &&& next.read_model() == self.read_model()
            },
        }
        &&& next.data() == self.data()
        &&& next.outbox() == self.outbox()
        &&& next.pending() == self.pending()
        &&& next.trees() == self.trees()
        &&& next.downstream() == self.downstream()
    }

    /// Hands the request to the port of its kind under the next id.
    fn send(&mut self, req: SimpleRWReq) -> (id: RequestId)
        ensures
            id == old(self).next_id(),
            final(self).next_id() == old(self).next_id().wrapping_add(1),
            match req {
                SimpleRWReq::Read(r) => {
                    &&& final(self).read_model() == (PortModel {
                        inbox: old(self).read_model().inbox.push((r, id)),
                        ..old(self).read_model()
                    })
                    &&& final(self).write_model() == old(self).write_model()
                },
                SimpleRWReq::Write(w) => {
                    &&& final(self).write_model() == (PortModel {
                        inbox: old(self).write_model().inbox.push((w, id)),
                        ..old(self).write_model()
                    })
                    &&& final(self).read_model() == old(self).read_model()
                },
            },
            final(self).data() == old(self).data(),
            final(self).outbox() == old(self).outbox(),
            final(self).pending() == old(self).pending(),
            final(self).trees() == old(self).trees(),
            final(self).downstream() == old(self).downstream(),
    {
        let ghost r = req;
        let id = self.id_seq;
        self.id_seq = self.id_seq.wrapping_add(1);
        match req {
            SimpleRWReq::Read(req) => self.read_port.send(req, id),
            SimpleRWReq::Write(req) => self.write_port.send(req, id),
        }
        proof { self.received@ = self.received@.push(r); }
        id
    }

    /// Takes the oldest response.
    fn recv(&mut self) -> (r: Option<SimpleRWResp>)
        ensures
            old(self).outbox().len() == 0 ==> r is None && final(self).outbox() == old(self).outbox(),
            old(self).outbox().len() > 0 ==> r == Some(old(self).outbox()[0])
                && final(self).outbox() == old(self).outbox().drop_first(),
            final(self).data() == old(self).data(),
            final(self).read_model() == old(self).read_model(),
            final(self).write_model() == old(self).write_model(),
            final(self).pending() == old(self).pending(),
            final(self).next_id() == old(self).next_id(),
            final(self).trees() == old(self).trees(),
            final(self).downstream() == old(self).downstream(),
    {
        self.outbox.pop_front()
    }

    /// One cycle: each port takes a step; a finished read is answered (hit) or
    /// sent on to the next level (miss); one reply from the next level is taken
    /// and, if it answers a pending miss, filled; a finished write is sent on to
    /// the next level and acknowledged upstream. A read response from the next
    /// level that answers no pending miss, and a write acknowledgement, are
    /// dropped and leave the cache as it was (`spec_take_reply`); the cache has
    /// no way to refuse them, since the next level decides what it answers.
    fn tick(&mut self)
        ensures
            exists|sent_id: RequestId, reply: Option<SimpleRWResp>|
                #[trigger] spec_tick_relation(*old(self), *final(self), sent_id, reply),
            final(self).requests() == old(self).requests(),
    {
        let ghost pre = *self;
        self.read_port.tick(&mut self.data);
        self.write_port.tick(&mut self.data);
        let ghost mid = *self;
        let ghost mut sent_id: RequestId = 0;
        let ghost mut d_sent: D = pre.downstream();
        let ghost mut wid_g: RequestId = 0;
        proof {
            assert(mid.read_model() == spec_port_tick(pre.data(), pre.read_model()));
            assert(mid.write_model() == spec_port_tick(pre.data(), pre.write_model()));
            assert(mid.data().entries() == match spec_port_start(pre.data(), pre.write_model()).0 {
                PortStatus::Idle => pre.data().entries(),
                PortStatus::InProgress(c) => spec_write_step_entries(pre.data(), c),
            });
        }

        // check if the read port has any results
        if let Some(read_result) = self.read_port.pop() {
            // we recompute the index instead of storing it in the
            //  ReadPortResult, since it is derivable, and would just
            //  bloat otherwise.
            let (index, _tag) = self.data.index_and_tag(read_result.addr);
            proof { vstd::bits::lemma_u32_pow2_no_overflow(self.data.spec_k()); }
            let index = index as u32;
            match read_result.val_and_bank {
                Some((val, bank)) => {
                    self.outbox.push_back(SimpleRWResp::Read(ReadResp(read_result.request_id, val)));
                    let ghost t0 = self.eviction_policy.trees();
                    self.eviction_policy.log_hit(index, bank as u32);
                    proof {
                        assert(self.eviction_policy.trees() == t0.update(index as int, spec_hit(t0[index as int], bank as u32, self.data.spec_d())));
                        assert(t0 == mid.trees());
                    }
                },
                None => {
                    let ghost ds0 = self.downstream;
                    let downstream_request_id = self.downstream.send(
                        SimpleRWReq::Read(ReadReq(read_result.addr)),
                    );
                    proof {
                        sent_id = downstream_request_id;
                        assert(ds0 == pre.downstream());
                        d_sent = self.downstream;
                        assert(pre.downstream().send_step(&d_sent, SimpleRWReq::Read(ReadReq(read_result.addr)), sent_id));
                    }
                    self.pending_buffer.insert(
                        downstream_request_id,
                        PendingRead {
                            upstream_request_id: read_result.request_id,
                            addr: read_result.addr,
                            index,
                        },
                    );
                },
            }
        }

        let ghost mid2 = *self;
        proof {
            let rp = mid.read_model();
            let (rout, out1, pend1, trees1) = spec_take_read_result(
                rp.outbox, mid.outbox(), mid.pending(), mid.trees(), mid.data().spec_k(), mid.data().spec_d(), sent_id);
            assert(mid2.read_model() == (PortModel { outbox: rout, ..rp }));
            assert(mid2.outbox() == out1);
            assert(mid2.pending() == pend1);
            assert(mid2.trees() == trees1);
        }
        // check if the downstream memory returned any responses
        let ghost ds1 = self.downstream;
        let reply = self.downstream.recv();
        let ghost ds2 = self.downstream;
        let ghost g_reply = reply;
        if let Some(message) = reply {
            // downstream write acknowledgements are ignored; so is a read
            // response that answers no pending miss
            if let SimpleRWResp::Read(ReadResp(id, val)) = message {
                if let Some(pr) = self.pending_buffer.remove(&id) {
                    let bank = self.eviction_policy.get_eviction_id(pr.index);
                    self.data.insert_value(pr.addr, bank, val);
                    self.eviction_policy.log_hit(pr.index, bank);
                    self.outbox.push_back(SimpleRWResp::Read(ReadResp(pr.upstream_request_id, val)));
                }
            }
        }

        let ghost mid3 = *self;
        proof {
            let (e2, out2, pend2, trees2) = spec_take_reply(g_reply, mid2.data().entries(), mid2.outbox(), mid2.pending(), mid2.trees(), mid2.data().spec_k(), mid2.data().spec_d());
            assert(mid3.data().entries() == e2);
            assert(mid3.outbox() == out2);
            assert(mid3.pending() == pend2);
            assert(mid3.trees() == trees2);
        }
        // check if the write port has any results
        if let Some((id, downstream_req)) = self.write_port.pop() {
            let wid = self.downstream.send(SimpleRWReq::Write(downstream_req));
            proof {
                wid_g = wid;
                assert(ds2.send_step(&self.downstream, SimpleRWReq::Write(downstream_req), wid_g));
            }
            self.outbox.push_back(SimpleRWResp::Write(WriteResp(id)));
        }
        proof {
            assert(ds1.recv_step(&ds2, g_reply));
            let rp = spec_port_tick(pre.data(), pre.read_model());
            let wp = spec_port_tick(pre.data(), pre.write_model());
            if rp.outbox.len() > 0 && rp.outbox[0].val_and_bank is None {
                assert(d_sent == ds1);
                assert(pre.downstream().send_step(&ds1, SimpleRWReq::Read(ReadReq(rp.outbox[0].addr)), sent_id));
            }
            if wp.outbox.len() > 0 {
                assert(self.downstream() == self.downstream);
                assert(ds2.send_step(&self.downstream(), SimpleRWReq::Write(wp.outbox[0].1), wid_g));
            }
        }
        assert(spec_tick_relation(pre, *self, sent_id, g_reply));
    }
}

} // verus!
