//! A reorder buffer on a ring buffer: entries are allocated in program order,
//! completed in any order and retired from the head in program order.
use vstd::prelude::*;
use crate::circular_buffer::{CircularBuffer, ring_offset};
use crate::diag::{inner_of, leaf_is, leaf_of, DiagNode, Diagnosable};
use crate::isa::{InstResult, InstrFormat};
use crate::utils::text::{dec_text, hex8_text, push_dec, push_hex8, push_str};
use crate::simple_ooo::{IdRs, RobTag, TaggedResult};

verus! {

/// An instruction in flight: where its result goes, and the result once known.
#[derive(Clone, Copy)]
pub struct SROBEntry {
    pub _pc: u32,
    pub rd: u8,
    pub format: InstrFormat,
    pub result: Option<u32>,
    pub ready: bool,
}

pub struct SimpleReorderBuffer {
    buffer: CircularBuffer<SROBEntry>,
}

impl SimpleReorderBuffer {
    /// The entries, oldest first.
    pub closed spec fn entries(&self) -> Seq<SROBEntry> {
        self.buffer@
    }

    /// The tag of the oldest entry.
    pub closed spec fn head(&self) -> int {
        self.buffer.spec_head()
    }

    pub closed spec fn capacity(&self) -> nat {
        self.buffer.spec_capacity()
    }

    /// The tag the entry at position `i` from the head has.
    pub open spec fn tag_at(&self, i: int) -> int {
        (self.head() + i) % (self.capacity() as int)
    }

    /// A tag names an entry in the buffer.
    pub open spec fn is_live(&self, tag: int) -> bool {
        &&& 0 <= tag < self.capacity()
        &&& ring_offset(self.head(), tag, self.capacity() as int) < self.entries().len()
    }

    /// The entry a live tag names.
    pub open spec fn entry(&self, tag: int) -> SROBEntry {
        self.entries()[ring_offset(self.head(), tag, self.capacity() as int)]
    }

    pub closed spec fn wf(&self) -> bool {
        &&& self.buffer.wf()
        &&& forall|i: int| 0 <= i < self.buffer@.len()
            ==> ((#[trigger] self.buffer@[i]).ready <==> self.buffer@[i].result is Some)
    }

    pub fn new(capacity: usize) -> (r: Self)
        ensures
            r.wf(),
            r.entries() == Seq::<SROBEntry>::empty(),
            r.capacity() == capacity,
            r.head() == 0,
    {
        Self { buffer: CircularBuffer::new(capacity) }
    }

    /// The buffer is full: the frontend must stop.
    pub fn stall(&self) -> (r: bool)
        requires
            self.wf(),
        ensures
            r == (self.entries().len() == self.capacity()),
    {
        self.buffer.is_full()
    }

    /// Allocates an entry for a decoded instruction and returns its tag.
    pub fn enqueue(&mut self, instr: &IdRs) -> (tag: usize)
        requires
            old(self).wf(),
            old(self).entries().len() < old(self).capacity(),
        ensures
            final(self).wf(),
            tag == old(self).tag_at(old(self).entries().len() as int),
            final(self).entries() == old(self).entries().push(SROBEntry {
                _pc: instr.pc,
                rd: instr.instr.rd,
                format: instr.instr.format,
                result: None,
                ready: false,
            }),
            final(self).head() == old(self).head(),
            final(self).capacity() == old(self).capacity(),
    {
        self.buffer.push(SROBEntry {
            _pc: instr.pc,
            rd: instr.instr.rd,
            format: instr.instr.format,
            ready: false,
            result: None,
        })
    }

    /// Marks the entry under `rob_tag` complete with `result`.
    pub fn update(&mut self, rob_tag: RobTag, result: u32)
        requires
            old(self).wf(),
            old(self).is_live(rob_tag as int),
        ensures
            final(self).wf(),
            final(self).entries() == old(self).entries().update(
                ring_offset(old(self).head(), rob_tag as int, old(self).capacity() as int),
                SROBEntry { result: Some(result), ready: true, ..old(self).entry(rob_tag as int) },
            ),
            final(self).head() == old(self).head(),
            final(self).capacity() == old(self).capacity(),
    {
        let ghost b0 = self.buffer;
        let entry = self.buffer.access_by_tag(rob_tag);
        entry.result = Some(result);
        entry.ready = true;
        proof {
            CircularBuffer::lemma_slot_updated(b0, self.buffer, rob_tag as int, *entry);
        }
    }

    /// If the oldest entry is complete, retires it and returns its result.
    pub fn release(&mut self) -> (r: Option<TaggedResult>)
        requires
            old(self).wf(),
        ensures
            final(self).wf(),
            final(self).capacity() == old(self).capacity(),
            if old(self).entries().len() > 0 && old(self).entries()[0].ready {
                let e = old(self).entries()[0];
                &&& r == Some(TaggedResult {
                    rob_tag: old(self).head() as usize,
                    result: InstResult { rd: e.rd, format: e.format, result: e.result->0 },
                })
                &&& final(self).entries() == old(self).entries().drop_first()
                &&& final(self).head() == old(self).tag_at(1)
            } else {
                &&& r is None
                &&& final(self).entries() == old(self).entries()
                &&& final(self).head() == old(self).head()
            },
    {
        if self.buffer.is_empty() {
            return None;
        }
        if !self.buffer.head().ready {
            return None;
        }
        let rob_tag = self.buffer.head_tag();
        let rob_entry = self.buffer.pop();
        let result = rob_entry.result.unwrap();
        Some(TaggedResult { rob_tag, result: InstResult { rd: rob_entry.rd, format: rob_entry.format, result } })
    }

    /// The result of the entry under `tag`, if it has completed.
    pub fn is_tag_ready(&self, tag: RobTag) -> (r: Option<u32>)
        requires
            self.wf(),
            self.is_live(tag as int),
        ensures
            r == self.entry(tag as int).result,
    {
        self.buffer.read_by_tag(tag).result
    }
}


/// `rob[tag]`.
pub open spec fn rob_ref_text(tag: int) -> Seq<char> {
    "rob["@ + dec_text(tag as nat) + "]"@
}

/// How the diagnostic tree shows an entry: its destination, and its result
/// once ready; the head is marked.
pub open spec fn rob_entry_text(e: SROBEntry, is_head: bool) -> Seq<char> {
    let marker = if is_head { " ← head"@ } else { Seq::empty() };
    if e.ready {
        "rd=x"@ + dec_text(e.rd as nat) + "  result="@ + hex8_text(e.result->0) + "  ready"@ + marker
    } else {
        "rd=x"@ + dec_text(e.rd as nat) + "  pending"@ + marker
    }
}

impl SimpleReorderBuffer {
    /// `n` describes this buffer: its fill level, its head, and each entry
    /// from the head on.
    pub open spec fn diagnosis(&self, n: DiagNode) -> bool {
        &&& n.label@ == "reorder_buffer"@
        &&& n.value is None
        &&& n.children@.len() == 2 + self.entries().len()
        &&& leaf_is(n.children@[0], "size"@, dec_text(self.entries().len()) + "/"@ + dec_text(self.capacity()))
        &&& leaf_is(n.children@[1], "head"@, rob_ref_text(self.head()))
        &&& forall|i: int| 0 <= i < self.entries().len() ==> leaf_is(
            #[trigger] n.children@[2 + i],
            rob_ref_text(self.tag_at(i)),
            rob_entry_text(self.entries()[i], self.tag_at(i) == self.head()),
        )
    }
}

impl Diagnosable for SimpleReorderBuffer {
    open spec fn diagnosable(&self) -> bool {
        self.wf()
    }

    /// The fill level, the head, and each entry from the head on.
    fn diagnose(&self) -> (r: DiagNode)
        ensures
            self.diagnosis(r),
    {
        let head = self.buffer.head_tag();
        let mut size: Vec<char> = Vec::new();
        push_dec(&mut size, self.buffer.len() as u64);
        push_str(&mut size, "/");
        push_dec(&mut size, self.buffer.capacity() as u64);
        let mut head_text: Vec<char> = Vec::new();
        push_str(&mut head_text, "rob[");
        push_dec(&mut head_text, head as u64);
        push_str(&mut head_text, "]");
        let mut label: Vec<char> = Vec::new();
        push_str(&mut label, "size");
        let c0 = leaf_of(&label, &size);
        let mut label: Vec<char> = Vec::new();
        push_str(&mut label, "head");
        let c1 = leaf_of(&label, &head_text);
        let mut children: Vec<DiagNode> = Vec::new();
        children.push(c0);
        children.push(c1);
        let entries = self.buffer.iter_tagged();
        let mut i: usize = 0;
        while i < entries.len()
            invariant
                self.wf(),
                head == self.head(),
                entries@.len() == self.entries().len(),
                forall|k: int| 0 <= k < entries@.len() ==> (#[trigger] entries@[k]).0 == self.tag_at(k)
                    && *entries@[k].1 == self.entries()[k],
                i <= entries@.len(),
                children@.len() == 2 + i,
                leaf_is(children@[0], "size"@, dec_text(self.entries().len()) + "/"@ + dec_text(self.capacity())),
                leaf_is(children@[1], "head"@, rob_ref_text(self.head())),
                forall|k: int| 0 <= k < i ==> leaf_is(
                    #[trigger] children@[2 + k],
                    rob_ref_text(self.tag_at(k)),
                    rob_entry_text(self.entries()[k], self.tag_at(k) == self.head()),
                ),
            decreases entries@.len() - i,
        {
            let (tag, e) = entries[i];
            let mut label: Vec<char> = Vec::new();
            push_str(&mut label, "rob[");
            push_dec(&mut label, tag as u64);
            push_str(&mut label, "]");
            let mut val: Vec<char> = Vec::new();
            push_str(&mut val, "rd=x");
            push_dec(&mut val, e.rd as u64);
            proof {
                assert(self.entries()[i as int].ready ==> self.entries()[i as int].result is Some) by {
                    self.lemma_entry_ready(i as int);
                }
            }
            if e.ready {
                push_str(&mut val, "  result=");
                push_hex8(&mut val, e.result.unwrap());
                push_str(&mut val, "  ready");
            } else {
                push_str(&mut val, "  pending");
            }
            if tag == head {
                push_str(&mut val, " ← head");
            }
            proof {
                let mk = if tag == head { " ← head"@ } else { Seq::<char>::empty() };
                assert(val@ =~= rob_entry_text(self.entries()[i as int], self.tag_at(i as int) == self.head()));
            }
            let node = leaf_of(&label, &val);
            children.push(node);
            i = i + 1;
        }
        let mut root: Vec<char> = Vec::new();
        push_str(&mut root, "reorder_buffer");
        inner_of(&root, children)
    }
}

impl SimpleReorderBuffer {
    proof fn lemma_entry_ready(&self, i: int)
        requires
            self.wf(),
            0 <= i < self.entries().len(),
        ensures
            self.entries()[i].ready <==> self.entries()[i].result is Some,
    {
    }
}

} // verus!
