use cpu_simulator::memory::mem_fabric::{
    Memory, ReadReq, ReadResp, RequestId, SimpleRW, SimpleRWReq, SimpleRWResp, WriteReq, WriteResp,
};
use cpu_simulator::memory::simple_cache::SimpleCache;
use std::cell::RefCell;
use std::collections::VecDeque;
use std::rc::Rc;
// Records all writes forwarded downstream; reads return nothing.
struct MockMemory {
    writes: Rc<RefCell<Vec<(u32, u32)>>>,
}

impl MockMemory {
    fn new() -> (Self, Rc<RefCell<Vec<(u32, u32)>>>) {
        let writes = Rc::new(RefCell::new(vec![]));
        (
            Self {
                writes: writes.clone(),
            },
            writes,
        )
    }
}

impl Memory<SimpleRW> for MockMemory {
    fn send(&mut self, req: SimpleRWReq) -> RequestId {
        if let SimpleRWReq::Write(WriteReq(addr, val)) = req {
            self.writes.borrow_mut().push((addr, val));
        }
        0
    }
    fn recv(&mut self) -> Option<SimpleRWResp> {
        None
    }
    fn tick(&mut self) {}
}

fn make_cache(c: usize, d: usize) -> (SimpleCache<Box<MockMemory>>, Rc<RefCell<Vec<(u32, u32)>>>) {
    let (mock, writes) = MockMemory::new();
    (SimpleCache::new(c, d, Box::new(mock)), writes)
}

fn tick_n<D: Memory<SimpleRW>>(cache: &mut SimpleCache<D>, n: usize) {
    for _ in 0..n {
        cache.tick();
    }
}

// Direct-mapped (d=0), 4 sets (c=2). Cold read produces no response.
#[test]
fn cold_read_is_a_miss() {
    let (mut cache, _) = make_cache(2, 0);
    cache.send(SimpleRWReq::Read(ReadReq(0x00)));
    tick_n(&mut cache, 4);
    assert!(cache.recv().is_none());
}

// Seeded read returns the value in one tick (way 0 hit on first step).
#[test]
fn seeded_read_hits() {
    let (mut cache, _) = make_cache(2, 0);
    cache.seed(0x10, 42);
    cache.send(SimpleRWReq::Read(ReadReq(0x10)));
    cache.tick();
    match cache.recv() {
        Some(SimpleRWResp::Read(ReadResp(_, val))) => assert_eq!(val, 42),
        other => panic!("expected ReadResp, got {:?}", other.is_some()),
    }
}

// Cold write is always forwarded to downstream.
#[test]
fn cold_write_forwards_downstream() {
    let (mut cache, downstream_writes) = make_cache(2, 0);
    cache.send(SimpleRWReq::Write(WriteReq(0x04, 99)));
    tick_n(&mut cache, 4);
    assert!(downstream_writes.borrow().contains(&(0x04, 99)));
}

// Write to a seeded address updates the cached value.
#[test]
fn write_updates_seeded_entry() {
    let (mut cache, _) = make_cache(2, 0);
    cache.seed(0x08, 1);
    cache.send(SimpleRWReq::Write(WriteReq(0x08, 2)));
    tick_n(&mut cache, 2);
    cache.recv(); // consume WriteResp

    cache.send(SimpleRWReq::Read(ReadReq(0x08)));
    tick_n(&mut cache, 2);
    match cache.recv() {
        Some(SimpleRWResp::Read(ReadResp(_, val))) => assert_eq!(val, 2),
        other => panic!("expected updated ReadResp, got {:?}", other.is_some()),
    }
}

// Writes to different sets don't interfere.
// k=2 → index = addr & 0b11, so set 0 = addr 0, set 1 = addr 1.
#[test]
fn different_sets_are_independent() {
    let (mut cache, _) = make_cache(2, 0); // 4 sets, 1 way
    cache.seed(0x00, 10); // set 0
    cache.seed(0x01, 20); // set 1

    cache.send(SimpleRWReq::Read(ReadReq(0x00)));
    cache.send(SimpleRWReq::Read(ReadReq(0x01)));
    tick_n(&mut cache, 4);

    let resp1 = cache.recv();
    let resp2 = cache.recv();
    let val = |r: Option<SimpleRWResp>| match r {
        Some(SimpleRWResp::Read(ReadResp(_, v))) => v,
        _ => panic!("expected ReadResp"),
    };
    assert_eq!(val(resp1), 10);
    assert_eq!(val(resp2), 20);
}

// 2-way cache: value seeded in way 1 is found after way 0 misses.
#[test]
fn two_way_hit_in_second_way() {
    // c=2 (4 entries total), d=1 (2-way). k=1 → 2 sets.
    let (mut cache, _) = make_cache(2, 1);
    // Seed way 0, set 0 with a different tag so way 0 misses.
    cache.seed(0x00, 111); // addr 0x00 → set 0, tag 0
    cache.seed(0x04, 222); // addr 0x04 → set 0, tag 1 (k=1, so tag = addr >> 1)

    // Read 0x04: step 1 checks way 0 (tag 0 ≠ tag 1 → miss),
    //            step 2 checks way 1 (tag 1 = tag 1 → hit).
    cache.send(SimpleRWReq::Read(ReadReq(0x04)));
    tick_n(&mut cache, 4);
    match cache.recv() {
        Some(SimpleRWResp::Read(ReadResp(_, val))) => assert_eq!(val, 222),
        other => panic!("expected ReadResp, got {:?}", other.is_some()),
    }
}

// Write produces a WriteResp in the outbox with the correct request ID.
#[test]
fn write_response_carries_correct_id() {
    let (mut cache, _) = make_cache(2, 0);
    let id = cache.send(SimpleRWReq::Write(WriteReq(0x00, 7)));
    tick_n(&mut cache, 4);
    match cache.recv() {
        Some(SimpleRWResp::Write(WriteResp(resp_id))) => assert_eq!(resp_id, id),
        _ => panic!("expected WriteResp"),
    }
}

// Read response carries the ID that was returned by send().
#[test]
fn read_response_carries_correct_id() {
    let (mut cache, _) = make_cache(2, 0);
    cache.seed(0x00, 5);
    let id = cache.send(SimpleRWReq::Read(ReadReq(0x00)));
    tick_n(&mut cache, 2);
    match cache.recv() {
        Some(SimpleRWResp::Read(ReadResp(resp_id, _))) => assert_eq!(resp_id, id),
        _ => panic!("expected ReadResp"),
    }
}

// Cold write does NOT allocate: a subsequent read to the same address still misses.
#[test]
fn cold_write_does_not_allocate() {
    let (mut cache, _) = make_cache(2, 0);
    cache.send(SimpleRWReq::Write(WriteReq(0x00, 42)));
    tick_n(&mut cache, 4);
    cache.recv(); // consume WriteResp

    cache.send(SimpleRWReq::Read(ReadReq(0x00)));
    tick_n(&mut cache, 4);
    assert!(
        cache.recv().is_none(),
        "cold write must not allocate a cache line"
    );
}

// Two reads queued back-to-back are processed serially in FIFO order.
#[test]
fn queued_reads_processed_in_order() {
    let (mut cache, _) = make_cache(2, 0);
    cache.seed(0x00, 10);
    cache.seed(0x01, 20);

    // Both enqueued before any ticks — port processes one at a time.
    cache.send(SimpleRWReq::Read(ReadReq(0x00)));
    cache.send(SimpleRWReq::Read(ReadReq(0x01)));
    tick_n(&mut cache, 8);

    let r1 = cache.recv();
    let r2 = cache.recv();
    let val = |r: Option<SimpleRWResp>| match r {
        Some(SimpleRWResp::Read(ReadResp(_, v))) => v,
        _ => panic!("expected ReadResp"),
    };
    assert_eq!(val(r1), 10, "first response should be for first request");
    assert_eq!(val(r2), 20, "second response should be for second request");
}

// A seeded read completes in exactly 1 tick (hit on way 0, first step).
#[test]
fn seeded_read_latency_is_one_tick() {
    let (mut cache, _) = make_cache(2, 0);
    cache.seed(0x00, 1);
    cache.send(SimpleRWReq::Read(ReadReq(0x00)));
    cache.tick();
    assert!(cache.recv().is_some(), "hit should resolve in 1 tick");
}

// A cold read in a 1-way cache takes exactly 2 ticks (check way 0 → miss, then done).
#[test]
fn cold_read_latency_is_assoc_plus_one_ticks() {
    let (mut cache, _) = make_cache(2, 0); // assoc = 1
    cache.send(SimpleRWReq::Read(ReadReq(0x00)));
    cache.tick();
    assert!(cache.recv().is_none(), "should not resolve after 1 tick");
    cache.tick();
    // Miss produces no ReadResp — outbox stays empty — but port is now idle.
    assert!(cache.recv().is_none());
}

// Aliases: two addresses mapping to the same set/tag collide correctly.
// With k=2 and the same low 2 bits, a write to one alias updates the cached entry.
#[test]
fn same_index_and_tag_aliases() {
    let (mut cache, _) = make_cache(2, 0); // k=2, mask=0b11
    // addr 0x00 and addr 0x10 share index 0 and tag 0 (0x00>>2 = 0, 0x10>>2 = 4 ≠ 0)
    // Use addr 0x00 (tag=0) and addr 0x04 (tag=1, index=0) — same set, different tag.
    cache.seed(0x00, 55);
    cache.send(SimpleRWReq::Write(WriteReq(0x00, 77)));
    tick_n(&mut cache, 2);
    cache.recv(); // consume WriteResp

    cache.send(SimpleRWReq::Read(ReadReq(0x00)));
    cache.tick();
    match cache.recv() {
        Some(SimpleRWResp::Read(ReadResp(_, val))) => assert_eq!(val, 77),
        _ => panic!("expected updated value after write to aliased address"),
    }
}

// -----------------------------------------------------------------------
// Fill-on-read-miss tests
// Downstream memory responds immediately; fill therefore completes in the
// same tick the miss is detected.
// -----------------------------------------------------------------------

// Backed downstream: responds to reads with pre-loaded data.
struct BackedMemory {
    data: std::collections::HashMap<u32, u32>,
    pending: VecDeque<SimpleRWResp>,
    read_count: Rc<RefCell<u32>>,
    next_id: RequestId,
}

impl BackedMemory {
    fn new(data: std::collections::HashMap<u32, u32>) -> (Self, Rc<RefCell<u32>>) {
        let read_count = Rc::new(RefCell::new(0u32));
        (
            Self {
                data,
                pending: VecDeque::new(),
                read_count: read_count.clone(),
                next_id: 0,
            },
            read_count,
        )
    }
}

impl Memory<SimpleRW> for BackedMemory {
    fn send(&mut self, req: SimpleRWReq) -> RequestId {
        let id = self.next_id;
        self.next_id = self.next_id.wrapping_add(1);
        if let SimpleRWReq::Read(ReadReq(addr)) = req {
            *self.read_count.borrow_mut() += 1;
            let val = self.data.get(&addr).copied().unwrap_or(0);
            self.pending.push_back(ReadResp(id, val).into());
        }
        id
    }
    fn recv(&mut self) -> Option<SimpleRWResp> {
        self.pending.pop_front()
    }
    fn tick(&mut self) {}
}

fn make_backed(
    c: usize,
    d: usize,
    data: std::collections::HashMap<u32, u32>,
) -> (SimpleCache<Box<BackedMemory>>, Rc<RefCell<u32>>) {
    let (mem, read_count) = BackedMemory::new(data);
    (SimpleCache::new(c, d, Box::new(mem)), read_count)
}

fn read_val<D: Memory<SimpleRW>>(cache: &mut SimpleCache<D>) -> u32 {
    match cache.recv() {
        Some(SimpleRWResp::Read(ReadResp(_, v))) => v,
        _ => panic!("expected ReadResp"),
    }
}

// A cold read miss fetches from downstream and the value arrives upstream.
// Direct-mapped (d=0), assoc=1: miss detected on tick 2, fill same tick.
#[test]
fn read_miss_fills_cache_and_returns_value() {
    let (mut cache, _) = make_backed(2, 0, [(0x00, 42)].into());
    cache.send(SimpleRWReq::Read(ReadReq(0x00)));
    tick_n(&mut cache, 2);
    assert_eq!(read_val(&mut cache), 42);
}

// The upstream request ID is preserved through the fill path.
#[test]
fn fill_carries_correct_request_id() {
    let (mut cache, _) = make_backed(2, 0, [(0x00, 1)].into());
    let id = cache.send(SimpleRWReq::Read(ReadReq(0x00)));
    tick_n(&mut cache, 2);
    match cache.recv() {
        Some(SimpleRWResp::Read(ReadResp(resp_id, _))) => assert_eq!(resp_id, id),
        _ => panic!("expected ReadResp"),
    }
}

// After a fill the line is resident; a second read hits without going downstream.
#[test]
fn filled_line_hits_on_next_read() {
    let (mut cache, read_count) = make_backed(2, 0, [(0x00, 7)].into());
    cache.send(SimpleRWReq::Read(ReadReq(0x00)));
    tick_n(&mut cache, 2);
    cache.recv(); // consume fill response

    cache.send(SimpleRWReq::Read(ReadReq(0x00)));
    cache.tick(); // hit resolves in 1 tick
    assert_eq!(read_val(&mut cache), 7);
    assert_eq!(
        *read_count.borrow(),
        1,
        "second read must not go downstream"
    );
}

// Two sequential misses to different sets: both fill correctly and the
// MSHR entry for the first is removed before the second is processed.
#[test]
fn two_sequential_fills_to_different_sets() {
    // k=2 (d=0, c=2): set index = addr & 0x3; addr 0x00 → set 0, addr 0x01 → set 1.
    let (mut cache, _) = make_backed(2, 0, [(0x00, 10), (0x01, 20)].into());

    cache.send(SimpleRWReq::Read(ReadReq(0x00)));
    tick_n(&mut cache, 2);
    assert_eq!(read_val(&mut cache), 10);

    cache.send(SimpleRWReq::Read(ReadReq(0x01)));
    tick_n(&mut cache, 2);
    assert_eq!(read_val(&mut cache), 20);
}

// 2-way cache (d=1, c=2 → k=1, 2 sets): two addresses mapping to the same
// set both miss and fill distinct ways, then both hit on the next read.
// addr 0x00: set = 0x00 & 1 = 0, tag = 0x00 >> 1 = 0
// addr 0x02: set = 0x02 & 1 = 0, tag = 0x02 >> 1 = 1  (same set, different tag)
#[test]
fn two_way_cache_fills_both_ways_and_both_hit() {
    let (mut cache, read_count) = make_backed(2, 1, [(0x00, 11), (0x02, 22)].into());

    // First miss: cold PLRU → fills way 0.
    cache.send(SimpleRWReq::Read(ReadReq(0x00)));
    tick_n(&mut cache, 3); // 2-way: miss detected on tick 3
    assert_eq!(read_val(&mut cache), 11);

    // Second miss to same set: PLRU updated after first fill → fills way 1.
    cache.send(SimpleRWReq::Read(ReadReq(0x02)));
    tick_n(&mut cache, 3);
    assert_eq!(read_val(&mut cache), 22);

    assert_eq!(*read_count.borrow(), 2, "only two downstream reads");

    // Both lines now resident — subsequent reads hit without going downstream.
    cache.send(SimpleRWReq::Read(ReadReq(0x00)));
    cache.tick();
    assert_eq!(read_val(&mut cache), 11);

    cache.send(SimpleRWReq::Read(ReadReq(0x02)));
    tick_n(&mut cache, 2); // way 1 requires 2 steps
    assert_eq!(read_val(&mut cache), 22);

    assert_eq!(
        *read_count.borrow(),
        2,
        "no new downstream reads after fills"
    );
}

// Eviction: once all ways in a set are filled, the next miss to that set
// evicts the PLRU victim and the new value is accessible.
// 2-way, same set: fill way 0 (addr 0x00), fill way 1 (addr 0x02),
// then miss addr 0x04 (set=0, tag=2) → evicts PLRU way → verify new value readable.
#[test]
fn eviction_replaces_lru_way_and_new_value_is_readable() {
    let (mut cache, _) = make_backed(2, 1, [(0x00, 1), (0x02, 2), (0x04, 3)].into());

    // Fill way 0, then way 1.
    cache.send(SimpleRWReq::Read(ReadReq(0x00)));
    tick_n(&mut cache, 3);
    cache.recv();

    cache.send(SimpleRWReq::Read(ReadReq(0x02)));
    tick_n(&mut cache, 3);
    cache.recv();

    // Access 0x00 to make 0x02 the LRU.
    cache.send(SimpleRWReq::Read(ReadReq(0x00)));
    cache.tick();
    cache.recv();

    // Miss on 0x04 → should evict 0x02 (LRU) and fill with val=3.
    cache.send(SimpleRWReq::Read(ReadReq(0x04)));
    tick_n(&mut cache, 3);
    assert_eq!(read_val(&mut cache), 3, "evicted way should hold new value");
}

// A write that hits the cache must still be forwarded downstream (write-through).
// write_updates_seeded_entry checks the cache side; this checks the downstream side.
#[test]
fn write_hit_also_forwards_to_downstream() {
    let (mut cache, downstream_writes) = make_cache(2, 0);
    cache.seed(0x00, 1);
    cache.send(SimpleRWReq::Write(WriteReq(0x00, 2)));
    tick_n(&mut cache, 2);
    assert!(
        downstream_writes.borrow().contains(&(0x00, 2)),
        "write hit must still be forwarded downstream",
    );
}

// fill → write → read: value written after a fill is what a subsequent read sees.
#[test]
fn write_to_filled_line_is_readable() {
    let (mut cache, _) = make_backed(2, 0, [(0x00, 42)].into());

    cache.send(SimpleRWReq::Read(ReadReq(0x00)));
    tick_n(&mut cache, 2);
    cache.recv(); // consume fill ReadResp

    cache.send(SimpleRWReq::Write(WriteReq(0x00, 99)));
    tick_n(&mut cache, 2);
    cache.recv(); // consume WriteResp

    cache.send(SimpleRWReq::Read(ReadReq(0x00)));
    cache.tick();
    assert_eq!(read_val(&mut cache), 99);
}

// Two reads to the same cold address: the first triggers a fill;
// the second (still queued in the port inbox) hits the freshly filled line.
#[test]
fn second_read_to_same_cold_addr_hits_after_fill() {
    let (mut cache, read_count) = make_backed(2, 0, [(0x00, 77)].into());
    cache.send(SimpleRWReq::Read(ReadReq(0x00)));
    cache.send(SimpleRWReq::Read(ReadReq(0x00)));
    tick_n(&mut cache, 3);
    assert_eq!(read_val(&mut cache), 77); // first: served via fill
    assert_eq!(read_val(&mut cache), 77); // second: cache hit
    assert_eq!(
        *read_count.borrow(),
        1,
        "only one downstream fetch for two reads"
    );
}
