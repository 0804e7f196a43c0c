//! A fixed-capacity FIFO ring buffer whose slot indices double as stable tags.
use vstd::prelude::*;

verus! {

/// A ring buffer of `capacity` slots. Elements are pushed at the tail and
/// popped at the head; the physical slot index of an element is its tag.
pub struct CircularBuffer<T> {
    head: usize,
    tail: usize,
    size: usize,
    data: Vec<Option<T>>,
}

/// The position, counted from the head, of slot `j` in a ring of `n` slots.
pub open spec fn ring_offset(head: int, j: int, n: int) -> int {
    (j - head + n) % n
}

/// In a ring of `n` slots, slot `j` sits at offset `o` from `head` exactly when
/// `j` is `head + o` taken modulo `n`.
pub proof fn lemma_ring_offset(head: int, j: int, o: int, n: int)
    requires
        0 <= head < n,
        0 <= j < n,
        0 <= o < n,
    ensures
        0 <= ring_offset(head, j, n) < n,
        (ring_offset(head, j, n) == o) <==> (j == (head + o) % n),
{
    assert(0 <= ring_offset(head, j, n) < n) by (nonlinear_arith)
        requires 0 <= head < n, 0 <= j < n, ;
    if j - head + n < n {
        assert(ring_offset(head, j, n) == j - head + n) by (nonlinear_arith)
            requires 0 <= j - head + n < n;
    } else {
        assert(ring_offset(head, j, n) == j - head) by (nonlinear_arith)
            requires n <= j - head + n < 2 * n;
    }
    if head + o < n {
        assert((head + o) % n == head + o) by (nonlinear_arith) requires 0 <= head + o < n;
    } else {
        assert((head + o) % n == head + o - n) by (nonlinear_arith) requires n <= head + o < 2 * n;
    }
}

/// Pushing onto a ring of `len` elements makes live exactly the tags that were
/// live and the tag at offset `len`.
pub proof fn lemma_ring_push(head: int, n: int, len: int, t: int)
    requires
        0 <= head < n,
        0 <= len < n,
        0 <= t < n,
    ensures
        ring_offset(head, (head + len) % n, n) == len,
        0 <= (head + len) % n < n,
        (ring_offset(head, t, n) < len + 1) <==> (ring_offset(head, t, n) < len || t == (head + len) % n),
{
    lemma_ring_offset(head, t, len, n);
    assert(0 <= (head + len) % n < n) by (nonlinear_arith) requires 0 <= head < n, 0 <= len < n;
    lemma_ring_offset(head, (head + len) % n, len, n);
}

/// The offset of slot `t` from `head`, without the modulus.
pub proof fn lemma_ring_offset_value(head: int, t: int, n: int)
    requires
        0 <= head < n,
        0 <= t < n,
    ensures
        ring_offset(head, t, n) == if t >= head { t - head } else { t - head + n },
{
    if t >= head {
        assert((t - head + n) % n == t - head) by (nonlinear_arith) requires n <= t - head + n < 2 * n;
    } else {
        assert((t - head + n) % n == t - head + n) by (nonlinear_arith) requires 0 <= t - head + n < n;
    }
}

/// Popping the head of a ring: every other live tag stays live, one position
/// nearer the new head.
pub proof fn lemma_ring_pop(head: int, n: int, len: int, t: int)
    requires
        0 <= head < n,
        1 <= len <= n,
        0 <= t < n,
    ensures
        t != head ==> ring_offset((head + 1) % n, t, n) == ring_offset(head, t, n) - 1,
        (ring_offset((head + 1) % n, t, n) < len - 1) <==> (ring_offset(head, t, n) < len && t != head),
        ring_offset(head, head, n) == 0,
{
    let nh = (head + 1) % n;
    if head + 1 < n {
        assert(nh == head + 1) by (nonlinear_arith) requires 0 <= head + 1 < n, nh == (head + 1) % n;
    } else {
        assert(nh == 0) by (nonlinear_arith) requires head + 1 == n, nh == (head + 1) % n, n > 0;
    }
    lemma_ring_offset_value(head, t, n);
    lemma_ring_offset_value(head, head, n);
    lemma_ring_offset_value(nh, t, n);
}

/// `(head + i) % n`, computed without an intermediate sum that could overflow.
fn ring_index(head: usize, i: usize, n: usize) -> (r: usize)
    requires
        head < n,
        i < n,
    ensures
        r == (head + i) % (n as int),
{
    if i < n - head {
        assert((head + i) % (n as int) == head + i) by (nonlinear_arith)
            requires 0 <= head + i < n;
        head + i
    } else {
        assert((head + i) % (n as int) == head + i - n) by (nonlinear_arith)
            requires n <= head + i < 2 * n;
        i - (n - head)
    }
}

impl<T> CircularBuffer<T> {
    pub closed spec fn spec_capacity(&self) -> nat {
        self.data@.len()
    }

    pub closed spec fn spec_head(&self) -> int {
        self.head as int
    }

    /// The tag (slot index) of the element at position `i` from the head.
    pub open spec fn tag_of(&self, i: int) -> int {
        (self.spec_head() + i) % (self.spec_capacity() as int)
    }

    /// A tag names a live element: it lies within the occupied part of the ring.
    pub open spec fn is_live_tag(&self, tag: int) -> bool {
        &&& 0 <= tag < self.spec_capacity()
        &&& ring_offset(self.spec_head(), tag, self.spec_capacity() as int) < self@.len()
    }

    /// The element that a live tag names.
    pub open spec fn element_at(&self, tag: int) -> T {
        self@[ring_offset(self.spec_head(), tag, self.spec_capacity() as int)]
    }

    /// `b` is this buffer after `push(x)`.
    pub open spec fn push_gives(&self, b: Self, x: T) -> bool {
        &&& b.wf()
        &&& self@.len() < self.spec_capacity()
        &&& b@ == self@.push(x)
        &&& b.spec_head() == self.spec_head()
        &&& b.spec_capacity() == self.spec_capacity()
    }

    /// `b` is this buffer after `pop()`.
    pub open spec fn pop_gives(&self, b: Self) -> bool {
        &&& b.wf()
        &&& self@.len() > 0
        &&& b@ == self@.drop_first()
        &&& b.spec_head() == self.tag_of(1)
        &&& b.spec_capacity() == self.spec_capacity()
    }

    /// The contents, head first.
    pub closed spec fn view(&self) -> Seq<T> {
        Seq::new(
            self.size as nat,
            |i: int| self.data@[(self.head + i) % (self.data@.len() as int)]->Some_0,
        )
    }

    pub closed spec fn wf(&self) -> bool {
        let n = self.data@.len() as int;
        &&& self.size <= n
        &&& n == 0 ==> self.head == 0 && self.tail == 0
        &&& n > 0 ==> {
            &&& self.head < n
            &&& self.tail < n
            &&& self.tail == (self.head + self.size) % n
        }
        &&& forall|j: int|
            0 <= j < n ==> (#[trigger] self.data@[j] is Some <==> ring_offset(
                self.head as int,
                j,
                n,
            ) < self.size)
    }

    proof fn lemma_tag_offset(&self, i: int)
        requires
            self.wf(),
            0 <= i < self@.len(),
        ensures
            0 <= self.tag_of(i) < self.spec_capacity(),
            ring_offset(self.spec_head(), self.tag_of(i), self.spec_capacity() as int) == i,
            self.data@[self.tag_of(i)] is Some,
    {
        let n = self.data@.len() as int;
        let h = self.head as int;
        let t = (h + i) % n;
        assert(ring_offset(h, t, n) == i) by (nonlinear_arith)
            requires
                0 <= h < n,
                0 <= i < n,
                t == (h + i) % n,
        {
            if h + i < n {
                assert(t == h + i);
            } else {
                assert(t == h + i - n);
            }
        }
    }

    /// A buffer holds at most its capacity, and its head is a slot of it.
    pub proof fn lemma_bounds(&self)
        requires
            self.wf(),
        ensures
            self@.len() <= self.spec_capacity(),
            self.spec_capacity() > 0 ==> 0 <= self.spec_head() < self.spec_capacity(),
    {
    }

    pub fn new(capacity: usize) -> (r: Self)
        ensures
            r.wf(),
            r@ == Seq::<T>::empty(),
            r.spec_capacity() == capacity,
            r.spec_head() == 0,
    {
        let mut data: Vec<Option<T>> = Vec::new();
        let mut k: usize = 0;
        while k < capacity
            invariant
                k <= capacity,
                data@.len() == k,
                forall|j: int| 0 <= j < k ==> data@[j] is None,
            decreases capacity - k,
        {
            data.push(None);
            k = k + 1;
        }
        let r = Self { head: 0, tail: 0, size: 0, data };
        if capacity > 0 {
            assert((0int + 0int) % (capacity as int) == 0) by (nonlinear_arith) requires capacity > 0;
        }
        assert forall|j: int| 0 <= j < capacity implies (#[trigger] r.data@[j] is Some <==> ring_offset(0, j, capacity as int) < 0) by {
            lemma_ring_offset(0, j, 0, capacity as int);
        }
        assert(r@ =~= Seq::<T>::empty());
        r
    }

    pub fn capacity(&self) -> (r: usize)
        ensures
            r == self.spec_capacity(),
    {
        self.data.len()
    }

    pub fn is_full(&self) -> (r: bool)
        requires
            self.wf(),
        ensures
            r == (self@.len() == self.spec_capacity()),
    {
        self.size == self.data.len()
    }

    pub fn is_empty(&self) -> (r: bool)
        ensures
            r == (self@.len() == 0),
    {
        self.size == 0
    }

    /// Appends `item` at the tail and returns its tag.
    pub fn push(&mut self, item: T) -> (tag: usize)
        requires
            old(self).wf(),
            old(self)@.len() < old(self).spec_capacity(),
        ensures
            final(self).wf(),
            final(self)@ == old(self)@.push(item),
            final(self).spec_capacity() == old(self).spec_capacity(),
            final(self).spec_head() == old(self).spec_head(),
            tag == old(self).tag_of(old(self)@.len() as int),
            final(self).is_live_tag(tag as int),
            final(self).element_at(tag as int) == item,
            forall|t: int| old(self).is_live_tag(t) ==> #[trigger] final(self).is_live_tag(t),
            forall|t: int| old(self).is_live_tag(t) ==> #[trigger] final(self).element_at(t) == old(self).element_at(t),
            old(self).push_gives(*final(self), item),
    {
        let ghost old_self = *self;
        let n = self.data.len();
        let idx = self.tail;
        proof {
            let h = self.head as int;
            let s = self.size as int;
            lemma_ring_offset(h, idx as int, s, n as int);
        }
        self.data.set(idx, Some(item));
        self.tail = (self.tail + 1) % n;
        self.size = self.size + 1;
        proof {
            let h = self.head as int;
            let s = self.size as int;
            let nn = n as int;
            assert(self.tail == (h + s) % nn) by (nonlinear_arith)
                requires
                    0 <= h < nn, 1 <= s <= nn, idx == (h + s - 1) % nn, self.tail == (idx + 1) % nn,
            {
                assert(0 <= idx < nn);
                if h + s - 1 < nn { assert(idx == h + s - 1); } else { assert(idx == h + s - 1 - nn); }
            }
            assert forall|j: int| 0 <= j < nn implies (#[trigger] self.data@[j] is Some <==> ring_offset(h, j, nn) < s) by {
                lemma_ring_offset(h, j, s - 1, nn);
                if j == idx {
                } else {
                    assert(old_self.data@[j] == self.data@[j]);
                }
            }
            assert forall|i: int| 0 <= i < s - 1 implies #[trigger] self.data@[(h + i) % nn] == old_self.data@[(h + i) % nn] by {
                old_self.lemma_tag_offset(i);
            }
            assert(self@ =~= old_self@.push(item));
            lemma_ring_push(h, nn, s - 1, idx as int);
            assert forall|t: int| old_self.is_live_tag(t) implies #[trigger] self.is_live_tag(t) by {
                lemma_ring_push(h, nn, s - 1, t);
            }
            assert forall|t: int| old_self.is_live_tag(t) implies #[trigger] self.element_at(t) == old_self.element_at(t) by {
                lemma_ring_push(h, nn, s - 1, t);
            }
        }
        idx
    }

    /// Removes and returns the element at the head.
    pub fn pop(&mut self) -> (elem: T)
        requires
            old(self).wf(),
            old(self)@.len() > 0,
        ensures
            final(self).wf(),
            elem == old(self)@[0],
            final(self)@ == old(self)@.drop_first(),
            final(self).spec_capacity() == old(self).spec_capacity(),
            final(self).spec_head() == old(self).tag_of(1),
            forall|t: int| old(self).is_live_tag(t) && t != old(self).spec_head() ==> #[trigger] final(self).is_live_tag(t),
            forall|t: int| old(self).is_live_tag(t) && t != old(self).spec_head()
                ==> #[trigger] final(self).element_at(t) == old(self).element_at(t),
            old(self).pop_gives(*final(self)),
    {
        let ghost old_self = *self;
        let n = self.data.len();
        let h = self.head;
        proof {
            old_self.lemma_tag_offset(0);
            assert((h + 0) % (n as int) == h) by (nonlinear_arith) requires 0 <= h < n;
        }
        let elem = self.data[h].take().unwrap();
        self.head = (self.head + 1) % n;
        self.size = self.size - 1;
        proof {
            let nh = self.head as int;
            let s = self.size as int;
            let nn = n as int;
            assert forall|j: int| 0 <= j < nn implies (#[trigger] self.data@[j] is Some <==> ring_offset(nh, j, nn) < s) by {
                assert(old_self.data@[j] is Some <==> ring_offset(h as int, j, nn) < s + 1);
                assert(nh == (h + 1) % nn);
                lemma_ring_offset(h as int, j, 0, nn);
                lemma_ring_offset(h as int, j, 0, nn);
                assert((h + 0) % nn == h) by (nonlinear_arith) requires 0 <= h < nn;
                if j == h {
                    assert(ring_offset(nh, j, nn) == nn - 1) by (nonlinear_arith)
                        requires 0 <= h < nn, j == h, nh == (h + 1) % nn,
                    {
                        if h + 1 < nn { assert(nh == h + 1); } else { assert(nh == 0); }
                    }
                } else {
                    assert(self.data@[j] == old_self.data@[j]);
                    assert(ring_offset(nh, j, nn) == ring_offset(h as int, j, nn) - 1) by (nonlinear_arith)
                        requires 0 <= j < nn, 0 <= h < nn, j != h, nh == (h + 1) % nn,
                            ring_offset(h as int, j, nn) != 0, 0 <= ring_offset(h as int, j, nn) < nn,
                    {
                        if h + 1 < nn { assert(nh == h + 1); } else { assert(nh == 0); }
                    }
                }
            }
            assert forall|i: int| 0 <= i < s implies #[trigger] self.data@[(nh + i) % nn] == old_self.data@[(h + (i + 1)) % nn] by {
                assert((nh + i) % nn == (h + (i + 1)) % nn) by (nonlinear_arith)
                    requires 0 <= h < nn, nh == (h + 1) % nn, 0 <= i;
                old_self.lemma_tag_offset(i + 1);
            }
            assert(self.tail == (nh + s) % nn) by (nonlinear_arith)
                requires 0 <= h < nn, nh == (h + 1) % nn, self.tail == (h + s + 1) % nn, 0 <= s;
            assert(self@ =~= old_self@.drop_first());
            assert forall|t: int| old_self.is_live_tag(t) && t != old_self.spec_head() implies #[trigger] self.is_live_tag(t) by {
                lemma_ring_pop(h as int, nn, s + 1, t);
            }
            assert forall|t: int| old_self.is_live_tag(t) && t != old_self.spec_head()
                implies #[trigger] self.element_at(t) == old_self.element_at(t) by {
                lemma_ring_pop(h as int, nn, s + 1, t);
            }
        }
        elem
    }

    pub fn head_tag(&self) -> (r: usize)
        ensures
            r == self.spec_head(),
    {
        self.head
    }

    /// The element at the head.
    pub fn head(&self) -> (r: &T)
        requires
            self.wf(),
            self@.len() > 0,
        ensures
            *r == self@[0],
    {
        proof {
            self.lemma_tag_offset(0);
            assert((self.head + 0) % (self.data@.len() as int) == self.head) by (nonlinear_arith)
                requires 0 <= self.head < self.data@.len();
        }
        self.data[self.head].as_ref().unwrap()
    }

    /// The element stored under a live tag.
    pub fn read_by_tag(&self, tag: usize) -> (r: &T)
        requires
            self.wf(),
            self.is_live_tag(tag as int),
        ensures
            *r == self.element_at(tag as int),
    {
        proof { self.lemma_live_tag(tag as int); }
        self.data[tag].as_ref().unwrap()
    }

    proof fn lemma_live_tag(&self, tag: int)
        requires
            self.wf(),
            self.is_live_tag(tag),
        ensures
            self.data@[tag] is Some,
            self.tag_of(ring_offset(self.spec_head(), tag, self.spec_capacity() as int)) == tag,
    {
        let n = self.data@.len() as int;
        let h = self.head as int;
        let o = ring_offset(h, tag, n);
        assert((h + o) % n == tag) by (nonlinear_arith)
            requires 0 <= h < n, 0 <= tag < n, o == (tag - h + n) % n,
        {
            if tag - h + n < n { assert(o == tag - h + n); } else { assert(o == tag - h); }
        }
    }

    /// Mutable access to the element stored under a live tag.
    pub fn access_by_tag(&mut self, tag: usize) -> (r: &mut T)
        requires
            old(self).wf(),
            old(self).is_live_tag(tag as int),
        ensures
            *r == old(self).element_at(tag as int),
            old(self).slot_updated(*final(self), tag as int, *final(r)),
    {
        proof { self.lemma_live_tag(tag as int); }
        self.data[tag].as_mut().unwrap()
    }

    /// `b` is `self` with the element under `tag` replaced by `v`.
    pub closed spec fn slot_updated(&self, b: Self, tag: int, v: T) -> bool {
        &&& b.data@ == self.data@.update(tag, Some(v))
        &&& b.head == self.head
        &&& b.tail == self.tail
        &&& b.size == self.size
    }

    /// Replacing the element under a live tag keeps the buffer well formed and
    /// changes only that element of the contents.
    pub proof fn lemma_slot_updated(a: Self, b: Self, tag: int, v: T)
        requires
            a.wf(),
            a.is_live_tag(tag),
            a.slot_updated(b, tag, v),
        ensures
            b.wf(),
            b@ == a@.update(ring_offset(a.spec_head(), tag, a.spec_capacity() as int), v),
            b.spec_head() == a.spec_head(),
            b.spec_capacity() == a.spec_capacity(),
    {
        let n = a.data@.len() as int;
        let o = ring_offset(a.spec_head(), tag, n);
        a.lemma_live_tag(tag);
        assert forall|j: int| 0 <= j < n implies (#[trigger] b.data@[j] is Some <==> ring_offset(b.head as int, j, n) < b.size) by {
            if j != tag { assert(b.data@[j] == a.data@[j]); }
        }
        assert forall|i: int| 0 <= i < a.size implies #[trigger] b@[i] == a@.update(o, v)[i] by {
            lemma_ring_offset(a.head as int, tag, i, n);
            assert(0 <= (a.head + i) % n < n) by (nonlinear_arith) requires 0 <= a.head < n, 0 <= i;
        }
        assert(b@ =~= a@.update(o, v));
    }

    pub fn len(&self) -> (r: usize)
        ensures
            r == self@.len(),
    {
        self.size
    }

    /// The elements, head first.
    pub fn iter(&self) -> (r: Vec<&T>)
        requires
            self.wf(),
        ensures
            r@.len() == self@.len(),
            forall|i: int| 0 <= i < r@.len() ==> *r@[i] == self@[i],
    {
        let n = self.data.len();
        let mut out: Vec<&T> = Vec::new();
        let mut i: usize = 0;
        while i < self.size
            invariant
                self.wf(),
                n == self.data@.len(),
                i <= self.size,
                out@.len() == i,
                forall|k: int| 0 <= k < i ==> *out@[k] == self@[k],
            decreases self.size - i,
        {
            proof { self.lemma_tag_offset(i as int); }
            let idx = ring_index(self.head, i, n);
            out.push(self.data[idx].as_ref().unwrap());
            i = i + 1;
        }
        out
    }

    /// (tag, element) pairs, head first; the tag is the slot index.
    pub fn iter_tagged(&self) -> (r: Vec<(usize, &T)>)
        requires
            self.wf(),
        ensures
            r@.len() == self@.len(),
            forall|i: int|
                0 <= i < r@.len() ==> (#[trigger] r@[i]).0 == self.tag_of(i) && *r@[i].1 == self@[i],
    {
        let n = self.data.len();
        let mut out: Vec<(usize, &T)> = Vec::new();
        let mut i: usize = 0;
        while i < self.size
            invariant
                self.wf(),
                n == self.data@.len(),
                i <= self.size,
                out@.len() == i,
                forall|k: int| 0 <= k < i ==> (#[trigger] out@[k]).0 == self.tag_of(k) && *out@[k].1 == self@[k],
            decreases self.size - i,
        {
            proof { self.lemma_tag_offset(i as int); }
            let tag = ring_index(self.head, i, n);
            out.push((tag, self.data[tag].as_ref().unwrap()));
            i = i + 1;
        }
        out
    }
}


/// One push, or one pop that does not pop the element under `tag`, keeps that
/// tag live and naming the same element.
proof fn lemma_step_keeps_tag<T>(a: CircularBuffer<T>, b: CircularBuffer<T>, tag: int)
    requires
        a.wf(),
        a.is_live_tag(tag),
        (exists|x: T| #[trigger] a.push_gives(b, x)) || (a.pop_gives(b) && tag != a.spec_head()),
    ensures
        b.wf(),
        b.is_live_tag(tag),
        b.element_at(tag) == a.element_at(tag),
{
    a.lemma_bounds();
    let n = a.spec_capacity() as int;
    let h = a.spec_head();
    if exists|x: T| #[trigger] a.push_gives(b, x) {
        let x = choose|x: T| #[trigger] a.push_gives(b, x);
        assert(a.push_gives(b, x));
    } else {
        lemma_ring_pop(h, n, a@.len() as int, tag);
    }
}

/// A tag that `push` handed out keeps naming the element pushed under it
/// until that element is popped: along any run of pushes and of pops that
/// leave it in place, the tag stays live and names the same element.
pub proof fn law_tag_keeps_its_element<T>(bs: Seq<CircularBuffer<T>>, tag: int)
    requires
        bs.len() > 0,
        bs[0].wf(),
        bs[0].is_live_tag(tag),
        forall|i: int| 0 <= i < bs.len() - 1 ==> (exists|x: T| #[trigger] bs[i].push_gives(bs[i + 1], x))
            || ((#[trigger] bs[i]).pop_gives(bs[i + 1]) && tag != bs[i].spec_head()),
    ensures
        forall|i: int| 0 <= i < bs.len() ==> (#[trigger] bs[i]).wf() && bs[i].is_live_tag(tag)
            && bs[i].element_at(tag) == bs[0].element_at(tag),
    decreases bs.len(),
{
    if bs.len() > 1 {
        let front = bs.drop_last();
        assert forall|i: int| 0 <= i < front.len() - 1 implies (exists|x: T| #[trigger] front[i].push_gives(front[i + 1], x))
            || ((#[trigger] front[i]).pop_gives(front[i + 1]) && tag != front[i].spec_head()) by {
            assert(front[i] == bs[i] && front[i + 1] == bs[i + 1]);
        }
        law_tag_keeps_its_element(front, tag);
        let j = bs.len() - 2;
        assert(front[j] == bs[j]);
        assert(front[j].wf() && front[j].is_live_tag(tag));
        lemma_step_keeps_tag(bs[j], bs[j + 1], tag);
        assert forall|i: int| 0 <= i < bs.len() implies (#[trigger] bs[i]).wf() && bs[i].is_live_tag(tag)
            && bs[i].element_at(tag) == bs[0].element_at(tag) by {
            if i < bs.len() - 1 {
                assert(bs[i] == front[i]);
            }
        }
    }
}

} // verus!
