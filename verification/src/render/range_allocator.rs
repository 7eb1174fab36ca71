use crate::render::error::BufferError;
use std::ops::Range;
use vstd::prelude::*;

verus! {

/// Number of items in a range.
pub open spec fn span(r: Range<u32>) -> int {
    r.end - r.start
}

/// No item lies in both ranges.
pub open spec fn disjoint(a: Range<u32>, b: Range<u32>) -> bool {
    a.end <= b.start || b.end <= a.start
}

/// Every item of `inner` is an item of `outer`.
pub open spec fn within(inner: Range<u32>, outer: Range<u32>) -> bool {
    outer.start <= inner.start && inner.end <= outer.end
}

/// `i` is the free range that a request for `count` items takes: it is
/// large enough, no large enough range is shorter, and of the shortest it
/// comes first.
pub open spec fn is_best_fit(free: Seq<Range<u32>>, count: u32, i: int) -> bool {
    &&& 0 <= i < free.len()
    &&& span(free[i]) >= count
    &&& forall|j: int|
        0 <= j < free.len() && span(#[trigger] free[j]) >= count ==> span(free[i]) < span(free[j])
            || (span(free[i]) == span(free[j]) && i <= j)
}

/// Some free range holds `count` items.
pub open spec fn some_fit(free: Seq<Range<u32>>, count: u32) -> bool {
    exists|j: int| 0 <= j < free.len() && span(#[trigger] free[j]) >= count
}

/// The position of the best fit for `count` items, if any range fits.
pub open spec fn best_fit(free: Seq<Range<u32>>, count: u32) -> Option<int> {
    if exists|i: int| is_best_fit(free, count, i) {
        Some(choose|i: int| is_best_fit(free, count, i))
    } else {
        None
    }
}

/// What a range allocator holds: the size of its buffer, the high-water
/// mark below which every item has been handed out at least once, and the
/// ranges below that mark that were given back.
pub ghost struct AllocatorState {
    pub capacity: u32,
    pub used: u32,
    pub free: Seq<Range<u32>>,
}

impl AllocatorState {
    pub open spec fn empty(capacity: u32) -> AllocatorState {
        AllocatorState { capacity, used: 0, free: Seq::empty() }
    }

    /// The mark is within the buffer; every free range is non-empty and
    /// below the mark; no two free ranges share an item.
    pub open spec fn wf(self) -> bool {
        &&& self.used <= self.capacity
        &&& forall|i: int|
            0 <= i < self.free.len() ==> (#[trigger] self.free[i]).start < self.free[i].end
                <= self.used
        &&& forall|i: int, j: int|
            0 <= i < j < self.free.len() ==> disjoint(#[trigger] self.free[i], #[trigger] self.free[j])
    }

    /// The range is non-empty, below the mark, and apart from every free
    /// range: it may have been handed out and not given back.
    pub open spec fn may_release(self, range: Range<u32>) -> bool {
        &&& range.start < range.end <= self.used
        &&& forall|i: int| 0 <= i < self.free.len() ==> disjoint(range, #[trigger] self.free[i])
    }

    /// A request for `count > 0` items. The best fit among the free ranges
    /// leaves the free list as a whole, its place taken by the last range,
    /// and its first `count` items are handed out. Where no range fits, the
    /// items come from above the mark, if the buffer has that many left.
    pub open spec fn allocate(self, count: u32) -> (AllocatorState, Option<Range<u32>>) {
        match best_fit(self.free, count) {
            Some(i) => (
                AllocatorState { free: self.free.update(i, self.free.last()).drop_last(), ..self },
                Some(Range { start: self.free[i].start, end: (self.free[i].start + count) as u32 }),
            ),
            None => if self.used + count <= self.capacity {
                (
                    AllocatorState { used: (self.used + count) as u32, ..self },
                    Some(Range { start: self.used, end: (self.used + count) as u32 }),
                )
            } else {
                (self, None)
            },
        }
    }

    /// A range that may be released joins the free list at its end; any
    /// other leaves the allocator as it was.
    pub open spec fn release(self, range: Range<u32>) -> AllocatorState {
        if self.may_release(range) {
            AllocatorState { free: self.free.push(range), ..self }
        } else {
            self
        }
    }
}

/// Hands out ranges of items of one buffer, and takes them back.
///
/// An allocator is made by `new` and changed by its own methods only, and
/// each of them keeps it well formed.
pub struct RangeAllocator {
    capacity: u32,
    used: u32,
    free: Vec<Range<u32>>,
}

impl View for RangeAllocator {
    type V = AllocatorState;

    closed spec fn view(&self) -> AllocatorState {
        AllocatorState { capacity: self.capacity, used: self.used, free: self.free@ }
    }
}

impl RangeAllocator {
    pub fn new(capacity: u32) -> (allocator: Self)
        ensures
            allocator@ == AllocatorState::empty(capacity),
            allocator@.wf(),
    {
        RangeAllocator { capacity, used: 0, free: Vec::new() }
    }

    /// Total number of items of the buffer.
    pub fn capacity(&self) -> (capacity: u32)
        ensures
            capacity == self@.capacity,
    {
        self.capacity
    }

    /// The high-water mark.
    pub fn used(&self) -> (used: u32)
        ensures
            used == self@.used,
    {
        self.used
    }

    /// Number of ranges on the free list.
    pub fn free_len(&self) -> (len: usize)
        ensures
            len == self@.free.len(),
    {
        self.free.len()
    }

    /// The free list, in the order in which requests look at it.
    pub fn free_ranges(&self) -> (free: &[Range<u32>])
        ensures
            free@ == self@.free,
    {
        self.free.as_slice()
    }

    /// Takes the best fit for `size` items off the free list, as a whole.
    pub fn pop_free_slice(&mut self, size: u32) -> (popped: Option<Range<u32>>)
        requires
            old(self)@.wf(),
        ensures
            final(self)@.wf(),
            final(self)@.capacity == old(self)@.capacity,
            final(self)@.used == old(self)@.used,
            match best_fit(old(self)@.free, size) {
                Some(i) => {
                    &&& popped == Some(old(self)@.free[i])
                    &&& final(self)@.free == old(self)@.free.update(
                        i,
                        old(self)@.free.last(),
                    ).drop_last()
                },
                None => popped.is_none() && final(self)@.free == old(self)@.free,
            },
    {
        let mut best: Option<usize> = None;
        let mut best_span: u32 = 0;
        let mut i: usize = 0;
        while i < self.free.len()
            invariant
                *self == *old(self),
                self@.wf(),
                0 <= i <= self.free.len(),
                match best {
                    Some(b) => {
                        &&& b < i
                        &&& best_span == span(self.free@[b as int])
                        &&& best_span >= size
                        &&& forall|j: int|
                            0 <= j < i && span(#[trigger] self.free@[j]) >= size ==> best_span < span(
                                self.free@[j],
                            ) || (best_span == span(self.free@[j]) && b <= j)
                    },
                    None => forall|j: int| 0 <= j < i ==> span(#[trigger] self.free@[j]) < size,
                },
            decreases self.free.len() - i,
        {
            assert(self@.free[i as int].start < self@.free[i as int].end);
            let len: u32 = self.free[i].end - self.free[i].start;
            if len >= size {
                let better = match best {
                    Some(_) => len < best_span,
                    None => true,
                };
                if better {
                    best = Some(i);
                    best_span = len;
                }
            }
            i += 1;
        }
        match best {
            Some(b) => {
                proof {
                    assert(is_best_fit(self@.free, size, b as int));
                    lemma_best_fit_unique(self@.free, size, b as int);
                    lemma_swap_remove_wf(self@, b as int);
                }
                let range = self.free.swap_remove(b);
                Some(range)
            },
            None => {
                proof {
                    lemma_no_fit(self@.free, size);
                }
                None
            },
        }
    }

    /// Hands out `count` items: the head of the best fit among the free
    /// ranges, or else items from above the high-water mark. `Ok(None)`
    /// says that the buffer has no room for them.
    pub fn allocate(&mut self, count: u32) -> (result: Result<Option<Range<u32>>, BufferError>)
        requires
            old(self)@.wf(),
        ensures
            final(self)@.wf(),
            count == 0 ==> result === Err(BufferError::ZeroLength) && final(self)@ == old(self)@,
            count > 0 ==> result === Ok(old(self)@.allocate(count).1) && final(self)@ == old(
                self,
            )@.allocate(count).0,
    {
        if count == 0 {
            return Err(BufferError::ZeroLength);
        }
        match self.pop_free_slice(count) {
            Some(whole) => {
                proof {
                    let i = best_fit(old(self)@.free, count).unwrap();
                    assert(is_best_fit(old(self)@.free, count, i));
                }
                Ok(Some(whole.start..whole.start + count))
            },
            None => {
                if count <= self.capacity - self.used {
                    let start = self.used;
                    proof {
                        lemma_allocate_wf(self@, count);
                    }
                    self.used = start + count;
                    Ok(Some(start..start + count))
                } else {
                    Ok(None)
                }
            },
        }
    }

    /// Gives a range back for reuse. A range that is empty, reaches above
    /// the high-water mark or shares an item with a free range is turned
    /// down, and `false` returned.
    pub fn release(&mut self, range: Range<u32>) -> (accepted: bool)
        requires
            old(self)@.wf(),
        ensures
            final(self)@.wf(),
            accepted == old(self)@.may_release(range),
            final(self)@ == old(self)@.release(range),
    {
        if range.start >= range.end || range.end > self.used {
            return false;
        }
        let mut i: usize = 0;
        while i < self.free.len()
            invariant
                *self == *old(self),
                self@.wf(),
                0 <= i <= self.free.len(),
                forall|j: int| 0 <= j < i ==> disjoint(range, #[trigger] self.free@[j]),
            decreases self.free.len() - i,
        {
            if !(range.end <= self.free[i].start || self.free[i].end <= range.start) {
                assert(!disjoint(range, self@.free[i as int]));
                return false;
            }
            i += 1;
        }
        proof {
            lemma_release_wf(self@, range);
        }
        self.free.push(range);
        true
    }
}

/// At most one position is the best fit.
pub proof fn lemma_best_fit_unique(free: Seq<Range<u32>>, count: u32, i: int)
    requires
        is_best_fit(free, count, i),
    ensures
        best_fit(free, count) == Some(i),
{
    let k = choose|k: int| is_best_fit(free, count, k);
    assert(is_best_fit(free, count, k));
    assert(span(free[i]) >= count && span(free[k]) >= count);
}

/// Where no range fits, there is no best fit.
pub proof fn lemma_no_fit(free: Seq<Range<u32>>, count: u32)
    requires
        !some_fit(free, count),
    ensures
        best_fit(free, count).is_none(),
{
    if exists|i: int| is_best_fit(free, count, i) {
        let i = choose|i: int| is_best_fit(free, count, i);
        assert(0 <= i < free.len() && span(free[i]) >= count);
    }
}

/// Best fit: where some free range holds the request, the range taken is
/// one that holds it with the least room to spare, and among those the one
/// that comes first on the free list.
pub proof fn lemma_best_fit_least_and_first(free: Seq<Range<u32>>, count: u32)
    requires
        some_fit(free, count),
    ensures
        best_fit(free, count).is_some(),
        ({
            let i = best_fit(free, count).unwrap();
            &&& 0 <= i < free.len()
            &&& span(free[i]) >= count
            &&& forall|j: int|
                0 <= j < free.len() && span(#[trigger] free[j]) >= count ==> span(free[i]) - count
                    <= span(free[j]) - count
            &&& forall|j: int|
                0 <= j < free.len() && span(#[trigger] free[j]) == span(free[i]) ==> i <= j
        }),
{
    let found = lemma_best_fit_upto(free, count, free.len() as int);
    assert(is_best_fit(free, count, found.unwrap()));
    lemma_best_fit_unique(free, count, found.unwrap());
}

/// A request that some free range holds is served from the free list: it
/// gets the head of the range that holds it with the least room to spare,
/// the earliest of these, and that range leaves the free list as a whole.
/// The high-water mark stays where it was.
pub proof fn lemma_allocate_takes_best_fit(state: AllocatorState, count: u32)
    requires
        state.wf(),
        count > 0,
        some_fit(state.free, count),
    ensures
        best_fit(state.free, count).is_some(),
        ({
            let i = best_fit(state.free, count).unwrap();
            let taken = state.free[i];
            &&& is_best_fit(state.free, count, i)
            &&& state.allocate(count).1 == Some(
                Range { start: taken.start, end: (taken.start + count) as u32 },
            )
            &&& within(state.allocate(count).1.unwrap(), taken)
            &&& state.allocate(count).0.used == state.used
            &&& state.allocate(count).0.free.len() == state.free.len() - 1
            &&& forall|k: int|
                0 <= k < state.allocate(count).0.free.len() ==> disjoint(
                    taken,
                    #[trigger] state.allocate(count).0.free[k],
                )
        }),
{
    lemma_best_fit_least_and_first(state.free, count);
    let i = best_fit(state.free, count).unwrap();
    let after = state.allocate(count).0;
    let last = state.free.len() - 1;
    assert forall|k: int| 0 <= k < after.free.len() implies disjoint(
        state.free[i],
        #[trigger] after.free[k],
    ) by {
        let from = if k == i { last } else { k };
        assert(after.free[k] == state.free[from]);
        if from < i {
            assert(disjoint(state.free[from], state.free[i]));
        } else {
            assert(disjoint(state.free[i], state.free[from]));
        }
    }
}

/// The best fit among the first `n` free ranges.
proof fn lemma_best_fit_upto(free: Seq<Range<u32>>, count: u32, n: int) -> (found: Option<int>)
    requires
        0 <= n <= free.len(),
    ensures
        match found {
            Some(b) => {
                &&& 0 <= b < n
                &&& span(free[b]) >= count
                &&& forall|j: int|
                    0 <= j < n && span(#[trigger] free[j]) >= count ==> span(free[b]) < span(free[j])
                        || (span(free[b]) == span(free[j]) && b <= j)
            },
            None => forall|j: int| 0 <= j < n ==> span(#[trigger] free[j]) < count,
        },
    decreases n,
{
    if n == 0 {
        None
    } else {
        let before = lemma_best_fit_upto(free, count, n - 1);
        if span(free[n - 1]) >= count {
            match before {
                Some(b) => if span(free[n - 1]) < span(free[b]) {
                    Some(n - 1)
                } else {
                    Some(b)
                },
                None => Some(n - 1),
            }
        } else {
            before
        }
    }
}

/// Taking one range off the free list, the last in its place, keeps the
/// allocator well formed.
pub proof fn lemma_swap_remove_wf(state: AllocatorState, i: int)
    requires
        state.wf(),
        0 <= i < state.free.len(),
    ensures
        (AllocatorState { free: state.free.update(i, state.free.last()).drop_last(), ..state }).wf(),
{
    let old_free = state.free;
    let new_free = old_free.update(i, old_free.last()).drop_last();
    let last = old_free.len() - 1;
    assert forall|a: int, b: int| 0 <= a < b < new_free.len() implies disjoint(
        #[trigger] new_free[a],
        #[trigger] new_free[b],
    ) by {
        let oa = if a == i { last } else { a };
        let ob = if b == i { last } else { b };
        assert(new_free[a] == old_free[oa]);
        assert(new_free[b] == old_free[ob]);
        if oa < ob {
            assert(disjoint(old_free[oa], old_free[ob]));
        } else {
            assert(disjoint(old_free[ob], old_free[oa]));
        }
    }
    assert forall|a: int| 0 <= a < new_free.len() implies (#[trigger] new_free[a]).start
        < new_free[a].end <= state.used by {
        let oa = if a == i { last } else { a };
        assert(new_free[a] == old_free[oa]);
    }
}

/// A request leaves the allocator well formed. The range handed out holds
/// exactly `count` items below the new high-water mark and shares none
/// with a range that is still free; the capacity stays, and the mark never
/// falls.
pub proof fn lemma_allocate_wf(state: AllocatorState, count: u32)
    requires
        state.wf(),
        count > 0,
    ensures
        state.allocate(count).0.wf(),
        state.allocate(count).0.capacity == state.capacity,
        state.allocate(count).0.used >= state.used,
        match state.allocate(count).1 {
            Some(range) => {
                &&& span(range) == count
                &&& range.end <= state.allocate(count).0.used
                &&& forall|k: int|
                    0 <= k < state.allocate(count).0.free.len() ==> disjoint(
                        range,
                        #[trigger] state.allocate(count).0.free[k],
                    )
            },
            None => state.allocate(count).0 == state,
        },
{
    let after = state.allocate(count).0;
    match best_fit(state.free, count) {
        Some(i) => {
            assert(is_best_fit(state.free, count, i));
            lemma_swap_remove_wf(state, i);
            let range = state.allocate(count).1.unwrap();
            let last = state.free.len() - 1;
            assert forall|k: int| 0 <= k < after.free.len() implies disjoint(
                range,
                #[trigger] after.free[k],
            ) by {
                let ok = if k == i { last } else { k };
                assert(after.free[k] == state.free[ok]);
                if ok < i {
                    assert(disjoint(state.free[ok], state.free[i]));
                } else {
                    assert(disjoint(state.free[i], state.free[ok]));
                }
            }
        },
        None => {},
    }
}

/// Where the items of a request come from: either from inside one range of
/// the free list, the mark staying where it was, or from the old mark up
/// to the new one, the free list staying as it was. Every range still free
/// afterwards was free before.
pub proof fn lemma_allocate_origin(state: AllocatorState, count: u32)
    requires
        state.wf(),
        count > 0,
    ensures
        forall|k: int|
            0 <= k < state.allocate(count).0.free.len() ==> exists|m: int|
                0 <= m < state.free.len() && state.free[m] == #[trigger] state.allocate(
                    count,
                ).0.free[k],
        match state.allocate(count).1 {
            Some(range) => {
                ||| {
                    &&& state.allocate(count).0.used == state.used
                    &&& exists|m: int|
                        0 <= m < state.free.len() && within(range, #[trigger] state.free[m])
                }
                ||| {
                    &&& range.start == state.used
                    &&& range.end == state.allocate(count).0.used
                    &&& state.allocate(count).0.free == state.free
                }
            },
            None => true,
        },
{
    let after = state.allocate(count).0;
    match best_fit(state.free, count) {
        Some(i) => {
            assert(is_best_fit(state.free, count, i));
            let last = state.free.len() - 1;
            assert forall|k: int| 0 <= k < after.free.len() implies exists|m: int|
                0 <= m < state.free.len() && state.free[m] == #[trigger] after.free[k] by {
                let m = if k == i { last } else { k };
                assert(state.free[m] == after.free[k]);
            }
            assert(within(state.allocate(count).1.unwrap(), state.free[i]));
        },
        None => {
            assert forall|k: int| 0 <= k < after.free.len() implies exists|m: int|
                0 <= m < state.free.len() && state.free[m] == #[trigger] after.free[k] by {
                assert(state.free[k] == after.free[k]);
            }
        },
    }
}

/// A release leaves the allocator well formed.
pub proof fn lemma_release_wf(state: AllocatorState, range: Range<u32>)
    requires
        state.wf(),
    ensures
        state.release(range).wf(),
{
    if state.may_release(range) {
        let new_free = state.free.push(range);
        assert forall|a: int, b: int| 0 <= a < b < new_free.len() implies disjoint(
            #[trigger] new_free[a],
            #[trigger] new_free[b],
        ) by {
            if b == state.free.len() {
                assert(disjoint(range, state.free[a]));
            } else {
                assert(disjoint(state.free[a], state.free[b]));
            }
        }
    }
}

} // verus!
