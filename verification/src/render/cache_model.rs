use crate::render::effect_cache::EffectCacheId;
use crate::render::effect_slice::EffectSlice;
use crate::render::error::BufferError;
use crate::render::range_allocator::{
    best_fit, disjoint, lemma_allocate_origin, lemma_allocate_wf, lemma_best_fit_least_and_first,
    lemma_no_fit, lemma_release_wf, some_fit, span, within, AllocatorState,
};
use std::ops::Range;
use vstd::prelude::*;

verus! {

/// Smallest number of particles that a buffer is made for.
pub const MIN_CAPACITY: u32 = 65536;

/// The capacity that a buffer gets when `requested` particles are asked for.
pub open spec fn floor_capacity(requested: u32) -> u32 {
    if requested >= MIN_CAPACITY {
        requested
    } else {
        MIN_CAPACITY
    }
}

/// What an effect buffer holds: the asset whose effects it takes, the item
/// size it was made for, and the state of its allocator.
pub ghost struct BufferState {
    pub asset: u64,
    pub item_size: u32,
    pub alloc: AllocatorState,
}

impl BufferState {
    pub open spec fn new(asset: u64, capacity: u32, item_size: u32) -> BufferState {
        BufferState { asset, item_size, alloc: AllocatorState::empty(floor_capacity(capacity)) }
    }

    /// The allocator is well formed, over no fewer items than the floor.
    pub open spec fn wf(self) -> bool {
        self.alloc.wf() && self.alloc.capacity >= MIN_CAPACITY
    }

    /// A request for `count` items would be served.
    pub open spec fn has_room(self, count: u32) -> bool {
        self.alloc.allocate(count).1.is_some()
    }
}

/// What a cache holds: its buffers in the order of their creation, the
/// slice of every live identifier, and the number of the next identifier.
pub ghost struct CacheState {
    pub buffers: Seq<BufferState>,
    pub slices: Map<u64, EffectSlice>,
    pub next_id: u64,
}

impl CacheState {
    pub open spec fn empty() -> CacheState {
        CacheState { buffers: Seq::empty(), slices: Map::empty(), next_id: 0 }
    }

    /// The slice of a live identifier lies in a buffer of the cache, is
    /// non-empty, ends below that buffer's high-water mark, and shares no
    /// item with a free range of it.
    pub open spec fn slice_wf(self, s: EffectSlice) -> bool {
        &&& s.group_index < self.buffers.len()
        &&& s.slice.start < s.slice.end <= self.buffers[s.group_index as int].alloc.used
        &&& span(s.slice) * s.item_size <= u32::MAX
        &&& forall|k: int|
            0 <= k < self.buffers[s.group_index as int].alloc.free.len() ==> disjoint(
                s.slice,
                #[trigger] self.buffers[s.group_index as int].alloc.free[k],
            )
    }

    /// Every allocator is well formed, every live identifier was handed
    /// out, every live slice is in order, and no two live slices of one
    /// buffer share an item.
    pub open spec fn wf(self) -> bool {
        &&& self.buffers.len() <= u32::MAX + 1
        &&& forall|i: int| 0 <= i < self.buffers.len() ==> (#[trigger] self.buffers[i]).wf()
        &&& forall|id: u64| #[trigger]
            self.slices.contains_key(id) ==> id < self.next_id && self.slice_wf(self.slices[id])
        &&& forall|a: u64, b: u64|
            #![trigger self.slices[a], self.slices[b]]
            self.slices.contains_key(a) && self.slices.contains_key(b) && a != b
                && self.slices[a].group_index == self.slices[b].group_index ==> disjoint(
                self.slices[a].slice,
                self.slices[b].slice,
            )
    }

    /// Buffer `i` takes the effects of `asset` and would serve `count` items.
    pub open spec fn serves(self, i: int, asset: u64, count: u32) -> bool {
        &&& 0 <= i < self.buffers.len()
        &&& self.buffers[i].asset == asset
        &&& self.buffers[i].has_room(count)
    }

    /// Buffer `i` is the first that serves the request.
    pub open spec fn is_target(self, i: int, asset: u64, count: u32) -> bool {
        &&& self.serves(i, asset, count)
        &&& forall|j: int| 0 <= j < i ==> !self.serves(j, asset, count)
    }

    /// The buffer that a request goes to, if any serves it.
    pub open spec fn target(self, asset: u64, count: u32) -> Option<int> {
        if exists|i: int| self.is_target(i, asset, count) {
            Some(choose|i: int| self.is_target(i, asset, count))
        } else {
            None
        }
    }

    /// There is an identifier left to hand out, and a buffer added now
    /// would get a number that fits in 32 bits.
    pub open spec fn has_room_to_grow(self) -> bool {
        self.next_id < u64::MAX && self.buffers.len() <= u32::MAX
    }

    /// The request is turned down, for this reason, whatever the cache
    /// holds. The byte size is looked at first, then the number of items.
    pub open spec fn refusal(capacity: u32, item_size: u32) -> Option<BufferError> {
        if capacity * item_size > u32::MAX {
            Some(BufferError::SizeOverflow)
        } else if capacity == 0 {
            Some(BufferError::ZeroLength)
        } else {
            None
        }
    }

    /// An insertion into a cache that has room to grow. A request that is
    /// not refused goes to the first buffer of its asset that has room, or
    /// else to a new buffer at the end, made for at least `capacity` items,
    /// whose first items it takes. It gets the next identifier.
    pub open spec fn insert(self, asset: u64, capacity: u32, item_size: u32) -> (
        CacheState,
        Result<EffectCacheId, BufferError>,
    ) {
        match Self::refusal(capacity, item_size) {
            Some(error) => (self, Err(error)),
            None => match self.target(asset, capacity) {
                Some(i) => {
                    let served = self.buffers[i].alloc.allocate(capacity);
                    let slice = EffectSlice {
                        slice: served.1.unwrap(),
                        group_index: i as u32,
                        item_size,
                    };
                    (
                        CacheState {
                            buffers: self.buffers.update(
                                i,
                                BufferState { alloc: served.0, ..self.buffers[i] },
                            ),
                            slices: self.slices.insert(self.next_id, slice),
                            next_id: (self.next_id + 1) as u64,
                        },
                        Ok(EffectCacheId(self.next_id)),
                    )
                },
                None => {
                    let made = BufferState::new(asset, capacity, item_size);
                    let served = made.alloc.allocate(capacity);
                    let slice = EffectSlice {
                        slice: served.1.unwrap(),
                        group_index: self.buffers.len() as u32,
                        item_size,
                    };
                    (
                        CacheState {
                            buffers: self.buffers.push(BufferState { alloc: served.0, ..made }),
                            slices: self.slices.insert(self.next_id, slice),
                            next_id: (self.next_id + 1) as u64,
                        },
                        Ok(EffectCacheId(self.next_id)),
                    )
                },
            },
        }
    }

    /// A removal. The slice of a live identifier goes back to the free
    /// list of its buffer, and the identifier is live no more.
    pub open spec fn remove(self, id: EffectCacheId) -> (CacheState, Result<EffectSlice, BufferError>) {
        if self.slices.contains_key(id.0) {
            let slice = self.slices[id.0];
            let i = slice.group_index as int;
            (
                CacheState {
                    buffers: self.buffers.update(
                        i,
                        BufferState {
                            alloc: self.buffers[i].alloc.release(slice.slice),
                            ..self.buffers[i]
                        },
                    ),
                    slices: self.slices.remove(id.0),
                    next_id: self.next_id,
                },
                Ok(slice),
            )
        } else {
            (self, Err(BufferError::UnknownIdentifier))
        }
    }
}

/// A fresh buffer serves the request it was made for with its first items.
pub proof fn lemma_new_buffer_serves(asset: u64, capacity: u32, item_size: u32)
    requires
        capacity > 0,
    ensures
        ({
            let made = BufferState::new(asset, capacity, item_size);
            &&& made.wf()
            &&& made.alloc.allocate(capacity).1 == Some(Range { start: 0u32, end: capacity })
            &&& made.alloc.allocate(capacity).0 == AllocatorState {
                used: capacity,
                ..made.alloc
            }
        }),
{
    let made = BufferState::new(asset, capacity, item_size);
    lemma_no_fit(made.alloc.free, capacity);
}

/// At most one buffer is the first to serve a request.
pub proof fn lemma_target_unique(state: CacheState, i: int, asset: u64, count: u32)
    requires
        state.is_target(i, asset, count),
    ensures
        state.target(asset, count) == Some(i),
{
    let k = choose|k: int| state.is_target(k, asset, count);
    assert(state.is_target(k, asset, count));
    if k < i {
        assert(!state.serves(k, asset, count));
    } else if i < k {
        assert(!state.serves(i, asset, count));
    }
}

/// Where no buffer serves a request, it has no target.
pub proof fn lemma_no_target(state: CacheState, asset: u64, count: u32)
    requires
        forall|j: int| 0 <= j < state.buffers.len() ==> !state.serves(j, asset, count),
    ensures
        state.target(asset, count).is_none(),
{
    if exists|i: int| state.is_target(i, asset, count) {
        let i = choose|i: int| state.is_target(i, asset, count);
        assert(state.serves(i, asset, count));
    }
}

/// An insertion keeps the cache well formed: in particular the slice it
/// hands out shares no item with any slice that is live in the same buffer.
pub proof fn lemma_insert_wf(state: CacheState, asset: u64, capacity: u32, item_size: u32)
    requires
        state.wf(),
        state.has_room_to_grow(),
    ensures
        state.insert(asset, capacity, item_size).0.wf(),
{
    let after = state.insert(asset, capacity, item_size).0;
    if CacheState::refusal(capacity, item_size).is_none() {
        match state.target(asset, capacity) {
            Some(i) => {
                assert(state.is_target(i, asset, capacity));
                let before = state.buffers[i].alloc;
                let served = before.allocate(capacity);
                lemma_allocate_wf(before, capacity);
                lemma_allocate_origin(before, capacity);
                assert(after.buffers[i].alloc == served.0);
                assert forall|j: int| 0 <= j < after.buffers.len() implies (
                #[trigger] after.buffers[j]).wf() by {
                    if j != i {
                        assert(after.buffers[j] == state.buffers[j]);
                    }
                }
                assert forall|id: u64| #[trigger] after.slices.contains_key(id) implies id
                    < after.next_id && after.slice_wf(after.slices[id]) by {
                    if id != state.next_id {
                        assert(state.slices.contains_key(id));
                        let s = state.slices[id];
                        assert(state.slice_wf(s));
                        lemma_slice_survives(state, after, i, s, capacity);
                    }
                }
                assert forall|a: u64, b: u64|
                    #![trigger after.slices[a], after.slices[b]]
                    after.slices.contains_key(a) && after.slices.contains_key(b) && a != b
                        && after.slices[a].group_index
                        == after.slices[b].group_index implies disjoint(
                    after.slices[a].slice,
                    after.slices[b].slice,
                ) by {
                    if a == state.next_id {
                        assert(state.slices.contains_key(b));
                        lemma_slice_apart(state, i, state.slices[b], capacity);
                    } else if b == state.next_id {
                        assert(state.slices.contains_key(a));
                        lemma_slice_apart(state, i, state.slices[a], capacity);
                    } else {
                        assert(state.slices.contains_key(a) && state.slices.contains_key(b));
                    }
                }
            },
            None => {
                lemma_new_buffer_serves(asset, capacity, item_size);
                let n = state.buffers.len() as int;
                assert forall|j: int| 0 <= j < after.buffers.len() implies (
                #[trigger] after.buffers[j]).wf() by {
                    if j != n {
                        assert(after.buffers[j] == state.buffers[j]);
                    }
                }
                assert forall|id: u64| #[trigger] after.slices.contains_key(id) implies id
                    < after.next_id && after.slice_wf(after.slices[id]) by {
                    if id != state.next_id {
                        assert(state.slices.contains_key(id));
                        let s = state.slices[id];
                        assert(state.slice_wf(s));
                        assert(after.buffers[s.group_index as int]
                            == state.buffers[s.group_index as int]);
                    }
                }
                assert forall|a: u64, b: u64|
                    #![trigger after.slices[a], after.slices[b]]
                    after.slices.contains_key(a) && after.slices.contains_key(b) && a != b
                        && after.slices[a].group_index
                        == after.slices[b].group_index implies disjoint(
                    after.slices[a].slice,
                    after.slices[b].slice,
                ) by {
                    if a == state.next_id {
                        assert(state.slices.contains_key(b));
                        assert(state.slice_wf(state.slices[b]));
                    } else if b == state.next_id {
                        assert(state.slices.contains_key(a));
                        assert(state.slice_wf(state.slices[a]));
                    } else {
                        assert(state.slices.contains_key(a) && state.slices.contains_key(b));
                    }
                }
            },
        }
    }
}

/// A slice that was in order before buffer `i` served a request is in
/// order afterwards.
proof fn lemma_slice_survives(
    state: CacheState,
    after: CacheState,
    i: int,
    s: EffectSlice,
    count: u32,
)
    requires
        state.wf(),
        state.slice_wf(s),
        0 <= i < state.buffers.len(),
        count > 0,
        after.buffers == state.buffers.update(
            i,
            BufferState { alloc: state.buffers[i].alloc.allocate(count).0, ..state.buffers[i] },
        ),
    ensures
        after.slice_wf(s),
{
    let g = s.group_index as int;
    if g == i {
        let before = state.buffers[i].alloc;
        lemma_allocate_wf(before, count);
        lemma_allocate_origin(before, count);
        let now = after.buffers[i].alloc;
        assert forall|k: int| 0 <= k < now.free.len() implies disjoint(
            s.slice,
            #[trigger] now.free[k],
        ) by {
            let m = choose|m: int| 0 <= m < before.free.len() && before.free[m] == now.free[k];
            assert(disjoint(s.slice, before.free[m]));
        }
    } else {
        assert(after.buffers[g] == state.buffers[g]);
    }
}

/// A slice that is in order shares no item with what buffer `i` hands out
/// next, if it lies in that buffer.
proof fn lemma_slice_apart(state: CacheState, i: int, s: EffectSlice, count: u32)
    requires
        state.wf(),
        state.slice_wf(s),
        0 <= i < state.buffers.len(),
        count > 0,
        state.buffers[i].has_room(count),
    ensures
        s.group_index == i ==> disjoint(
            s.slice,
            state.buffers[i].alloc.allocate(count).1.unwrap(),
        ),
{
    if s.group_index == i {
        let before = state.buffers[i].alloc;
        lemma_allocate_wf(before, count);
        lemma_allocate_origin(before, count);
        let range = before.allocate(count).1.unwrap();
        if before.allocate(count).0.used == before.used && exists|m: int|
            0 <= m < before.free.len() && within(range, #[trigger] before.free[m]) {
            let m = choose|m: int|
                0 <= m < before.free.len() && within(range, #[trigger] before.free[m]);
            assert(disjoint(s.slice, before.free[m]));
        }
    }
}

/// In a cache that is well formed every live slice lies in one buffer of
/// the cache, within the capacity of that buffer; two live slices of one
/// buffer share no item; and the invalid identifier is never live.
pub proof fn lemma_live_slices(state: CacheState, a: u64, b: u64)
    requires
        state.wf(),
        state.slices.contains_key(a),
        state.slices.contains_key(b),
        a != b,
    ensures
        a != u64::MAX,
        state.slices[a].group_index < state.buffers.len(),
        state.slices[a].slice.start < state.slices[a].slice.end
            <= state.buffers[state.slices[a].group_index as int].alloc.capacity,
        state.slices[a].group_index == state.slices[b].group_index ==> disjoint(
            state.slices[a].slice,
            state.slices[b].slice,
        ),
{
    assert(state.slice_wf(state.slices[a]));
    assert(state.buffers[state.slices[a].group_index as int].wf());
}

/// Identifiers count up and are not used again: the one that an
/// insertion hands out is the number of the next identifier, which then
/// goes up by one; it is above every identifier that is live, and it is
/// not the invalid one. Every slice that was live stays as it was.
pub proof fn lemma_insert_mints_fresh_id(
    state: CacheState,
    asset: u64,
    capacity: u32,
    item_size: u32,
)
    requires
        state.wf(),
        state.has_room_to_grow(),
        CacheState::refusal(capacity, item_size).is_none(),
    ensures
        ({
            let after = state.insert(asset, capacity, item_size).0;
            let id = state.insert(asset, capacity, item_size).1.unwrap();
            &&& state.insert(asset, capacity, item_size).1.is_ok()
            &&& id.0 == state.next_id
            &&& id.0 != u64::MAX
            &&& !state.slices.contains_key(id.0)
            &&& after.slices.contains_key(id.0)
            &&& after.next_id == state.next_id + 1
            &&& forall|other: u64| #[trigger]
                state.slices.contains_key(other) ==> other < id.0 && after.slices.contains_key(
                    other,
                ) && after.slices[other] == state.slices[other]
        }),
{
    if state.slices.contains_key(state.next_id) {
        assert(state.next_id < state.next_id);
    }
}

/// A removal keeps the cache well formed, and leaves the number of the
/// next identifier as it was: the identifier that went is not handed out
/// again.
pub proof fn lemma_remove_wf(state: CacheState, id: EffectCacheId)
    requires
        state.wf(),
    ensures
        state.remove(id).0.wf(),
        state.remove(id).0.next_id == state.next_id,
        !state.remove(id).0.slices.contains_key(id.0),
{
    let after = state.remove(id).0;
    if state.slices.contains_key(id.0) {
        let gone = state.slices[id.0];
        let i = gone.group_index as int;
        assert(state.slice_wf(gone));
        let before = state.buffers[i].alloc;
        lemma_release_wf(before, gone.slice);
        assert(before.may_release(gone.slice));
        assert forall|j: int| 0 <= j < after.buffers.len() implies (#[trigger] after.buffers[j]).wf() by {
            if j != i {
                assert(after.buffers[j] == state.buffers[j]);
            }
        }
        assert forall|k: u64| #[trigger] after.slices.contains_key(k) implies k < after.next_id
            && after.slice_wf(after.slices[k]) by {
            assert(state.slices.contains_key(k));
            let s = state.slices[k];
            assert(state.slice_wf(s));
            let g = s.group_index as int;
            if g == i {
                let now = after.buffers[i].alloc;
                assert(disjoint(state.slices[k].slice, state.slices[id.0].slice));
                assert forall|m: int| 0 <= m < now.free.len() implies disjoint(
                    s.slice,
                    #[trigger] now.free[m],
                ) by {
                    if m < before.free.len() {
                        assert(now.free[m] == before.free[m]);
                    }
                }
            } else {
                assert(after.buffers[g] == state.buffers[g]);
            }
        }
        assert forall|a: u64, b: u64|
            #![trigger after.slices[a], after.slices[b]]
            after.slices.contains_key(a) && after.slices.contains_key(b) && a != b
                && after.slices[a].group_index == after.slices[b].group_index implies disjoint(
            after.slices[a].slice,
            after.slices[b].slice,
        ) by {
            assert(state.slices.contains_key(a) && state.slices.contains_key(b));
        }
    }
}

/// A buffer has room for a request if a free range holds it or the items
/// above the high-water mark do, and only then.
pub proof fn lemma_has_room(buffer: BufferState, count: u32)
    ensures
        buffer.has_room(count) <==> some_fit(buffer.alloc.free, count) || buffer.alloc.used + count
            <= buffer.alloc.capacity,
{
    if some_fit(buffer.alloc.free, count) {
        lemma_best_fit_least_and_first(buffer.alloc.free, count);
    } else {
        lemma_no_fit(buffer.alloc.free, count);
    }
}

/// A request that no buffer of its asset has room for opens a new buffer
/// at the end of the cache and gets the first items of it. The buffers
/// that were there stay as they were.
pub proof fn lemma_insert_opens_buffer(state: CacheState, asset: u64, capacity: u32, item_size: u32)
    requires
        state.wf(),
        state.has_room_to_grow(),
        CacheState::refusal(capacity, item_size).is_none(),
        forall|i: int|
            0 <= i < state.buffers.len() && (#[trigger] state.buffers[i]).asset == asset
                ==> !state.buffers[i].has_room(capacity),
    ensures
        ({
            let after = state.insert(asset, capacity, item_size).0;
            let made = after.buffers.last();
            &&& state.insert(asset, capacity, item_size).1 == Ok::<EffectCacheId, BufferError>(
                EffectCacheId(state.next_id),
            )
            &&& after.buffers.len() == state.buffers.len() + 1
            &&& after.buffers.drop_last() == state.buffers
            &&& made.asset == asset
            &&& made.item_size == item_size
            &&& made.alloc.capacity == floor_capacity(capacity)
            &&& made.alloc.used == capacity
            &&& after.slices == state.slices.insert(
                state.next_id,
                EffectSlice {
                    slice: Range { start: 0u32, end: capacity },
                    group_index: state.buffers.len() as u32,
                    item_size,
                },
            )
        }),
{
    lemma_no_target(state, asset, capacity);
    lemma_new_buffer_serves(asset, capacity, item_size);
    let after = state.insert(asset, capacity, item_size).0;
    assert(after.buffers.drop_last() =~= state.buffers);
}

/// The state after the requests `capacities`, in their order, for
/// effects of one asset and one item size.
pub open spec fn insert_all(state: CacheState, asset: u64, item_size: u32, capacities: Seq<u32>)
    -> CacheState
    decreases capacities.len(),
{
    if capacities.len() == 0 {
        state
    } else {
        insert_all(state, asset, item_size, capacities.drop_last()).insert(
            asset,
            capacities.last(),
            item_size,
        ).0
    }
}

/// The sum of the first `n` capacities.
pub open spec fn total(capacities: Seq<u32>, n: int) -> int
    decreases n,
{
    if n <= 0 {
        0
    } else {
        total(capacities, n - 1) + capacities[n - 1]
    }
}

/// The slice lies in the first buffer, behind `before` items, and holds
/// `count` items of `item_size` bytes.
pub open spec fn lies_behind(slice: EffectSlice, before: int, count: int, item_size: u32) -> bool {
    &&& slice.group_index == 0
    &&& slice.slice.start == before
    &&& slice.slice.end == before + count
    &&& slice.item_size == item_size
}

/// Requests for effects of one asset that together fit in the buffer
/// which the first of them opens all land in that buffer, one behind the
/// other in the order of the requests, so that no two share an item.
pub proof fn lemma_one_buffer_holds_all(asset: u64, item_size: u32, capacities: Seq<u32>)
    requires
        capacities.len() > 0,
        forall|k: int|
            0 <= k < capacities.len() ==> 0 < #[trigger] capacities[k] && capacities[k] * item_size
                <= u32::MAX,
        total(capacities, capacities.len() as int) <= floor_capacity(capacities[0]),
    ensures
        ({
            let after = insert_all(CacheState::empty(), asset, item_size, capacities);
            &&& after.wf()
            &&& after.buffers.len() == 1
            &&& after.buffers[0].alloc.capacity == floor_capacity(capacities[0])
            &&& forall|k: int|
                0 <= k < capacities.len() ==> after.slices.contains_key(k as u64) && lies_behind(
                    #[trigger] after.slices[k as u64],
                    total(capacities, k),
                    capacities[k] as int,
                    item_size,
                )
            &&& forall|a: int, b: int|
                0 <= a < b < capacities.len() ==> disjoint(
                    #[trigger] after.slices[a as u64].slice,
                    #[trigger] after.slices[b as u64].slice,
                )
        }),
{
    let n = capacities.len() as int;
    lemma_run(asset, item_size, capacities, n);
    let after = insert_all(CacheState::empty(), asset, item_size, capacities);
    assert(capacities.subrange(0, n) =~= capacities);
    assert forall|a: int, b: int| 0 <= a < b < capacities.len() implies disjoint(
        #[trigger] after.slices[a as u64].slice,
        #[trigger] after.slices[b as u64].slice,
    ) by {
        lemma_total_grows(capacities, a + 1, b);
        lemma_total_grows(capacities, 0, a);
        lemma_total_grows(capacities, b + 1, n);
    }
}

/// The sums of the capacities do not fall.
proof fn lemma_total_grows(capacities: Seq<u32>, m: int, n: int)
    requires
        0 <= m <= n,
    ensures
        0 <= total(capacities, m) <= total(capacities, n),
    decreases n,
{
    if n > 0 {
        if m < n {
            lemma_total_grows(capacities, m, n - 1);
        } else {
            lemma_total_grows(capacities, m - 1, n - 1);
        }
    }
}

/// Requests for at least one item each add up to no less than their number.
proof fn lemma_total_counts(capacities: Seq<u32>, n: int)
    requires
        0 <= n <= capacities.len(),
        forall|k: int| 0 <= k < capacities.len() ==> 0 < #[trigger] capacities[k],
    ensures
        n <= total(capacities, n),
    decreases n,
{
    if n > 0 {
        lemma_total_counts(capacities, n - 1);
    }
}

/// What the cache holds after the first `n` of the requests.
proof fn lemma_run(asset: u64, item_size: u32, capacities: Seq<u32>, n: int)
    requires
        0 < n <= capacities.len(),
        forall|k: int|
            0 <= k < capacities.len() ==> 0 < #[trigger] capacities[k] && capacities[k] * item_size
                <= u32::MAX,
        total(capacities, n) <= floor_capacity(capacities[0]),
    ensures
        ({
            let after = insert_all(CacheState::empty(), asset, item_size, capacities.subrange(0, n));
            &&& after.wf()
            &&& after.next_id == n
            &&& after.buffers.len() == 1
            &&& after.buffers[0] == (BufferState {
                asset,
                item_size,
                alloc: AllocatorState {
                    capacity: floor_capacity(capacities[0]),
                    used: total(capacities, n) as u32,
                    free: Seq::empty(),
                },
            })
            &&& forall|k: u64| #[trigger] after.slices.contains_key(k) <==> k < n
            &&& forall|k: int|
                0 <= k < n ==> lies_behind(
                    #[trigger] after.slices[k as u64],
                    total(capacities, k),
                    capacities[k] as int,
                    item_size,
                )
        }),
    decreases n,
{
    let requests = capacities.subrange(0, n);
    let count = capacities[n - 1];
    assert(requests.last() == count);
    assert(requests.drop_last() =~= capacities.subrange(0, n - 1));
    lemma_total_grows(capacities, n - 1, n);
    lemma_total_grows(capacities, 0, n - 1);
    assert(total(capacities, n) == total(capacities, n - 1) + count);
    if n == 1 {
        let start = CacheState::empty();
        assert(insert_all(start, asset, item_size, capacities.subrange(0, 0)) == start);
        assert(total(capacities, 0) == 0);
        lemma_insert_wf(start, asset, count, item_size);
        lemma_insert_opens_buffer(start, asset, count, item_size);
        let after = start.insert(asset, count, item_size).0;
        assert(after.buffers[0] == after.buffers.last());
        lemma_new_buffer_serves(asset, count, item_size);
    } else {
        lemma_run(asset, item_size, capacities, n - 1);
        let state = insert_all(CacheState::empty(), asset, item_size, capacities.subrange(0, n - 1));
        let alloc = state.buffers[0].alloc;
        lemma_no_fit(alloc.free, count);
        assert(state.serves(0, asset, count));
        assert(state.is_target(0, asset, count));
        lemma_target_unique(state, 0, asset, count);
        lemma_total_counts(capacities, n - 1);
        assert(state.has_room_to_grow());
        lemma_insert_wf(state, asset, count, item_size);
        let after = state.insert(asset, count, item_size).0;
        assert(best_fit(alloc.free, count).is_none());
        let slice = EffectSlice {
            slice: Range { start: alloc.used, end: (alloc.used + count) as u32 },
            group_index: 0,
            item_size,
        };
        assert(alloc.allocate(count).1 == Some(slice.slice));
        assert(after.slices == state.slices.insert(state.next_id, slice));
        assert(after.buffers[0].alloc.free =~= Seq::<Range<u32>>::empty());
        assert forall|k: int| 0 <= k < n implies lies_behind(
            #[trigger] after.slices[k as u64],
            total(capacities, k),
            capacities[k] as int,
            item_size,
        ) by {
            if k < n - 1 {
                assert(state.slices.contains_key(k as u64));
                assert(after.slices[k as u64] == state.slices[k as u64]);
            } else {
                assert(k as u64 == state.next_id);
            }
        }
    }
}

} // verus!
