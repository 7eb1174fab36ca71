use crate::render::cache_model::{
    lemma_insert_wf, lemma_new_buffer_serves, lemma_no_target, lemma_remove_wf,
    lemma_target_unique, BufferState, CacheState, MIN_CAPACITY,
};
use crate::render::effect_slice::EffectSlice;
use crate::render::error::BufferError;
use crate::render::range_allocator::{lemma_allocate_wf, span, RangeAllocator};
use crate::render::typed_buffer::BufferSpan;
use std::ops::Range;
use vstd::prelude::*;

verus! {

/// A slice of a buffer that was handed out: its items, and the size in
/// bytes of one of them.
#[derive(Debug, Clone, Copy)]
pub struct SliceRef {
    start: u32,
    end: u32,
    item_size: u32,
}

/// What a slice reference stands for.
pub ghost struct SliceModel {
    pub range: Range<u32>,
    pub item_size: u32,
}

impl View for SliceRef {
    type V = SliceModel;

    closed spec fn view(&self) -> SliceModel {
        SliceModel { range: Range { start: self.start, end: self.end }, item_size: self.item_size }
    }
}

impl SliceRef {
    /// The slice is non-empty, and its byte size fits in 32 bits.
    #[verifier::type_invariant]
    closed spec fn inv(&self) -> bool {
        self.start < self.end && (self.end - self.start) * self.item_size <= u32::MAX
    }

    /// Number of items.
    pub fn len(&self) -> (len: u32)
        ensures
            len == span(self@.range),
            len > 0,
    {
        proof {
            use_type_invariant(self);
        }
        self.end - self.start
    }

    /// Number of bytes.
    pub fn byte_size(&self) -> (bytes: usize)
        ensures
            bytes == span(self@.range) * self@.item_size,
    {
        proof {
            use_type_invariant(self);
        }
        let bytes: u32 = (self.end - self.start) * self.item_size;
        bytes as usize
    }

    /// The items of the slice.
    pub fn range(&self) -> (range: Range<u32>)
        ensures
            range == self@.range,
            range.start < range.end,
    {
        proof {
            use_type_invariant(self);
        }
        self.start..self.end
    }

    /// Size of one item, in bytes.
    pub fn item_size(&self) -> (item_size: u32)
        ensures
            item_size == self@.item_size,
    {
        self.item_size
    }
}

/// The bookkeeping of one pair of device buffers, which hold the
/// particles and the indirection indices of every effect of one asset.
///
/// A buffer is made by `new` and changed by its own methods only, and each
/// of them keeps it well formed.
pub struct EffectBuffer {
    /// Size of each particle, in bytes.
    item_size: u32,
    /// Which particles are in use.
    allocator: RangeAllocator,
    /// The asset whose effects share this buffer.
    asset: u64,
}

impl View for EffectBuffer {
    type V = BufferState;

    closed spec fn view(&self) -> BufferState {
        BufferState { asset: self.asset, item_size: self.item_size, alloc: self.allocator@ }
    }
}

impl EffectBuffer {
    /// Minimum buffer capacity, in number of particles.
    pub const MIN_CAPACITY: u32 = MIN_CAPACITY;

    /// The bookkeeping of a buffer for the effects of `asset`, with room
    /// for `capacity` particles and no fewer than the floor.
    pub fn new(asset: u64, capacity: u32, item_size: u32) -> (buffer: Self)
        ensures
            buffer@ == BufferState::new(asset, capacity, item_size),
            buffer@.wf(),
    {
        let capacity = if capacity >= MIN_CAPACITY {
            capacity
        } else {
            MIN_CAPACITY
        };
        EffectBuffer { item_size, allocator: RangeAllocator::new(capacity), asset }
    }

    /// Number of particles that the buffer holds.
    pub fn capacity(&self) -> (capacity: u32)
        ensures
            capacity == self@.alloc.capacity,
    {
        self.allocator.capacity()
    }

    /// Size in bytes of the particles that the buffer was made for.
    pub fn item_size(&self) -> (item_size: u32)
        ensures
            item_size == self@.item_size,
    {
        self.item_size
    }

    /// The asset whose effects share the buffer.
    pub fn asset(&self) -> (asset: u64)
        ensures
            asset == self@.asset,
    {
        self.asset
    }

    /// Number of particles below the high-water mark.
    pub fn used_size(&self) -> (used: u32)
        ensures
            used == self@.alloc.used,
    {
        self.allocator.used()
    }

    /// Size in bytes of the device buffer that holds the particles.
    pub fn particle_buffer_size(&self) -> (bytes: u64)
        ensures
            bytes == self@.alloc.capacity * self@.item_size,
    {
        let capacity: u64 = self.allocator.capacity() as u64;
        let item_size: u64 = self.item_size as u64;
        proof {
            assert(capacity * item_size <= 0xffff_ffff * 0xffff_ffff) by (nonlinear_arith)
                requires
                    0 <= capacity <= 0xffff_ffff,
                    0 <= item_size <= 0xffff_ffff,
            ;
        }
        capacity * item_size
    }

    /// Size in bytes of the device buffer that holds the indirection
    /// indices, one 32-bit index for each particle.
    pub fn indirect_buffer_size(&self) -> (bytes: u64)
        ensures
            bytes == self@.alloc.capacity * 4,
    {
        (self.allocator.capacity() as u64) * 4
    }

    /// The whole particle buffer.
    pub fn max_binding(&self) -> (binding: BufferSpan)
        requires
            self@.wf(),
            self@.item_size > 0,
        ensures
            binding.offset == 0,
            binding.size == self@.alloc.capacity * self@.item_size,
            binding.size > 0,
    {
        let size = self.particle_buffer_size();
        proof {
            assert(self@.alloc.capacity * self@.item_size > 0) by (nonlinear_arith)
                requires
                    self@.alloc.capacity > 0,
                    self@.item_size > 0,
            ;
        }
        BufferSpan { offset: 0, size }
    }

    /// The first `size` bytes of the particle buffer.
    pub fn binding(&self, size: u32) -> (binding: BufferSpan)
        requires
            size > 0,
        ensures
            binding.offset == 0,
            binding.size == size,
    {
        BufferSpan { offset: 0, size: size as u64 }
    }

    /// The whole buffer of indirection indices.
    pub fn indirect_max_binding(&self) -> (binding: BufferSpan)
        requires
            self@.wf(),
        ensures
            binding.offset == 0,
            binding.size == self@.alloc.capacity * 4,
            binding.size > 0,
    {
        BufferSpan { offset: 0, size: self.indirect_buffer_size() }
    }

    /// Asks the allocator for `capacity` particles of `particle_item_size`
    /// bytes each. `Ok(None)` says that the buffer has no room for them.
    pub fn allocate_particle_slice(&mut self, capacity: u32, particle_item_size: u32) -> (result:
        Result<Option<SliceRef>, BufferError>)
        requires
            old(self)@.wf(),
        ensures
            final(self)@.wf(),
            final(self)@.asset == old(self)@.asset,
            final(self)@.item_size == old(self)@.item_size,
            capacity * particle_item_size > u32::MAX ==> result === Err(BufferError::SizeOverflow)
                && final(self)@ == old(self)@,
            capacity * particle_item_size <= u32::MAX && capacity == 0 ==> result === Err(
                BufferError::ZeroLength,
            ) && final(self)@ == old(self)@,
            capacity * particle_item_size <= u32::MAX && capacity > 0 ==> {
                &&& final(self)@.alloc == old(self)@.alloc.allocate(capacity).0
                &&& match result {
                    Ok(Some(slice)) => old(self)@.alloc.allocate(capacity).1 == Some(slice@.range)
                        && slice@.item_size == particle_item_size,
                    Ok(None) => old(self)@.alloc.allocate(capacity).1.is_none(),
                    Err(_) => false,
                }
            },
    {
        if capacity.checked_mul(particle_item_size).is_none() {
            return Err(BufferError::SizeOverflow);
        }
        if capacity == 0 {
            return Err(BufferError::ZeroLength);
        }
        proof {
            lemma_allocate_wf(self@.alloc, capacity);
        }
        match self.allocator.allocate(capacity) {
            Ok(Some(range)) => Ok(
                Some(SliceRef { start: range.start, end: range.end, item_size: particle_item_size }),
            ),
            Ok(None) => Ok(None),
            Err(error) => Err(error),
        }
    }

    /// Gives the particles of a slice back for reuse. A slice that the
    /// allocator cannot take back is turned down, and `false` returned.
    pub fn free_particle_slice(&mut self, slice: SliceRef) -> (accepted: bool)
        requires
            old(self)@.wf(),
        ensures
            final(self)@.wf(),
            accepted == old(self)@.alloc.may_release(slice@.range),
            final(self)@ == (BufferState {
                alloc: old(self)@.alloc.release(slice@.range),
                ..old(self)@
            }),
    {
        self.allocator.release(slice.range())
    }

    /// Whether effects of `asset` may share this buffer.
    pub fn is_compatible(&self, asset: u64) -> (compatible: bool)
        ensures
            compatible == (asset == self@.asset),
    {
        asset == self.asset
    }
}

/// Identifier of an effect instance held by a cache.
#[derive(Debug, Clone, Copy, PartialEq, Eq, Hash, Structural)]
pub struct EffectCacheId(pub u64);

impl EffectCacheId {
    /// An identifier that no cache hands out.
    pub fn invalid() -> (id: EffectCacheId)
        ensures
            id == EffectCacheId(u64::MAX),
    {
        EffectCacheId(u64::MAX)
    }
}

impl Default for EffectCacheId {
    fn default() -> (id: Self)
        ensures
            id == EffectCacheId(0),
    {
        EffectCacheId(0)
    }
}

/// The table that remembers, for each live identifier, the index of its
/// buffer and its slice of that buffer.
#[verifier::external_body]
pub struct SliceTable {
    entries: bevy::utils::HashMap<u64, (usize, SliceRef)>,
}

/// The entries of a table.
pub uninterp spec fn slice_table_entries(table: SliceTable) -> Map<u64, (usize, SliceRef)>;

impl SliceTable {
    /// `HashMap::default` of hashbrown, with the hasher that bevy picks:
    /// the new map has no entry.
    #[verifier::external_body]
    fn new() -> (made: SliceTable)
        ensures
            slice_table_entries(made) === Map::empty(),
    {
        SliceTable { entries: bevy::utils::HashMap::default() }
    }

    /// `HashMap::insert` of hashbrown: afterwards the key maps to the new
    /// value, whether or not it had one, and every other key is as before.
    #[verifier::external_body]
    fn insert(&mut self, id: u64, buffer_index: usize, slice: SliceRef)
        ensures
            slice_table_entries(*final(self)) == slice_table_entries(*old(self)).insert(
                id,
                (buffer_index, slice),
            ),
    {
        self.entries.insert(id, (buffer_index, slice));
    }

    /// `HashMap::get` of hashbrown: the value of the key, if it has one.
    #[verifier::external_body]
    fn get(&self, id: u64) -> (found: Option<(usize, SliceRef)>)
        ensures
            found == if slice_table_entries(*self).contains_key(id) {
                Some(slice_table_entries(*self)[id])
            } else {
                None
            },
    {
        self.entries.get(&id).copied()
    }

    /// `HashMap::remove` of hashbrown: the value that the key had, if any;
    /// afterwards the key has none, and every other key is as before.
    #[verifier::external_body]
    fn remove(&mut self, id: u64) -> (removed: Option<(usize, SliceRef)>)
        ensures
            removed == if slice_table_entries(*old(self)).contains_key(id) {
                Some(slice_table_entries(*old(self))[id])
            } else {
                None
            },
            slice_table_entries(*final(self)) == slice_table_entries(*old(self)).remove(id),
    {
        self.entries.remove(&id)
    }
}

/// The externally visible form of a table entry.
pub open spec fn entry_slice(entry: (usize, SliceRef)) -> EffectSlice {
    EffectSlice {
        slice: entry.1@.range,
        group_index: entry.0 as u32,
        item_size: entry.1@.item_size,
    }
}

/// Cache for effect instances that share buffers.
///
/// A cache is made by `new` and changed by its own methods only, and each
/// of them keeps it in order.
pub struct EffectCache {
    /// The buffers of the cache, in the order of their creation.
    effect_buffers: Vec<EffectBuffer>,
    /// From identifier to buffer index and slice.
    effect_data_mappings_in_buffer: SliceTable,
    /// The identifier that the next insertion gets.
    next_id: u64,
}

impl View for EffectCache {
    type V = CacheState;

    closed spec fn view(&self) -> CacheState {
        CacheState {
            buffers: Seq::new(
                self.effect_buffers@.len(),
                |i: int| self.effect_buffers@[i]@,
            ),
            slices: Map::new(
                |id: u64| slice_table_entries(self.effect_data_mappings_in_buffer).contains_key(id),
                |id: u64| entry_slice(slice_table_entries(self.effect_data_mappings_in_buffer)[id]),
            ),
            next_id: self.next_id,
        }
    }
}

impl EffectCache {
    /// The cache is in order: what it stands for is well formed, and the
    /// table names only buffers that exist.
    pub closed spec fn wf(&self) -> bool {
        &&& self@.wf()
        &&& forall|id: u64| #[trigger]
            slice_table_entries(self.effect_data_mappings_in_buffer).contains_key(id)
                ==> slice_table_entries(self.effect_data_mappings_in_buffer)[id].0
                < self.effect_buffers@.len()
    }

    /// A cache in order stands for a well-formed state: the laws of the
    /// state hold of what it holds.
    pub proof fn lemma_wf(&self)
        requires
            self.wf(),
        ensures
            self@.wf(),
    {
    }

    /// A cache with no buffer and no live identifier.
    pub fn new() -> (cache: Self)
        ensures
            cache.wf(),
            cache@ == CacheState::empty(),
    {
        let cache = EffectCache {
            effect_buffers: Vec::new(),
            effect_data_mappings_in_buffer: SliceTable::new(),
            next_id: 0,
        };
        assert(cache@.buffers =~= CacheState::empty().buffers);
        assert(cache@.slices =~= CacheState::empty().slices);
        cache
    }

    /// The buffers, in the order of their creation.
    pub fn buffers(&self) -> (buffers: &[EffectBuffer])
        ensures
            buffers@.len() == self@.buffers.len(),
            forall|i: int| 0 <= i < buffers@.len() ==> (#[trigger] buffers@[i])@ == self@.buffers[i],
    {
        self.effect_buffers.as_slice()
    }

    /// Number of identifiers handed out so far.
    pub fn minted(&self) -> (count: u64)
        ensures
            count == self@.next_id,
    {
        self.next_id
    }

    /// The slice of a live identifier.
    pub fn get_slice(&self, id: EffectCacheId) -> (result: Result<EffectSlice, BufferError>)
        requires
            self.wf(),
        ensures
            result === if self@.slices.contains_key(id.0) {
                Ok(self@.slices[id.0])
            } else {
                Err(BufferError::UnknownIdentifier)
            },
    {
        match self.effect_data_mappings_in_buffer.get(id.0) {
            Some((buffer_index, slice_ref)) => Ok(
                EffectSlice {
                    slice: slice_ref.range(),
                    group_index: buffer_index as u32,
                    item_size: slice_ref.item_size(),
                },
            ),
            None => Err(BufferError::UnknownIdentifier),
        }
    }
}

impl EffectCache {
    /// Finds room for `capacity` particles of `item_size` bytes each of an
    /// effect of `asset`: in the first buffer of that asset that has room,
    /// or else in a new buffer, added at the end. The identifier returned
    /// is live from now on.
    pub fn insert(&mut self, asset: u64, capacity: u32, item_size: u32) -> (result: Result<
        EffectCacheId,
        BufferError,
    >)
        requires
            old(self).wf(),
            old(self)@.has_room_to_grow(),
        ensures
            final(self).wf(),
            final(self)@ == old(self)@.insert(asset, capacity, item_size).0,
            result === old(self)@.insert(asset, capacity, item_size).1,
    {
        if capacity.checked_mul(item_size).is_none() {
            return Err(BufferError::SizeOverflow);
        }
        if capacity == 0 {
            return Err(BufferError::ZeroLength);
        }
        let ghost before = self@;
        let ghost after = before.insert(asset, capacity, item_size).0;
        proof {
            lemma_insert_wf(before, asset, capacity, item_size);
        }
        let id = self.next_id;
        let mut found: Option<(usize, SliceRef)> = None;
        let mut i: usize = 0;
        while i < self.effect_buffers.len()
            invariant_except_break
                found.is_none(),
            invariant
                before.wf(),
                capacity > 0,
                capacity * item_size <= u32::MAX,
                self.next_id == old(self).next_id,
                self.effect_data_mappings_in_buffer == old(self).effect_data_mappings_in_buffer,
                self.effect_buffers@.len() == before.buffers.len(),
                i <= self.effect_buffers@.len(),
                forall|j: int| 0 <= j < i ==> !before.serves(j, asset, capacity),
                match found {
                    None => forall|j: int|
                        0 <= j < before.buffers.len() ==> (#[trigger] self.effect_buffers@[j])@
                            == before.buffers[j],
                    Some((k, slice)) => {
                        &&& k == i
                        &&& k < before.buffers.len()
                        &&& before.serves(k as int, asset, capacity)
                        &&& Some(slice@.range) == before.buffers[k as int].alloc.allocate(capacity).1
                        &&& slice@.item_size == item_size
                        &&& forall|j: int|
                            0 <= j < before.buffers.len() ==> (#[trigger] self.effect_buffers@[j])@
                                == if j == k {
                                BufferState {
                                    alloc: before.buffers[j].alloc.allocate(capacity).0,
                                    ..before.buffers[j]
                                }
                            } else {
                                before.buffers[j]
                            }
                    },
                },
            ensures
                found.is_none() ==> i == self.effect_buffers@.len(),
            decreases self.effect_buffers@.len() - i,
        {
            let ghost held = self.effect_buffers@;
            assert(held[i as int]@ == before.buffers[i as int]);
            assert(before.buffers[i as int].wf());
            if self.effect_buffers[i].is_compatible(asset) {
                let served = self.effect_buffers[i].allocate_particle_slice(capacity, item_size);
                assert(forall|j: int|
                    0 <= j < held.len() && j != i ==> self.effect_buffers@[j] == held[j]);
                match served {
                    Ok(Some(slice)) => {
                        found = Some((i, slice));
                        break ;
                    },
                    _ => {
                        assert(!before.buffers[i as int].has_room(capacity));
                        assert(self.effect_buffers@[i as int]@ == before.buffers[i as int]);
                    },
                }
            }
            assert(!before.serves(i as int, asset, capacity));
            i += 1;
        }
        match found {
            Some((k, slice)) => {
                proof {
                    lemma_target_unique(before, k as int, asset, capacity);
                }
                self.effect_data_mappings_in_buffer.insert(id, k, slice);
                self.next_id = id + 1;
                proof {
                    assert(self@.buffers =~= after.buffers);
                    assert(self@.slices =~= after.slices);
                }
                Ok(EffectCacheId(id))
            },
            None => {
                proof {
                    lemma_no_target(before, asset, capacity);
                    lemma_new_buffer_serves(asset, capacity, item_size);
                }
                let index = self.effect_buffers.len();
                let mut buffer = EffectBuffer::new(asset, capacity, item_size);
                let served = buffer.allocate_particle_slice(capacity, item_size);
                match served {
                    Ok(Some(slice)) => {
                        self.effect_buffers.push(buffer);
                        self.effect_data_mappings_in_buffer.insert(id, index, slice);
                        self.next_id = id + 1;
                        proof {
                            assert(self@.buffers =~= after.buffers);
                            assert(self@.slices =~= after.slices);
                        }
                        Ok(EffectCacheId(id))
                    },
                    _ => unreached(),
                }
            },
        }
    }

    /// Ends the life of an identifier: its slice goes back to the free
    /// list of its buffer.
    pub fn remove(&mut self, id: EffectCacheId) -> (result: Result<EffectSlice, BufferError>)
        requires
            old(self).wf(),
        ensures
            final(self).wf(),
            final(self)@ == old(self)@.remove(id).0,
            result === old(self)@.remove(id).1,
    {
        let ghost before = self@;
        let ghost after = before.remove(id).0;
        proof {
            lemma_remove_wf(before, id);
        }
        match self.effect_data_mappings_in_buffer.remove(id.0) {
            Some((buffer_index, slice_ref)) => {
                assert(before.slice_wf(before.slices[id.0]));
                assert(before.buffers[buffer_index as int].wf());
                self.effect_buffers[buffer_index].free_particle_slice(slice_ref);
                proof {
                    assert(self@.buffers =~= after.buffers);
                    assert(self@.slices =~= after.slices);
                }
                Ok(
                    EffectSlice {
                        slice: slice_ref.range(),
                        group_index: buffer_index as u32,
                        item_size: slice_ref.item_size(),
                    },
                )
            },
            None => {
                proof {
                    assert(self@.buffers =~= before.buffers);
                    assert(self@.slices =~= before.slices);
                }
                Err(BufferError::UnknownIdentifier)
            },
        }
    }
}

} // verus!
