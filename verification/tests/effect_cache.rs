use bevy_hanabi::render::effect_cache::{EffectBuffer, EffectCache, EffectCacheId};
use bevy_hanabi::render::effect_slice::EffectSlice;
use bevy_hanabi::render::error::BufferError;
use bevy_hanabi::render::typed_buffer::BufferSpan;
use std::cmp::Ordering;

const TAG_A: u64 = 11;
const TAG_B: u64 = 22;

fn slice(range: std::ops::Range<u32>, group_index: u32, item_size: u32) -> EffectSlice {
    EffectSlice { slice: range, group_index, item_size }
}

#[test]
fn effects_of_one_asset_share_a_buffer_and_another_asset_opens_a_new_one() {
    let mut cache = EffectCache::new();
    let a = cache.insert(TAG_A, 1000, 64).unwrap();
    let b = cache.insert(TAG_A, 2000, 64).unwrap();
    let c = cache.insert(TAG_B, 500, 64).unwrap();
    assert_eq!(cache.get_slice(a), Ok(slice(0..1000, 0, 64)));
    assert_eq!(cache.get_slice(b), Ok(slice(1000..3000, 0, 64)));
    assert_eq!(cache.get_slice(c), Ok(slice(0..500, 1, 64)));
    assert_eq!(cache.buffers().len(), 2);
    assert_eq!(cache.buffers()[0].capacity(), 65536);
    assert_eq!(cache.buffers()[0].item_size(), 64);
    assert_eq!(cache.buffers()[0].used_size(), 3000);
    assert!(cache.buffers()[0].is_compatible(TAG_A));
    assert!(!cache.buffers()[0].is_compatible(TAG_B));
    assert!(cache.buffers()[1].is_compatible(TAG_B));
    assert_eq!(cache.buffers()[1].used_size(), 500);
}

#[test]
fn a_request_above_the_floor_gets_a_buffer_of_its_size() {
    let mut cache = EffectCache::new();
    let id = cache.insert(TAG_A, 70000, 16).unwrap();
    assert_eq!(cache.get_slice(id), Ok(slice(0..70000, 0, 16)));
    assert_eq!(cache.buffers().len(), 1);
    assert_eq!(cache.buffers()[0].capacity(), 70000);
    assert_eq!(cache.buffers()[0].particle_buffer_size(), 70000 * 16);
    assert_eq!(cache.buffers()[0].indirect_buffer_size(), 70000 * 4);
}

#[test]
fn identifiers_count_up_from_zero_and_are_never_invalid() {
    let mut cache = EffectCache::new();
    assert_eq!(cache.minted(), 0);
    let a = cache.insert(TAG_A, 10, 4).unwrap();
    let b = cache.insert(TAG_B, 10, 4).unwrap();
    let c = cache.insert(TAG_A, 10, 4).unwrap();
    assert_eq!(a, EffectCacheId(0));
    assert_eq!(b, EffectCacheId(1));
    assert_eq!(c, EffectCacheId(2));
    assert_eq!(cache.minted(), 3);
    assert_ne!(a, EffectCacheId::invalid());
    assert_eq!(EffectCacheId::invalid(), EffectCacheId(u64::MAX));
    assert_eq!(EffectCacheId::default(), EffectCacheId(0));
    assert_eq!(cache.get_slice(EffectCacheId::invalid()), Err(BufferError::UnknownIdentifier));
}

#[test]
fn requests_that_fit_one_buffer_land_in_it_one_behind_the_other() {
    let capacities = [20000u32, 1, 30000, 15000, 535];
    let mut cache = EffectCache::new();
    let mut ids = Vec::new();
    for capacity in capacities {
        ids.push(cache.insert(TAG_A, capacity, 32).unwrap());
    }
    assert_eq!(cache.buffers().len(), 1);
    let mut start = 0;
    for (id, capacity) in ids.iter().zip(capacities) {
        assert_eq!(cache.get_slice(*id), Ok(slice(start..start + capacity, 0, 32)));
        start += capacity;
    }
    assert_eq!(start, 65536);
    assert_eq!(cache.buffers()[0].used_size(), 65536);
    for (i, a) in ids.iter().enumerate() {
        for b in ids.iter().skip(i + 1) {
            let (a, b) = (cache.get_slice(*a).unwrap(), cache.get_slice(*b).unwrap());
            assert!(a.slice.end <= b.slice.start || b.slice.end <= a.slice.start);
        }
    }
}

#[test]
fn a_request_without_room_opens_a_buffer_and_starts_at_zero() {
    let mut cache = EffectCache::new();
    let a = cache.insert(TAG_A, 65000, 8).unwrap();
    let b = cache.insert(TAG_A, 537, 8).unwrap();
    let c = cache.insert(TAG_A, 536, 8).unwrap();
    assert_eq!(cache.get_slice(a), Ok(slice(0..65000, 0, 8)));
    assert_eq!(cache.get_slice(b), Ok(slice(0..537, 1, 8)));
    assert_eq!(cache.get_slice(c), Ok(slice(65000..65536, 0, 8)));
    assert_eq!(cache.buffers().len(), 2);
    assert_eq!(cache.buffers()[1].capacity(), 65536);
}

#[test]
fn the_first_buffer_with_room_is_taken() {
    let mut cache = EffectCache::new();
    cache.insert(TAG_A, 65536, 8).unwrap();
    cache.insert(TAG_B, 100, 8).unwrap();
    cache.insert(TAG_A, 60000, 8).unwrap();
    cache.insert(TAG_A, 60000, 8).unwrap();
    assert_eq!(cache.buffers().len(), 4);
    let id = cache.insert(TAG_A, 5000, 8).unwrap();
    assert_eq!(cache.get_slice(id), Ok(slice(60000..65000, 2, 8)));
    let id = cache.insert(TAG_A, 5000, 8).unwrap();
    assert_eq!(cache.get_slice(id), Ok(slice(60000..65000, 3, 8)));
    let id = cache.insert(TAG_B, 5000, 8).unwrap();
    assert_eq!(cache.get_slice(id), Ok(slice(100..5100, 1, 8)));
    assert_eq!(cache.buffers().len(), 4);
}

#[test]
fn the_slice_carries_the_item_size_of_its_request() {
    let mut cache = EffectCache::new();
    let a = cache.insert(TAG_A, 10, 64).unwrap();
    let b = cache.insert(TAG_A, 10, 32).unwrap();
    assert_eq!(cache.get_slice(a), Ok(slice(0..10, 0, 64)));
    assert_eq!(cache.get_slice(b), Ok(slice(10..20, 0, 32)));
    assert_eq!(cache.buffers()[0].item_size(), 64);
}

#[test]
fn a_byte_size_beyond_32_bits_is_an_error() {
    let mut cache = EffectCache::new();
    assert_eq!(cache.insert(TAG_A, 0x1_0000, 0x1_0000), Err(BufferError::SizeOverflow));
    assert_eq!(cache.insert(TAG_A, u32::MAX, 2), Err(BufferError::SizeOverflow));
    assert_eq!(cache.buffers().len(), 0);
    assert_eq!(cache.minted(), 0);
    let id = cache.insert(TAG_A, 0xffff, 0x1_0001).unwrap();
    assert_eq!(cache.get_slice(id), Ok(slice(0..0xffff, 0, 0x1_0001)));
    assert_eq!(cache.insert(TAG_A, 0x1_0000, 0x1_0000), Err(BufferError::SizeOverflow));
    assert_eq!(cache.buffers().len(), 1);
    assert_eq!(cache.minted(), 1);
}

#[test]
fn no_particles_at_all_is_an_error() {
    let mut cache = EffectCache::new();
    assert_eq!(cache.insert(TAG_A, 0, 64), Err(BufferError::ZeroLength));
    assert_eq!(cache.buffers().len(), 0);
    cache.insert(TAG_A, 1, 64).unwrap();
    assert_eq!(cache.insert(TAG_A, 0, 64), Err(BufferError::ZeroLength));
    assert_eq!(cache.insert(TAG_A, 0, 0), Err(BufferError::ZeroLength));
    assert_eq!(cache.buffers()[0].used_size(), 1);
    assert_eq!(cache.minted(), 1);
}

#[test]
fn items_of_no_bytes_are_accepted() {
    let mut cache = EffectCache::new();
    let id = cache.insert(TAG_A, u32::MAX, 0).unwrap();
    assert_eq!(cache.get_slice(id), Ok(slice(0..u32::MAX, 0, 0)));
    assert_eq!(cache.buffers()[0].capacity(), u32::MAX);
    assert_eq!(cache.buffers()[0].particle_buffer_size(), 0);
}

#[test]
fn an_unknown_identifier_is_an_error() {
    let mut cache = EffectCache::new();
    assert_eq!(cache.get_slice(EffectCacheId(0)), Err(BufferError::UnknownIdentifier));
    let id = cache.insert(TAG_A, 10, 4).unwrap();
    assert!(cache.get_slice(id).is_ok());
    assert_eq!(cache.get_slice(EffectCacheId(id.0 + 1)), Err(BufferError::UnknownIdentifier));
    assert_eq!(cache.remove(EffectCacheId(id.0 + 1)), Err(BufferError::UnknownIdentifier));
    assert!(cache.get_slice(id).is_ok());
}

#[test]
fn a_removed_identifier_is_unknown_and_its_slice_is_reused() {
    let mut cache = EffectCache::new();
    let a = cache.insert(TAG_A, 100, 4).unwrap();
    let b = cache.insert(TAG_A, 50, 4).unwrap();
    let c = cache.insert(TAG_A, 100, 4).unwrap();
    assert_eq!(cache.remove(b), Ok(slice(100..150, 0, 4)));
    assert_eq!(cache.get_slice(b), Err(BufferError::UnknownIdentifier));
    assert_eq!(cache.remove(b), Err(BufferError::UnknownIdentifier));
    assert_eq!(cache.get_slice(a), Ok(slice(0..100, 0, 4)));
    assert_eq!(cache.get_slice(c), Ok(slice(150..250, 0, 4)));
    assert_eq!(cache.buffers()[0].used_size(), 250);
    // Too large for the free range: from above the mark.
    let d = cache.insert(TAG_A, 51, 4).unwrap();
    assert_eq!(cache.get_slice(d), Ok(slice(250..301, 0, 4)));
    // Fits the free range, and takes it whole.
    let e = cache.insert(TAG_A, 20, 4).unwrap();
    assert_eq!(cache.get_slice(e), Ok(slice(100..120, 0, 4)));
    let f = cache.insert(TAG_A, 20, 4).unwrap();
    assert_eq!(cache.get_slice(f), Ok(slice(301..321, 0, 4)));
    assert_ne!(e, b);
    assert_eq!(cache.minted(), 6);
}

#[test]
fn a_full_buffer_serves_again_after_a_removal() {
    let mut cache = EffectCache::new();
    let a = cache.insert(TAG_A, 65536, 4).unwrap();
    let b = cache.insert(TAG_A, 10, 4).unwrap();
    assert_eq!(cache.get_slice(b), Ok(slice(0..10, 1, 4)));
    assert_eq!(cache.remove(a), Ok(slice(0..65536, 0, 4)));
    let c = cache.insert(TAG_A, 100, 4).unwrap();
    assert_eq!(cache.get_slice(c), Ok(slice(0..100, 0, 4)));
    let d = cache.insert(TAG_A, 100, 4).unwrap();
    assert_eq!(cache.get_slice(d), Ok(slice(10..110, 1, 4)));
}

#[test]
fn a_buffer_has_no_fewer_items_than_the_floor() {
    assert_eq!(EffectBuffer::MIN_CAPACITY, 65536);
    assert_eq!(EffectBuffer::new(TAG_A, 0, 4).capacity(), 65536);
    assert_eq!(EffectBuffer::new(TAG_A, 65535, 4).capacity(), 65536);
    assert_eq!(EffectBuffer::new(TAG_A, 65537, 4).capacity(), 65537);
    let buffer = EffectBuffer::new(TAG_A, 10, 12);
    assert_eq!(buffer.asset(), TAG_A);
    assert_eq!(buffer.item_size(), 12);
    assert_eq!(buffer.used_size(), 0);
    assert_eq!(buffer.particle_buffer_size(), 65536 * 12);
    assert_eq!(buffer.indirect_buffer_size(), 65536 * 4);
    let largest = EffectBuffer::new(TAG_A, u32::MAX, u32::MAX);
    assert_eq!(largest.particle_buffer_size(), u32::MAX as u64 * u32::MAX as u64);
    assert_eq!(largest.indirect_buffer_size(), u32::MAX as u64 * 4);
}

#[test]
fn bindings_cover_what_they_name() {
    let buffer = EffectBuffer::new(TAG_A, 70000, 12);
    assert_eq!(buffer.max_binding(), BufferSpan { offset: 0, size: 840000 });
    assert_eq!(buffer.binding(48), BufferSpan { offset: 0, size: 48 });
    assert_eq!(buffer.indirect_max_binding(), BufferSpan { offset: 0, size: 280000 });
}

#[test]
fn a_buffer_allocates_and_frees_slices() {
    let mut buffer = EffectBuffer::new(TAG_A, 100, 16);
    let first = buffer.allocate_particle_slice(100, 16).unwrap().unwrap();
    assert_eq!(first.range(), 0..100);
    assert_eq!(first.len(), 100);
    assert_eq!(first.item_size(), 16);
    assert_eq!(first.byte_size(), 1600);
    let second = buffer.allocate_particle_slice(65436, 16).unwrap().unwrap();
    assert_eq!(second.range(), 100..65536);
    assert_eq!(second.len(), 65436);
    assert_eq!(second.byte_size(), 65436 * 16);
    assert!(buffer.allocate_particle_slice(1, 16).unwrap().is_none());
    assert_eq!(buffer.used_size(), 65536);
    assert!(buffer.free_particle_slice(first));
    assert!(!buffer.free_particle_slice(first));
    let third = buffer.allocate_particle_slice(40, 8).unwrap().unwrap();
    assert_eq!(third.range(), 0..40);
    assert_eq!(third.item_size(), 8);
    assert_eq!(third.byte_size(), 320);
    assert!(buffer.allocate_particle_slice(1, 16).unwrap().is_none());
}

#[test]
fn a_buffer_turns_down_bad_sizes() {
    let mut buffer = EffectBuffer::new(TAG_A, 100, 16);
    assert_eq!(
        buffer.allocate_particle_slice(0x1_0000, 0x1_0000).map(|s| s.map(|s| s.range())),
        Err(BufferError::SizeOverflow)
    );
    assert_eq!(
        buffer.allocate_particle_slice(0, 16).map(|s| s.map(|s| s.range())),
        Err(BufferError::ZeroLength)
    );
    assert_eq!(buffer.used_size(), 0);
}

#[test]
fn slices_are_ordered_by_buffer_and_then_by_start() {
    let a = slice(10..20, 0, 4);
    let b = slice(0..5, 1, 4);
    let c = slice(30..40, 0, 8);
    let d = slice(10..90, 0, 16);
    assert_eq!(a.partial_cmp(&b), Some(Ordering::Less));
    assert_eq!(b.partial_cmp(&a), Some(Ordering::Greater));
    assert_eq!(a.partial_cmp(&c), Some(Ordering::Less));
    assert_eq!(c.partial_cmp(&a), Some(Ordering::Greater));
    assert_eq!(a.partial_cmp(&d), Some(Ordering::Equal));
    assert!(a < b);
    assert!(c > a);
    assert!(a != d);
    assert_eq!(a.clone(), a);
}
