//! Buffers that back the particles of all effect instances, and the grid of
//! areas in which particles appear.

pub mod appear_area;
pub mod cache_model;
pub mod effect_cache;
pub mod effect_slice;
pub mod error;
pub mod layout;
pub mod range_allocator;
pub mod storage_vec;
pub mod typed_buffer;
pub mod uniform_vec;
