use std::cmp::Ordering;
use std::ops::Range;
use vstd::prelude::*;
use vstd::std_specs::cmp::PartialOrdSpecImpl;

verus! {

/// Where the particles of one effect instance lie: the buffer, the items
/// of it, and the size of one item in bytes.
#[derive(Debug, PartialEq, Eq)]
pub struct EffectSlice {
    /// Items of the buffer that belong to the instance.
    pub slice: Range<u32>,
    /// Index of the buffer in its cache.
    pub group_index: u32,
    /// Size of a single item, in bytes.
    pub item_size: u32,
}

impl Clone for EffectSlice {
    fn clone(&self) -> (copy: Self)
        ensures
            copy == *self,
    {
        EffectSlice {
            slice: self.slice.start..self.slice.end,
            group_index: self.group_index,
            item_size: self.item_size,
        }
    }
}

/// Slices are ordered by buffer, and within a buffer by their first item.
pub open spec fn slice_order(a: EffectSlice, b: EffectSlice) -> Ordering {
    if a.group_index < b.group_index {
        Ordering::Less
    } else if a.group_index > b.group_index {
        Ordering::Greater
    } else if a.slice.start < b.slice.start {
        Ordering::Less
    } else if a.slice.start > b.slice.start {
        Ordering::Greater
    } else {
        Ordering::Equal
    }
}

impl PartialOrd for EffectSlice {
    fn partial_cmp(&self, other: &Self) -> (order: Option<Ordering>) {
        if self.group_index < other.group_index {
            Some(Ordering::Less)
        } else if self.group_index > other.group_index {
            Some(Ordering::Greater)
        } else if self.slice.start < other.slice.start {
            Some(Ordering::Less)
        } else if self.slice.start > other.slice.start {
            Some(Ordering::Greater)
        } else {
            Some(Ordering::Equal)
        }
    }
}

impl PartialOrdSpecImpl for EffectSlice {
    open spec fn obeys_partial_cmp_spec() -> bool {
        true
    }

    open spec fn partial_cmp_spec(&self, other: &Self) -> Option<Ordering> {
        Some(slice_order(*self, *other))
    }
}

} // verus!
