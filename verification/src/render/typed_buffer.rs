use crate::render::layout::{padded_size, ItemLayout};
use std::ops::Range;
use vstd::prelude::*;

verus! {

/// What a device buffer is bound as.
#[derive(Debug, Clone, Copy, PartialEq, Eq)]
pub enum BufferUsage {
    /// A uniform buffer.
    Uniform,
    /// A storage buffer.
    Storage,
}

/// A stretch of bytes of a device buffer, to be bound for a pass.
#[derive(Debug, Clone, Copy, PartialEq, Eq)]
pub struct BufferSpan {
    /// First byte.
    pub offset: u64,
    /// Number of bytes, never zero.
    pub size: u64,
}

/// What has to happen on the device after items were staged: the bytes
/// `offset .. offset + len` of the staging area go to the same place of
/// the device buffer, which is first made anew, `buffer_size` bytes
/// large, where `recreate` says so.
#[derive(Debug, Clone, Copy, PartialEq, Eq)]
pub struct DeviceWrite {
    /// Whether the device buffer has to be made anew before the write.
    pub recreate: bool,
    /// Size of the device buffer, in bytes.
    pub buffer_size: usize,
    /// First byte to write, in the staging area and in the device buffer.
    pub offset: usize,
    /// Number of bytes to write.
    pub len: usize,
}

/// The bytes of one slot of the staging area: what the item was encoded
/// to, cut or filled up with zeros to the stride.
pub open spec fn slot(encoded: Seq<u8>, item_size: nat) -> Seq<u8> {
    Seq::new(item_size, |k: int| if k < encoded.len() { encoded[k] } else { 0u8 })
}

/// A staging area brought to a new length: bytes that were there stay,
/// new ones are zero.
pub open spec fn resized(bytes: Seq<u8>, len: nat) -> Seq<u8> {
    Seq::new(len, |k: int| if k < bytes.len() { bytes[k] } else { 0u8 })
}

/// The bytes of the staging area that belong to item `i`.
pub open spec fn slot_of(staging: Seq<u8>, item_size: nat, i: int) -> Seq<u8> {
    staging.subrange(i * item_size, i * item_size + item_size)
}

/// The bytes `held` are a slot filled with what `encode` made of `value`.
pub open spec fn holds_encoded<T, F: Fn(&T) -> Vec<u8>>(
    encode: F,
    value: T,
    held: Seq<u8>,
    item_size: nat,
) -> bool {
    exists|bytes: Vec<u8>| #[trigger]
        call_ensures(encode, (&value,), bytes) && held == slot(bytes@, item_size)
}

/// Each of the items `first .. last` has in its slot what `encode` made of it.
pub open spec fn staged<T, F: Fn(&T) -> Vec<u8>>(
    staging: Seq<u8>,
    values: Seq<T>,
    item_size: nat,
    first: int,
    last: int,
    encode: F,
) -> bool {
    forall|i: int|
        first <= i < last ==> holds_encoded(
            encode,
            values[i],
            #[trigger] slot_of(staging, item_size, i),
            item_size,
        )
}

/// What a typed device buffer holds on the CPU side: the items, the
/// staging area, the number of items that the device buffer has room for,
/// and the stride.
pub ghost struct MirrorState<T> {
    pub values: Seq<T>,
    pub staging: Seq<u8>,
    pub capacity: nat,
    pub item_size: nat,
    pub usage: BufferUsage,
    pub label: Option<Seq<char>>,
}

impl<T> MirrorState<T> {
    /// The staging area has one slot for each item that the device buffer
    /// has room for.
    pub open spec fn wf(self) -> bool {
        self.staging.len() == self.item_size * self.capacity
    }

    /// Room for `capacity` items is asked for. Where that is more than
    /// there is, the device buffer has to be made anew, and the staging
    /// area grows with it; otherwise nothing changes.
    pub open spec fn reserve(self, capacity: nat) -> (MirrorState<T>, bool) {
        if capacity > self.capacity {
            (
                MirrorState {
                    capacity,
                    staging: resized(self.staging, self.item_size * capacity),
                    ..self
                },
                true,
            )
        } else {
            (self, false)
        }
    }
}

/// Room is only ever added: a second request for no more than the first
/// changes nothing and makes no new device buffer.
pub proof fn lemma_reserve_twice<T>(state: MirrorState<T>, first: nat, second: nat)
    requires
        second <= first,
    ensures
        state.reserve(first).0.reserve(second) == (state.reserve(first).0, false),
        state.reserve(first).0.capacity >= state.capacity,
{
}

/// A request for room keeps the buffer well formed.
pub proof fn lemma_reserve_wf<T>(state: MirrorState<T>, capacity: nat)
    requires
        state.wf(),
    ensures
        state.reserve(capacity).0.wf(),
{
}

/// The slots of two different items share no byte.
proof fn lemma_slots_apart(item_size: nat, i: int, j: int)
    requires
        0 <= i < j,
    ensures
        0 <= i * item_size,
        i * item_size + item_size <= j * item_size,
{
    assert(i * item_size + item_size <= j * item_size && 0 <= i * item_size) by (nonlinear_arith)
        requires
            0 <= i < j,
            item_size >= 0,
    ;
}

/// Writes one slot of a staging area.
fn write_slot(scratch: &mut Vec<u8>, offset: usize, encoded: &Vec<u8>, item_size: usize)
    requires
        offset + item_size <= old(scratch)@.len(),
    ensures
        final(scratch)@.len() == old(scratch)@.len(),
        final(scratch)@.subrange(offset as int, offset + item_size) == slot(
            encoded@,
            item_size as nat,
        ),
        forall|k: int|
            0 <= k < old(scratch)@.len() && !(offset <= k < offset + item_size) ==> final(scratch)@[k]
                == old(scratch)@[k],
{
    let len: usize = scratch.len();
    let mut k: usize = 0;
    while k < item_size
        invariant
            k <= item_size,
            offset + item_size <= len,
            len == scratch@.len(),
            scratch@.len() == old(scratch)@.len(),
            forall|j: int|
                0 <= j < k ==> scratch@[offset + j] == slot(encoded@, item_size as nat)[j],
            forall|j: int|
                0 <= j < scratch@.len() && !(offset <= j < offset + k) ==> scratch@[j] == old(
                    scratch,
                )@[j],
        decreases item_size - k,
    {
        let byte: u8 = if k < encoded.len() {
            encoded[k]
        } else {
            0
        };
        scratch[offset + k] = byte;
        k += 1;
    }
    assert(scratch@.subrange(offset as int, offset + item_size) =~= slot(
        encoded@,
        item_size as nat,
    ));
}


/// Items on the CPU side that are to be written to one device buffer: the
/// items themselves, a staging area that holds them in the form and at
/// the stride of the device, and the size that the device buffer has.
///
/// A buffer is made by `new` and changed by its own methods only, and each
/// of them keeps it well formed.
pub struct TypedDeviceBuffer<T> {
    values: Vec<T>,
    scratch: Vec<u8>,
    capacity: usize,
    item_size: usize,
    usage: BufferUsage,
    label: Option<String>,
}

impl<T> View for TypedDeviceBuffer<T> {
    type V = MirrorState<T>;

    closed spec fn view(&self) -> MirrorState<T> {
        MirrorState {
            values: self.values@,
            staging: self.scratch@,
            capacity: self.capacity as nat,
            item_size: self.item_size as nat,
            usage: self.usage,
            label: match self.label {
                Some(label) => Some(label@),
                None => None,
            },
        }
    }
}

impl<T> TypedDeviceBuffer<T> {
    /// A buffer without items and without room on the device.
    pub fn new(label: Option<String>, layout: ItemLayout, usage: BufferUsage) -> (buffer: Self)
        ensures
            buffer@.wf(),
            buffer@.values.len() == 0,
            buffer@.staging.len() == 0,
            buffer@.capacity == 0,
            buffer@.item_size == padded_size(layout@.raw_size, layout@.alignment),
            buffer@.usage == usage,
            buffer@.label == match label {
                Some(text) => Some(text@),
                None => None,
            },
    {
        let item_size = layout.item_size();
        assert(item_size * 0 == 0);
        TypedDeviceBuffer {
            values: Vec::new(),
            scratch: Vec::new(),
            capacity: 0,
            item_size,
            usage,
            label,
        }
    }

    /// The name that the device buffer goes by, if it has one.
    pub fn label(&self) -> (label: &Option<String>)
        ensures
            self@.label == match *label {
                Some(text) => Some(text@),
                None => None,
            },
    {
        &self.label
    }

    /// What the device buffer is bound as.
    pub fn usage(&self) -> (usage: BufferUsage)
        ensures
            usage == self@.usage,
    {
        self.usage
    }

    /// The stride, in bytes.
    pub fn item_size(&self) -> (item_size: usize)
        ensures
            item_size == self@.item_size,
    {
        self.item_size
    }

    /// Number of items on the CPU side.
    pub fn len(&self) -> (len: usize)
        ensures
            len == self@.values.len(),
    {
        self.values.len()
    }

    pub fn is_empty(&self) -> (empty: bool)
        ensures
            empty == (self@.values.len() == 0),
    {
        self.values.len() == 0
    }

    /// Number of items that the device buffer has room for.
    pub fn capacity(&self) -> (capacity: usize)
        ensures
            capacity == self@.capacity,
    {
        self.capacity
    }

    /// Size of the device buffer, in bytes.
    pub fn buffer_size(&self) -> (bytes: usize)
        requires
            self@.wf(),
        ensures
            bytes == self@.item_size * self@.capacity,
    {
        self.scratch.len()
    }

    /// The first item of the device buffer, once there is a device buffer.
    pub fn binding(&self) -> (binding: Option<BufferSpan>)
        requires
            self@.item_size > 0,
        ensures
            binding == if self@.capacity > 0 {
                Some(BufferSpan { offset: 0, size: self@.item_size as u64 })
            } else {
                None
            },
    {
        if self.capacity > 0 {
            Some(BufferSpan { offset: 0, size: self.item_size as u64 })
        } else {
            None
        }
    }

    /// Adds an item on the CPU side, and says at which index.
    pub fn push(&mut self, value: T) -> (index: usize)
        ensures
            index == old(self)@.values.len(),
            final(self)@ == (MirrorState { values: old(self)@.values.push(value), ..old(self)@ }),
    {
        let index = self.values.len();
        self.values.push(value);
        index
    }

    /// An item on the CPU side, to be changed in place.
    pub fn get_mut(&mut self, index: usize) -> (item: &mut T)
        requires
            index < old(self)@.values.len(),
        ensures
            *item == old(self)@.values[index as int],
            final(self)@ == (MirrorState {
                values: old(self)@.values.update(index as int, *final(item)),
                ..old(self)@
            }),
    {
        &mut self.values[index]
    }

    /// Makes room on the device for `capacity` items. `true` says that the
    /// device buffer has to be made anew, `buffer_size()` bytes large.
    pub fn reserve(&mut self, capacity: usize) -> (grown: bool)
        requires
            old(self)@.wf(),
            old(self)@.item_size * capacity <= usize::MAX,
        ensures
            final(self)@.wf(),
            final(self)@ == old(self)@.reserve(capacity as nat).0,
            grown == old(self)@.reserve(capacity as nat).1,
    {
        if capacity > self.capacity {
            self.capacity = capacity;
            let size = self.item_size * capacity;
            self.scratch.resize(size, 0);
            proof {
                assert(self.scratch@.len() == size);
                assert(self@.staging =~= resized(old(self)@.staging, size as nat));
            }
            true
        } else {
            false
        }
    }

    /// Forgets the items on the CPU side. The device buffer keeps its size.
    pub fn clear(&mut self)
        ensures
            final(self)@ == (MirrorState { values: Seq::empty(), ..old(self)@ }),
    {
        self.values.clear();
    }

    /// The items on the CPU side.
    pub fn values(&self) -> (values: &[T])
        ensures
            values@ == self@.values,
    {
        self.values.as_slice()
    }

    /// The staging area.
    pub fn staging(&self) -> (bytes: &[u8])
        ensures
            bytes@ == self@.staging,
    {
        self.scratch.as_slice()
    }
}


impl<T> TypedDeviceBuffer<T> {
    /// The items on the CPU side, to be changed in place.
    pub fn values_mut(&mut self) -> (values: &mut [T])
        ensures
            values@ == old(self)@.values,
            final(self)@ == (MirrorState { values: final(values)@, ..old(self)@ }),
    {
        self.values.as_mut_slice()
    }

    /// Encodes the items `first .. last` into their slots of the staging
    /// area.
    fn stage<F: Fn(&T) -> Vec<u8>>(&mut self, first: usize, last: usize, encode: &F)
        requires
            old(self)@.wf(),
            first <= last <= old(self)@.values.len() <= old(self)@.capacity,
            forall|i: int|
                first <= i < last ==> call_requires(*encode, (&#[trigger] old(self)@.values[i],)),
        ensures
            final(self)@ == (MirrorState { staging: final(self)@.staging, ..old(self)@ }),
            final(self)@.staging.len() == old(self)@.staging.len(),
            staged(
                final(self)@.staging,
                old(self)@.values,
                old(self)@.item_size,
                first as int,
                last as int,
                *encode,
            ),
            forall|k: int|
                0 <= k < old(self)@.staging.len() && !(first * old(self)@.item_size <= k < last * old(
                    self,
                )@.item_size) ==> final(self)@.staging[k] == old(self)@.staging[k],
    {
        let ghost before = self@;
        let ghost stride = self.item_size as nat;
        let total: usize = self.scratch.len();
        let mut i: usize = first;
        while i < last
            invariant
                first <= i <= last <= before.values.len() <= before.capacity,
                before.wf(),
                stride == before.item_size,
                stride == self.item_size,
                total == before.staging.len(),
                self@ == (MirrorState { staging: self@.staging, ..before }),
                self@.staging.len() == before.staging.len(),
                forall|j: int|
                    first <= j < last ==> call_requires(*encode, (&#[trigger] before.values[j],)),
                staged(self@.staging, before.values, stride, first as int, i as int, *encode),
                forall|k: int|
                    0 <= k < before.staging.len() && !(first * stride <= k < i * stride)
                        ==> self@.staging[k] == before.staging[k],
            decreases last - i,
        {
            proof {
                lemma_slot_within(stride, i as int, before.capacity as int);
                lemma_offset_bound(stride, first as int, i as int);
            }
            let ghost held = self@.staging;
            let encoded = encode(&self.values[i]);
            let offset: usize = i * self.item_size;
            write_slot(&mut self.scratch, offset, &encoded, self.item_size);
            proof {
                let now = self@.staging;
                assert(slot_of(now, stride, i as int) == slot(encoded@, stride));
                assert forall|j: int| first <= j < i + 1 implies holds_encoded(
                    *encode,
                    before.values[j],
                    #[trigger] slot_of(now, stride, j),
                    stride,
                ) by {
                    if j < i {
                        lemma_slots_apart(stride, j, i as int);
                        assert(holds_encoded(
                            *encode,
                            before.values[j],
                            slot_of(held, stride, j),
                            stride,
                        ));
                        assert(slot_of(now, stride, j) =~= slot_of(held, stride, j));
                    } else {
                        assert(call_ensures(*encode, (&before.values[j],), encoded));
                    }
                }
                assert((i + 1) * stride == i * stride + stride) by (nonlinear_arith);
            }
            i += 1;
        }
    }

    /// Stages every item and says what to write to the device: the whole
    /// staged region, after room was made for all items. Without items
    /// nothing happens.
    pub fn write_buffer<F: Fn(&T) -> Vec<u8>>(&mut self, encode: F) -> (write: Option<DeviceWrite>)
        requires
            old(self)@.wf(),
            old(self)@.item_size * old(self)@.values.len() <= usize::MAX,
            forall|i: int|
                0 <= i < old(self)@.values.len() ==> call_requires(
                    encode,
                    (&#[trigger] old(self)@.values[i],),
                ),
        ensures
            final(self)@.wf(),
            old(self)@.values.len() == 0 ==> write.is_none() && final(self)@ == old(self)@,
            old(self)@.values.len() > 0 ==> {
                let count = old(self)@.values.len();
                let room = old(self)@.reserve(count);
                &&& final(self)@ == (MirrorState { staging: final(self)@.staging, ..room.0 })
                &&& final(self)@.staging.len() == room.0.staging.len()
                &&& write == Some(
                    DeviceWrite {
                        recreate: room.1,
                        buffer_size: (room.0.item_size * room.0.capacity) as usize,
                        offset: 0,
                        len: (room.0.item_size * count) as usize,
                    },
                )
                &&& staged(
                    final(self)@.staging,
                    old(self)@.values,
                    room.0.item_size,
                    0,
                    count as int,
                    encode,
                )
                &&& forall|k: int|
                    room.0.item_size * count <= k < room.0.staging.len() ==> final(self)@.staging[k]
                        == room.0.staging[k]
            },
    {
        if self.values.len() == 0 {
            return None;
        }
        let count = self.values.len();
        let recreate = self.reserve(count);
        self.stage(0, count, &encode);
        proof {
            lemma_mul_commutes(self@.item_size as int, count as int);
        }
        Some(
            DeviceWrite {
                recreate,
                buffer_size: self.scratch.len(),
                offset: 0,
                len: self.item_size * count,
            },
        )
    }

    /// Stages the items `slice` and says what to write to the device: the
    /// slots of these items, after room was made for all items. Without
    /// items nothing happens.
    pub fn write_slice<F: Fn(&T) -> Vec<u8>>(&mut self, slice: Range<u32>, encode: F) -> (write:
        Option<DeviceWrite>)
        requires
            old(self)@.wf(),
            old(self)@.item_size * old(self)@.values.len() <= usize::MAX,
            old(self)@.values.len() > 0 ==> slice.start <= slice.end <= old(self)@.values.len(),
            forall|i: int|
                slice.start <= i < slice.end && i < old(self)@.values.len() ==> call_requires(
                    encode,
                    (&#[trigger] old(self)@.values[i],),
                ),
        ensures
            final(self)@.wf(),
            old(self)@.values.len() == 0 ==> write.is_none() && final(self)@ == old(self)@,
            old(self)@.values.len() > 0 ==> {
                let room = old(self)@.reserve(old(self)@.values.len());
                &&& final(self)@ == (MirrorState { staging: final(self)@.staging, ..room.0 })
                &&& final(self)@.staging.len() == room.0.staging.len()
                &&& write == Some(
                    DeviceWrite {
                        recreate: room.1,
                        buffer_size: (room.0.item_size * room.0.capacity) as usize,
                        offset: (slice.start * room.0.item_size) as usize,
                        len: ((slice.end - slice.start) * room.0.item_size) as usize,
                    },
                )
                &&& staged(
                    final(self)@.staging,
                    old(self)@.values,
                    room.0.item_size,
                    slice.start as int,
                    slice.end as int,
                    encode,
                )
                &&& forall|k: int|
                    0 <= k < room.0.staging.len() && !(slice.start * room.0.item_size <= k
                        < slice.end * room.0.item_size) ==> final(self)@.staging[k]
                        == room.0.staging[k]
            },
    {
        if self.values.len() == 0 {
            return None;
        }
        let count = self.values.len();
        let recreate = self.reserve(count);
        let first: usize = slice.start as usize;
        let last: usize = slice.end as usize;
        self.stage(first, last, &encode);
        proof {
            lemma_offset_bound(self@.item_size, first as int, last as int);
            lemma_offset_bound(self@.item_size, last as int, count as int);
            lemma_offset_bound(self@.item_size, last - first, last as int);
            assert((last - first) * self@.item_size == last * self@.item_size - first
                * self@.item_size) by (nonlinear_arith);
        }
        Some(
            DeviceWrite {
                recreate,
                buffer_size: self.scratch.len(),
                offset: first * self.item_size,
                len: (last - first) * self.item_size,
            },
        )
    }
}

/// The slot of an item below `count` lies below the end of `count` slots.
proof fn lemma_slot_within(item_size: nat, i: int, count: int)
    requires
        0 <= i < count,
    ensures
        0 <= i * item_size,
        i * item_size + item_size <= item_size * count,
{
    assert(0 <= i * item_size && i * item_size + item_size <= item_size * count)
        by (nonlinear_arith)
        requires
            0 <= i < count,
            item_size >= 0,
    ;
}

/// Offsets grow with the index: slot `i` starts no later than slot `j`
/// for `i <= j`.
proof fn lemma_offset_bound(item_size: nat, i: int, j: int)
    requires
        0 <= i <= j,
    ensures
        0 <= i * item_size <= j * item_size,
        j * item_size == item_size * j,
{
    assert(0 <= i * item_size <= j * item_size && j * item_size == item_size * j)
        by (nonlinear_arith)
        requires
            0 <= i <= j,
            item_size >= 0,
    ;
}

proof fn lemma_mul_commutes(a: int, b: int)
    ensures
        a * b == b * a,
{
    assert(a * b == b * a) by (nonlinear_arith);
}

} // verus!
