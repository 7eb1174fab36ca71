use crate::render::layout::{padded_size, ItemLayout};
use crate::render::typed_buffer::{
    staged, BufferSpan, BufferUsage, DeviceWrite, MirrorState, TypedDeviceBuffer,
};
use vstd::prelude::*;

verus! {

/// Items that are written to a uniform buffer of the device.
pub struct NamedUniformVec<T> {
    inner: TypedDeviceBuffer<T>,
}

impl<T> View for NamedUniformVec<T> {
    type V = MirrorState<T>;

    closed spec fn view(&self) -> MirrorState<T> {
        self.inner@
    }
}

impl<T> NamedUniformVec<T> {
    /// A buffer for items of the given layout, with a name and without items.
    pub fn new(label: String, layout: ItemLayout) -> (buffer: Self)
        ensures
            buffer@.wf(),
            buffer@.values.len() == 0,
            buffer@.staging.len() == 0,
            buffer@.capacity == 0,
            buffer@.item_size == padded_size(layout@.raw_size, layout@.alignment),
            buffer@.usage == BufferUsage::Uniform,
            buffer@.label == Some(label@),
    {
        NamedUniformVec { inner: TypedDeviceBuffer::new(Some(label), layout, BufferUsage::Uniform) }
    }

    /// A buffer for items of the given layout, without a name and without items.
    pub fn unnamed(layout: ItemLayout) -> (buffer: Self)
        ensures
            buffer@.wf(),
            buffer@.values.len() == 0,
            buffer@.staging.len() == 0,
            buffer@.capacity == 0,
            buffer@.item_size == padded_size(layout@.raw_size, layout@.alignment),
            buffer@.usage == BufferUsage::Uniform,
            buffer@.label.is_none(),
    {
        NamedUniformVec { inner: TypedDeviceBuffer::new(None, layout, BufferUsage::Uniform) }
    }

    /// The name that the device buffer goes by, if it has one.
    pub fn label(&self) -> (label: &Option<String>)
        ensures
            self@.label == match *label {
                Some(text) => Some(text@),
                None => None,
            },
    {
        self.inner.label()
    }

    /// The stride, in bytes.
    pub fn item_size(&self) -> (item_size: usize)
        ensures
            item_size == self@.item_size,
    {
        self.inner.item_size()
    }

    /// Size of the device buffer, in bytes.
    pub fn buffer_size(&self) -> (bytes: usize)
        requires
            self@.wf(),
        ensures
            bytes == self@.item_size * self@.capacity,
    {
        self.inner.buffer_size()
    }

    /// The first item of the device buffer, once there is a device buffer.
    pub fn binding(&self) -> (binding: Option<BufferSpan>)
        requires
            self@.item_size > 0,
        ensures
            binding == if self@.capacity > 0 {
                Some(BufferSpan { offset: 0, size: self@.item_size as u64 })
            } else {
                None
            },
    {
        self.inner.binding()
    }

    /// Number of items on the CPU side.
    pub fn len(&self) -> (len: usize)
        ensures
            len == self@.values.len(),
    {
        self.inner.len()
    }

    pub fn is_empty(&self) -> (empty: bool)
        ensures
            empty == (self@.values.len() == 0),
    {
        self.inner.is_empty()
    }

    /// Number of items that the device buffer has room for.
    pub fn capacity(&self) -> (capacity: usize)
        ensures
            capacity == self@.capacity,
    {
        self.inner.capacity()
    }

    /// Adds an item on the CPU side, and says at which index.
    pub fn push(&mut self, value: T) -> (index: usize)
        ensures
            index == old(self)@.values.len(),
            final(self)@ == (MirrorState { values: old(self)@.values.push(value), ..old(self)@ }),
    {
        self.inner.push(value)
    }

    /// An item on the CPU side, to be changed in place.
    pub fn get_mut(&mut self, index: usize) -> (item: &mut T)
        requires
            index < old(self)@.values.len(),
        ensures
            *item == old(self)@.values[index as int],
            final(self)@ == (MirrorState {
                values: old(self)@.values.update(index as int, *final(item)),
                ..old(self)@
            }),
    {
        self.inner.get_mut(index)
    }

    /// Makes room on the device for `capacity` items. `true` says that the
    /// device buffer has to be made anew, `buffer_size()` bytes large.
    pub fn reserve(&mut self, capacity: usize) -> (grown: bool)
        requires
            old(self)@.wf(),
            old(self)@.item_size * capacity <= usize::MAX,
        ensures
            final(self)@.wf(),
            final(self)@ == old(self)@.reserve(capacity as nat).0,
            grown == old(self)@.reserve(capacity as nat).1,
    {
        self.inner.reserve(capacity)
    }

    /// Stages every item and says what to write to the device: the whole
    /// staged region, after room was made for all items. Without items
    /// nothing happens.
    pub fn write_buffer<F: Fn(&T) -> Vec<u8>>(&mut self, encode: F) -> (write: Option<DeviceWrite>)
        requires
            old(self)@.wf(),
            old(self)@.item_size * old(self)@.values.len() <= usize::MAX,
            forall|i: int|
                0 <= i < old(self)@.values.len() ==> call_requires(
                    encode,
                    (&#[trigger] old(self)@.values[i],),
                ),
        ensures
            final(self)@.wf(),
            old(self)@.values.len() == 0 ==> write.is_none() && final(self)@ == old(self)@,
            old(self)@.values.len() > 0 ==> {
                let count = old(self)@.values.len();
                let room = old(self)@.reserve(count);
                &&& final(self)@ == (MirrorState { staging: final(self)@.staging, ..room.0 })
                &&& final(self)@.staging.len() == room.0.staging.len()
                &&& write == Some(
                    DeviceWrite {
                        recreate: room.1,
                        buffer_size: (room.0.item_size * room.0.capacity) as usize,
                        offset: 0,
                        len: (room.0.item_size * count) as usize,
                    },
                )
                &&& staged(
                    final(self)@.staging,
                    old(self)@.values,
                    room.0.item_size,
                    0,
                    count as int,
                    encode,
                )
                &&& forall|k: int|
                    room.0.item_size * count <= k < room.0.staging.len() ==> final(self)@.staging[k]
                        == room.0.staging[k]
            },
    {
        self.inner.write_buffer(encode)
    }

    /// Forgets the items on the CPU side. The device buffer keeps its size.
    pub fn clear(&mut self)
        ensures
            final(self)@ == (MirrorState { values: Seq::empty(), ..old(self)@ }),
    {
        self.inner.clear()
    }

    /// The items on the CPU side.
    pub fn values(&self) -> (values: &[T])
        ensures
            values@ == self@.values,
    {
        self.inner.values()
    }

    /// The staging area.
    pub fn staging(&self) -> (bytes: &[u8])
        ensures
            bytes@ == self@.staging,
    {
        self.inner.staging()
    }
}

} // verus!
