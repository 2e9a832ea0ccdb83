use vstd::prelude::*;
use vstd::string::StringExecFns;

use crate::shader_layout::{lemma_storage_bytes_len, storage_bytes, storage_len, ShaderItem};

verus! {

/// The host side of a vector kept in a GPU storage buffer: the elements,
/// the byte size of the buffer that currently holds them on the device,
/// and the buffer's label.
pub struct GPUVec<T> {
    capacity: usize,
    pub data: Vec<T>,
    label: String,
}

/// After an upload of `len` bytes into a buffer of `capacity` bytes: whether
/// a new buffer must be made, and the size of the buffer that then holds
/// the data.
pub open spec fn next_capacity(capacity: nat, len: nat) -> (bool, nat) {
    if len > capacity {
        (true, len)
    } else {
        (false, capacity)
    }
}

impl<T: ShaderItem> GPUVec<T> {
    /// The elements.
    pub closed spec fn spec_data(&self) -> Seq<T> {
        self.data@
    }

    /// The size in bytes of the device buffer.
    pub closed spec fn spec_capacity(&self) -> nat {
        self.capacity as nat
    }

    /// The buffer's label.
    pub closed spec fn spec_label(&self) -> Seq<char> {
        self.label@
    }

    /// A vector holding `from`, with the bytes to put in its first buffer;
    /// that buffer is made exactly as large as those bytes.
    pub fn new_from(label: &str, from: Vec<T>) -> (r: (GPUVec<T>, Vec<u8>))
        requires
            storage_len::<T>(from@.len()) <= isize::MAX,
        ensures
            r.0.spec_data() == from@,
            r.0.spec_label() == label@,
            r.1@ == storage_bytes(from@),
            r.0.spec_capacity() == r.1@.len(),
    {
        let bytes = T::encode_storage(&from);
        let v = GPUVec { capacity: bytes.len(), data: from, label: String::from_str(label) };
        (v, bytes)
    }

    /// Encodes the current elements for upload. Returns the bytes and
    /// whether they outgrow the device buffer, in which case a buffer of
    /// exactly their size replaces it; otherwise the buffer is kept.
    pub fn update(&mut self) -> (r: (Vec<u8>, bool))
        requires
            storage_len::<T>(old(self).spec_data().len()) <= isize::MAX,
        ensures
            r.0@ == storage_bytes(old(self).spec_data()),
            (r.1, final(self).spec_capacity()) == next_capacity(
                old(self).spec_capacity(),
                r.0@.len(),
            ),
            r.1 == (r.0@.len() > old(self).spec_capacity()),
            final(self).spec_capacity() == if r.1 {
                r.0@.len()
            } else {
                old(self).spec_capacity()
            },
            final(self).spec_capacity() >= r.0@.len(),
            final(self).spec_capacity() >= old(self).spec_capacity(),
            final(self).spec_data() == old(self).spec_data(),
            final(self).spec_label() == old(self).spec_label(),
    {
        let bytes = T::encode_storage(&self.data);
        let realloc: bool = bytes.len() > self.capacity;
        if realloc {
            self.capacity = bytes.len();
        }
        (bytes, realloc)
    }

    /// Removes every element.
    pub fn clear(&mut self)
        ensures
            final(self).spec_data() == Seq::<T>::empty(),
            final(self).spec_capacity() == old(self).spec_capacity(),
            final(self).spec_label() == old(self).spec_label(),
    {
        self.data.clear();
    }

    /// Appends an element.
    pub fn push(&mut self, value: T)
        ensures
            final(self).spec_data() == old(self).spec_data().push(value),
            final(self).spec_capacity() == old(self).spec_capacity(),
            final(self).spec_label() == old(self).spec_label(),
    {
        self.data.push(value);
    }

    /// The number of elements.
    pub fn len(&self) -> (n: usize)
        ensures
            n == self.spec_data().len(),
    {
        self.data.len()
    }

    /// Replaces all elements with `v`.
    pub fn replace(&mut self, v: Vec<T>)
        ensures
            final(self).spec_data() == v@,
            final(self).spec_capacity() == old(self).spec_capacity(),
            final(self).spec_label() == old(self).spec_label(),
    {
        self.data = v;
    }

    /// The element at `index`.
    pub fn index(&self, index: usize) -> (e: T)
        requires
            index < self.spec_data().len(),
        ensures
            e == self.spec_data()[index as int],
    {
        self.data[index]
    }

    /// The size in bytes of the device buffer.
    pub fn capacity(&self) -> (c: usize)
        ensures
            c == self.spec_capacity(),
    {
        self.capacity
    }

    /// The buffer's label.
    pub fn label(&self) -> (l: &str)
        ensures
            l@ == self.spec_label(),
    {
        self.label.as_str()
    }
}

/// A new buffer is made exactly when the bytes outgrow the buffer, and
/// then it is exactly as large as the bytes; otherwise the buffer, and its
/// size, stay. So the size changes only together with a reallocation, and
/// after the upload it is the larger of the old size and the byte count.
pub proof fn lemma_next_capacity(capacity: nat, len: nat)
    ensures
        next_capacity(capacity, len).0 <==> len > capacity,
        next_capacity(capacity, len).1 != capacity ==> next_capacity(capacity, len).0,
        next_capacity(capacity, len).0 ==> next_capacity(capacity, len).1 == len,
        next_capacity(capacity, len).1 == if len > capacity {
            len
        } else {
            capacity
        },
{
}

/// Uploading the same elements twice in a row makes a new buffer at most
/// once: after one upload the buffer is large enough for the second.
pub proof fn lemma_update_settles<T: ShaderItem>(capacity: nat, data: Seq<T>)
    ensures
        !next_capacity(next_capacity(capacity, storage_bytes(data).len()).1, storage_bytes(data).len()).0,
{
}

/// A buffer made for `n` elements of `T` is never made anew while the
/// vector holds at most `n` elements: the encoding grows with the length.
pub proof fn lemma_shorter_data_fits<T: ShaderItem>(a: Seq<T>, b: Seq<T>)
    requires
        a.len() <= b.len(),
    ensures
        !next_capacity(storage_bytes(b).len(), storage_bytes(a).len()).0,
{
    lemma_storage_bytes_len(a);
    lemma_storage_bytes_len(b);
    let s: nat = T::stride();
    let m: nat = a.len();
    let n: nat = b.len();
    if m > 0 {
        assert(s * m <= s * n) by (nonlinear_arith)
            requires
                m <= n,
        ;
    } else if n > 0 {
        assert(s <= s * n) by (nonlinear_arith)
            requires
                n >= 1,
        ;
    }
}

} // verus!
