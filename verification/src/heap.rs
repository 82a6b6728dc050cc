//! A value kept in the kernel heap.
use vstd::prelude::*;

verus! {

/// A non-null address of the kernel heap.
struct HeapAddr {
    a: usize,
}

impl HeapAddr {
    #[verifier::type_invariant]
    spec fn wf(self) -> bool {
        self.a != 0
    }
}

/// A value of type `T` that lives at a non-null address of the kernel heap.
pub struct KernelBox<T> {
    addr: HeapAddr,
    value: T,
}

impl<T> KernelBox<T> {
    /// The address the value lives at.
    pub closed spec fn addr(self) -> usize {
        self.addr.a
    }

    /// The value in the box.
    pub closed spec fn value(self) -> T {
        self.value
    }

    /// The number of bytes to ask the kernel heap for: the size of `T`, taken
    /// modulo `2^32`.
    pub fn request_size() -> (size: u32)
        ensures
            size == vstd::layout::size_of::<T>() as u32,
    {
        core::mem::size_of::<T>() as u32
    }

    /// Boxes `value` at `addr`, the address the kernel heap gave for a request
    /// of `request_size()` bytes.  A null address means that the heap had no
    /// room: then there is no box, and `value` is dropped.
    pub fn new(value: T, addr: usize) -> (b: Option<Self>)
        ensures
            addr == 0 ==> b is None,
            addr != 0 ==> (b matches Some(k) && k.addr() == addr && k.value() == value),
    {
        if addr == 0 {
            return None;
        }
        Some(KernelBox { addr: HeapAddr { a: addr }, value })
    }

    /// The address the value lives at; never null.
    pub fn as_ptr(&self) -> (a: usize)
        ensures
            a == self.addr(),
            a != 0,
    {
        proof {
            use_type_invariant(&self.addr);
        }
        self.addr.a
    }

    /// The value in the box.
    pub fn deref(&self) -> (v: &T)
        ensures
            *v == self.value(),
    {
        &self.value
    }

    /// The value in the box, to change in place; the box keeps its address.
    pub fn deref_mut(&mut self) -> (v: &mut T)
        ensures
            *v == old(self).value(),
            final(self).value() == *final(v),
            final(self).addr() == old(self).addr(),
    {
        &mut self.value
    }

    /// Takes the box apart: the address to give back to the kernel heap, and
    /// the value.
    pub fn into_parts(self) -> (parts: (usize, T))
        ensures
            parts.0 == self.addr(),
            parts.0 != 0,
            parts.1 == self.value(),
    {
        proof {
            use_type_invariant(&self.addr);
        }
        (self.addr.a, self.value)
    }
}

} // verus!
