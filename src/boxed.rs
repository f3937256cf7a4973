//! The owner of a value that the host allocated.
use vstd::prelude::*;

verus! {

/// An exclusive owner of a host-allocated value. It dereferences to the
/// value; the value's own release runs when the owner is dropped.
pub struct ZBox<T> {
    inner: Box<T>,
}

impl<T> View for ZBox<T> {
    type V = T;

    closed spec fn view(&self) -> T {
        *self.inner
    }
}

impl<T> ZBox<T> {
    /// Takes ownership of a value.
    pub fn new(value: T) -> (r: ZBox<T>)
        ensures
            r@ == value,
    {
        ZBox { inner: Box::new(value) }
    }

    /// Adopts an existing allocation.
    pub fn from_box(b: Box<T>) -> (r: ZBox<T>)
        ensures
            r@ == *b,
    {
        ZBox { inner: b }
    }

    /// Gives up ownership, handing the allocation back.
    pub fn into_box(self) -> (r: Box<T>)
        ensures
            *r == self@,
    {
        self.inner
    }
}

impl<T> core::ops::Deref for ZBox<T> {
    type Target = T;

    fn deref(&self) -> (r: &T)
        ensures
            *r == self@,
    {
        &self.inner
    }
}

impl<T> core::ops::DerefMut for ZBox<T> {
    fn deref_mut(&mut self) -> (r: &mut T)
        ensures
            *r == old(self)@,
            final(self)@ == *final(r),
    {
        &mut self.inner
    }
}

} // verus!
