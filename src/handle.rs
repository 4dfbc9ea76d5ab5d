//! The shared-ownership handle and the allocation that its copies share.
//!
//! The allocation lives in a `std::sync::Arc`. Its strong count is the count
//! of live handles: `Arc` raises it on a clone, lowers it on a drop, and
//! destroys the value and frees the memory when the last handle is dropped.
//! `crate::protocol` models that count.
//!
//! A handle can be sent to or shared with another thread exactly when its
//! payload is both `Send` and `Sync`: that is what `Arc` of this block grants.
use std::sync::Arc;
use vstd::prelude::*;

verus! {

/// The allocation that every handle of one value shares. Its count of live
/// handles is the strong count of the `Arc` that holds it.
pub struct AtomRcInner<T> {
    data: T,
}

/// A handle to a shared, immutable value, counted atomically.
pub struct AtomRc<T> {
    inner: Arc<AtomRcInner<T>>,
}

impl<T> View for AtomRc<T> {
    type V = T;

    /// The value that the handle gives access to.
    closed spec fn view(&self) -> T {
        self.inner.data
    }
}

/// Relies on `Arc::clone`: the new pointer refers to the same allocation,
/// so it holds the same value.
#[verifier::external_body]
fn share<T>(a: &Arc<AtomRcInner<T>>) -> (r: Arc<AtomRcInner<T>>)
    ensures
        r == *a,
{
    Arc::clone(a)
}

impl<T> AtomRc<T> {
    /// Wraps `data` in a new allocation whose count is one: the handle
    /// returned.
    pub fn new(data: T) -> (r: AtomRc<T>)
        ensures
            r@ == data,
    {
        AtomRc { inner: Arc::new(AtomRcInner { data }) }
    }
}

impl<T> Clone for AtomRc<T> {
    /// A new handle to the same allocation; the value is not copied.
    /// `Arc::clone` aborts the process before the count could pass
    /// `isize::MAX`.
    fn clone(&self) -> (r: AtomRc<T>)
        ensures
            r@ == self@,
    {
        AtomRc { inner: share(&self.inner) }
    }
}

impl<T> std::ops::Deref for AtomRc<T> {
    type Target = T;

    /// Read access to the value, for as long as this handle lives.
    fn deref(&self) -> (r: &T)
        ensures
            *r == self@,
    {
        &self.inner.data
    }
}

} // verus!
