//! The taint marker and the value wrapper that carries it.

use vstd::prelude::*;

verus! {

/// Whether a value's provenance is trusted.
#[derive(Debug, Clone, Copy, PartialEq, Eq, Structural)]
pub enum Taint {
    Clean,
    Tainted,
}

/// A payload together with its taint marker.
#[derive(Debug, Clone, PartialEq, Eq)]
pub struct Value<T> {
    pub inner: T,
    pub taint: Taint,
}

impl<T: View> View for Value<T> {
    type V = Value<T::V>;

    open spec fn view(&self) -> Value<T::V> {
        Value { inner: self.inner@, taint: self.taint }
    }
}

impl<T> Value<T> {
    /// Pairs a payload with a taint marker.
    pub fn new(inner: T, taint: Taint) -> (v: Self)
        ensures
            v == (Value { inner, taint }),
    {
        Self { inner, taint }
    }
}

} // verus!
