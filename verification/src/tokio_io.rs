use vstd::prelude::*;

verus! {

/// Adapter that wraps an I/O object so that it can be driven by another
/// runtime's read and write traits. The wrapper owns the inner object and
/// hands it back unchanged.
pub struct TokioIo<T> {
    inner: T,
}

impl<T> TokioIo<T> {
    /// The wrapped object, as seen by specifications.
    pub closed spec fn wrapped(self) -> T {
        self.inner
    }

    /// The adapter built around `inner`.
    pub closed spec fn spec_new(inner: T) -> Self {
        TokioIo { inner }
    }

    /// Wraps `inner`.
    pub fn new(inner: T) -> (io: Self)
        ensures
            io == Self::spec_new(inner),
            io.wrapped() == inner,
    {
        Self { inner }
    }

    /// Gives back the wrapped object.
    pub fn inner(self) -> (inner: T)
        ensures
            inner == self.wrapped(),
    {
        self.inner
    }

    /// Wrapping and then unwrapping gives back the original object, and two
    /// adapters are equal exactly when the objects they wrap are equal.
    pub proof fn lemma_wrap_round_trip(a: T, b: T)
        ensures
            Self::spec_new(a).wrapped() == a,
            Self::spec_new(a) == Self::spec_new(b) <==> a == b,
    {
    }

    /// Every adapter is the one built around the object it wraps, so
    /// unwrapping and wrapping again gives back the same adapter.
    pub proof fn lemma_adapter_is_built_from_wrapped(io: Self)
        ensures
            Self::spec_new(io.wrapped()) == io,
    {
    }
}

} // verus!
