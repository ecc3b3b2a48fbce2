//! A value of a given type, held as the bytes of a flexbuffer.

use core::marker::PhantomData;
use vstd::prelude::*;

verus! {

/// The bytes of a flexbuffer that is to be read as a `T`.
pub struct Container<'de, T> {
    buf: &'de [u8],
    _phantom0: PhantomData<T>,
}

impl<'de, T> Container<'de, T> {
    /// The bytes held.
    pub closed spec fn bytes(&self) -> Seq<u8> {
        self.buf@
    }

    /// A container of the bytes `buf`.
    pub fn new(buf: &'de [u8]) -> (container: Self)
        ensures
            container.bytes() == buf@,
    {
        Self { buf, _phantom0: PhantomData }
    }

    /// The bytes held, for whoever reads the value out of them.
    pub fn as_bytes(&self) -> (buf: &'de [u8])
        ensures
            buf@ == self.bytes(),
    {
        self.buf
    }
}

} // verus!
