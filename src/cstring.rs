//! C-style strings as raw bytes: the bytes up to, and not including, a `0`.
//!
//! Readers consume the front of a `&[u8]`; writers append to a `Vec<u8>`.
use vstd::prelude::*;
use crate::CodecError;
use crate::bytes0::{bytes0, bytes0_read_effect, push_bytes0, take_bytes0};

verus! {

/// Reading of C-style strings.
pub trait Bytes0Read: View<V = Seq<u8>> + Sized {
    /// Reads the bytes up to the first `0`, which is consumed and not
    /// returned, or up to the end of the input.
    fn read_cstring_raw(&mut self) -> (r: Result<Vec<u8>, CodecError>)
        ensures
            r is Ok,
            r is Ok ==> bytes0_read_effect(old(self)@, final(self)@, r->Ok_0@),
    ;
}

/// Writing of C-style strings.
pub trait Bytes0Write: View<V = Seq<u8>> + Sized {
    /// Writes `data`, then a `0`.
    fn write_cstring_raw(&mut self, data: &[u8]) -> (r: Result<(), CodecError>)
        ensures
            r is Ok,
            final(self)@ == old(self)@ + bytes0(data@),
    ;
}

impl<'a> Bytes0Read for &'a [u8] {
    fn read_cstring_raw(&mut self) -> (r: Result<Vec<u8>, CodecError>) {
        let (got, rest) = take_bytes0(*self);
        *self = rest;
        Ok(got)
    }
}

impl Bytes0Write for Vec<u8> {
    fn write_cstring_raw(&mut self, data: &[u8]) -> (r: Result<(), CodecError>) {
        push_bytes0(self, data);
        Ok(())
    }
}

} // verus!
