//! Zero-terminated byte strings: the bytes up to, and not including, a `0`.
//!
//! Readers consume the front of a `&[u8]`; writers append to a `Vec<u8>`.
//!
//! A string is read up to the first `0` or to the end of the input,
//! whichever comes first, with no bound on its size.
use vstd::prelude::*;
use crate::CodecError;
use crate::wire::append_bytes;
use vstd::slice::slice_subrange;

verus! {

/// What reading a zero-terminated string from `src` gives: `got` is the
/// bytes before the first `0`, or all of `src` where it holds none; `rest`
/// is what follows that `0`, or nothing.
pub open spec fn bytes0_read_effect(src: Seq<u8>, rest: Seq<u8>, got: Seq<u8>) -> bool {
    &&& got.len() <= src.len()
    &&& got == src.subrange(0, got.len() as int)
    &&& forall|i: int| 0 <= i < got.len() ==> #[trigger] src[i] != 0
    &&& if got.len() < src.len() {
        &&& src[got.len() as int] == 0
        &&& rest == src.subrange((got.len() + 1) as int, src.len() as int)
    } else {
        rest == Seq::<u8>::empty()
    }
}

/// The bytes of `data` followed by a `0`.
pub open spec fn bytes0(data: Seq<u8>) -> Seq<u8> {
    data.push(0u8)
}

/// The number of bytes of `src` before its first `0`, or its length where
/// it holds none.
pub fn zero_index(src: &[u8]) -> (k: usize)
    ensures
        k <= src@.len(),
        forall|i: int| 0 <= i < k ==> #[trigger] src@[i] != 0,
        k < src@.len() ==> src@[k as int] == 0,
{
    let mut k: usize = 0;
    while k < src.len()
        invariant
            k <= src@.len(),
            forall|i: int| 0 <= i < k ==> #[trigger] src@[i] != 0,
        decreases src@.len() - k,
    {
        if src[k] == 0 {
            return k;
        }
        k = k + 1;
    }
    k
}

/// Takes a zero-terminated string off the front of `src`: its bytes, and
/// what follows its terminator.
pub fn take_bytes0<'a>(src: &'a [u8]) -> (r: (Vec<u8>, &'a [u8]))
    ensures
        bytes0_read_effect(src@, r.1@, r.0@),
{
    let k = zero_index(src);
    let mut got: Vec<u8> = Vec::new();
    append_bytes(&mut got, slice_subrange(src, 0, k));
    let rest = if k < src.len() {
        slice_subrange(src, k + 1, src.len())
    } else {
        slice_subrange(src, k, k)
    };
    assert(got@ =~= src@.subrange(0, got@.len() as int));
    assert(k == src@.len() ==> rest@ =~= Seq::<u8>::empty());
    (got, rest)
}

/// Reading of zero-terminated byte strings.
pub trait ReadBytes0Ext: View<V = Seq<u8>> + Sized {
    /// Reads the bytes up to the first `0`, which is consumed and not
    /// returned, or up to the end of the input.
    fn read_bytes0(&mut self) -> (r: Result<Vec<u8>, CodecError>)
        ensures
            r is Ok,
            r is Ok ==> bytes0_read_effect(old(self)@, final(self)@, r->Ok_0@),
    ;
}

/// Writing of zero-terminated byte strings.
pub trait WriteBytes0Ext: View<V = Seq<u8>> + Sized {
    /// Writes `data`, then a `0`.
    fn write_bytes0(&mut self, data: &[u8]) -> (r: Result<(), CodecError>)
        ensures
            r is Ok,
            final(self)@ == old(self)@ + bytes0(data@),
    ;
}

impl<'a> ReadBytes0Ext for &'a [u8] {
    fn read_bytes0(&mut self) -> (r: Result<Vec<u8>, CodecError>) {
        let (got, rest) = take_bytes0(*self);
        *self = rest;
        Ok(got)
    }
}

/// Appends `data` and a `0` to `out`.
pub fn push_bytes0(out: &mut Vec<u8>, data: &[u8])
    ensures
        final(out)@ == old(out)@ + bytes0(data@),
{
    append_bytes(out, data);
    out.push(0u8);
    assert(final(out)@ =~= old(out)@ + bytes0(data@));
}

impl WriteBytes0Ext for Vec<u8> {
    fn write_bytes0(&mut self, data: &[u8]) -> (r: Result<(), CodecError>) {
        push_bytes0(self, data);
        Ok(())
    }
}

} // verus!
