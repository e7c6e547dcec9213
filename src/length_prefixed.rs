//! Length-prefixed packets: a fixed-width integer in a fixed byte order holds
//! the number of payload bytes, which follow it.
//!
//! Writers append to a `Vec<u8>`; readers consume the front of a `&[u8]`,
//! which afterwards holds what follows the frame.
use vstd::prelude::*;
use crate::CodecError;
use vstd::slice::slice_subrange;
use crate::wire::{
    Order, Width, append_bytes, lemma_radix_pow_values, decode_uint, encode_uint, lemma_uint_round_trip, lemma_uint_value_bound, uint_bytes, le_bytes, be_bytes, le_value, be_value,
    uint_value,
};

verus! {

/// The bytes of a frame: the length field, then the payload.
pub open spec fn frame(width: Width, order: Order, payload: Seq<u8>) -> Seq<u8> {
    uint_bytes(width, order, payload.len()) + payload
}

/// The length that the field at the start of `src` declares.
pub open spec fn frame_len(width: Width, order: Order, src: Seq<u8>) -> nat {
    uint_value(order, src.subrange(0, width.size() as int))
}

/// Whether `src` starts with a whole frame: its length field and as many
/// payload bytes as that field declares.
pub open spec fn frame_complete(width: Width, order: Order, src: Seq<u8>) -> bool {
    &&& width.size() <= src.len()
    &&& frame_len(width, order, src) <= src.len() - width.size()
}

/// The payload of the frame at the start of `src`.
pub open spec fn frame_payload(width: Width, order: Order, src: Seq<u8>) -> Seq<u8> {
    src.subrange(width.size() as int, (width.size() + frame_len(width, order, src)) as int)
}

/// What follows the frame at the start of `src`.
pub open spec fn frame_rest(width: Width, order: Order, src: Seq<u8>) -> Seq<u8> {
    src.subrange((width.size() + frame_len(width, order, src)) as int, src.len() as int)
}

/// What reading one frame from `src` does. When a whole frame is there, the
/// length is `got`, the buffer holds the payload and the input what follows.
/// Otherwise nothing is got, the buffer is untouched and the input is used
/// up.
pub open spec fn read_effect(
    width: Width,
    order: Order,
    src: Seq<u8>,
    rest: Seq<u8>,
    old_buf: Seq<u8>,
    new_buf: Seq<u8>,
    got: Option<nat>,
) -> bool {
    if frame_complete(width, order, src) {
        &&& got == Some(frame_len(width, order, src))
        &&& new_buf == frame_payload(width, order, src)
        &&& rest == frame_rest(width, order, src)
    } else {
        &&& got is None
        &&& new_buf == old_buf
        &&& rest == Seq::<u8>::empty()
    }
}

/// What writing `data` as one frame does to the output.
pub open spec fn write_effect(
    width: Width,
    order: Order,
    data: Seq<u8>,
    before: Seq<u8>,
    after: Seq<u8>,
    r: Result<(), CodecError>,
) -> bool {
    if width.holds(data.len()) {
        &&& r == Ok::<(), CodecError>(())
        &&& after == before + frame(width, order, data)
    } else {
        &&& r == Err::<(), CodecError>(CodecError::Overflow)
        &&& after == before
    }
}

/// Writing of byte slices with a length prefix.
pub trait LengthWriteExt: View<V = Seq<u8>> + Sized {
    /// Writes the length of `data` as a field of width `width` in order
    /// `order`, then `data`. A payload too long for the width is refused
    /// with `Overflow` and nothing is written.
    fn write_prefixed(&mut self, width: Width, order: Order, data: &[u8]) -> (r: Result<
        (),
        CodecError,
    >)
        ensures
            write_effect(width, order, data@, old(self)@, final(self)@, r),
    ;

    /// Writes `data` after a one-byte length.
    fn write_u8_prefixed(&mut self, data: &[u8]) -> (r: Result<(), CodecError>)
        ensures
            write_effect(Width::U8, Order::Big, data@, old(self)@, final(self)@, r),
    {
        self.write_prefixed(Width::U8, Order::Big, data)
    }

    /// Writes `data` after a two-byte length in order `order`.
    fn write_u16_prefixed(&mut self, order: Order, data: &[u8]) -> (r: Result<(), CodecError>)
        ensures
            write_effect(Width::U16, order, data@, old(self)@, final(self)@, r),
    {
        self.write_prefixed(Width::U16, order, data)
    }

    /// Writes `data` after a four-byte length in order `order`.
    fn write_u32_prefixed(&mut self, order: Order, data: &[u8]) -> (r: Result<(), CodecError>)
        ensures
            write_effect(Width::U32, order, data@, old(self)@, final(self)@, r),
    {
        self.write_prefixed(Width::U32, order, data)
    }

    /// Writes `data` after an eight-byte length in order `order`.
    fn write_u64_prefixed(&mut self, order: Order, data: &[u8]) -> (r: Result<(), CodecError>)
        ensures
            write_effect(Width::U64, order, data@, old(self)@, final(self)@, r),
    {
        self.write_prefixed(Width::U64, order, data)
    }
}

impl LengthWriteExt for Vec<u8> {
    fn write_prefixed(&mut self, width: Width, order: Order, data: &[u8]) -> (r: Result<
        (),
        CodecError,
    >) {
        let header = match encode_len(width, order, data.len()) {
            Some(h) => h,
            None => return Err(CodecError::Overflow),
        };
        append_bytes(self, header.as_slice());
        append_bytes(self, data);
        assert(final(self)@ =~= old(self)@ + frame(width, order, data@));
        Ok(())
    }
}

/// The length field for a payload of `len` bytes, or `None` where `len` does
/// not fit the width.
pub fn encode_len(width: Width, order: Order, len: usize) -> (r: Option<Vec<u8>>)
    ensures
        width.holds(len as nat) ==> r is Some && r->0@ == uint_bytes(width, order, len as nat),
        !width.holds(len as nat) ==> r is None,
{
    proof {
        lemma_radix_pow_values();
    }
    let n = len as u64;
    let fits = match width {
        Width::U8 => n <= 0xff,
        Width::U16 => n <= 0xffff,
        Width::U32 => n <= 0xffff_ffff,
        Width::U64 => true,
    };
    if fits {
        Some(encode_uint(width, order, n))
    } else {
        None
    }
}

/// Reading of length-prefixed data.
pub trait LengthReadExt: View<V = Seq<u8>> + Sized {
    /// Reads a length field of width `width` in order `order`, sizes `buf` to
    /// that length and fills it with the payload. Returns the length; a
    /// short input gives `UnexpectedEof`.
    fn read_prefixed(&mut self, width: Width, order: Order, buf: &mut Vec<u8>) -> (r: Result<
        u64,
        CodecError,
    >)
        ensures
            read_effect(
                width,
                order,
                old(self)@,
                final(self)@,
                old(buf)@,
                final(buf)@,
                match r {
                    Ok(n) => Some(n as nat),
                    Err(_) => None,
                },
            ),
            r is Err ==> r == Err::<u64, CodecError>(CodecError::UnexpectedEof),
            r is Ok ==> width.holds(r->Ok_0 as nat),
    ;

    /// Like `read_prefixed`, but refuses a declared length above `max` with
    /// `TooLong` before it touches `buf`; the length field is then consumed
    /// and the payload left on the input.
    fn read_prefixed_max(
        &mut self,
        width: Width,
        order: Order,
        max: u64,
        buf: &mut Vec<u8>,
    ) -> (r: Result<u64, CodecError>)
        ensures
            width.size() <= old(self)@.len() && frame_len(width, order, old(self)@) > max ==> {
                &&& r == Err::<u64, CodecError>(CodecError::TooLong)
                &&& final(buf)@ == old(buf)@
                &&& final(self)@ == old(self)@.subrange(
                    width.size() as int,
                    old(self)@.len() as int,
                )
            },
            !(width.size() <= old(self)@.len() && frame_len(width, order, old(self)@) > max) ==> {
                &&& read_effect(
                    width,
                    order,
                    old(self)@,
                    final(self)@,
                    old(buf)@,
                    final(buf)@,
                    match r {
                        Ok(n) => Some(n as nat),
                        Err(_) => None,
                    },
                )
                &&& r is Err ==> r == Err::<u64, CodecError>(CodecError::UnexpectedEof)
            },
            r is Ok ==> width.holds(r->Ok_0 as nat),
    ;

    /// Reads a frame with a one-byte length.
    fn read_u8_prefixed(&mut self, buf: &mut Vec<u8>) -> (r: Result<u8, CodecError>)
        ensures
            read_effect(
                Width::U8,
                Order::Big,
                old(self)@,
                final(self)@,
                old(buf)@,
                final(buf)@,
                match r {
                    Ok(n) => Some(n as nat),
                    Err(_) => None,
                },
            ),
            r is Err ==> r == Err::<u8, CodecError>(CodecError::UnexpectedEof),
    {
        proof {
            lemma_radix_pow_values();
        }
        match self.read_prefixed(Width::U8, Order::Big, buf) {
            Ok(n) => Ok(n as u8),
            Err(e) => Err(e),
        }
    }

    /// Reads a frame with a two-byte length in order `order`.
    fn read_u16_prefixed(&mut self, order: Order, buf: &mut Vec<u8>) -> (r: Result<u16, CodecError>)
        ensures
            read_effect(
                Width::U16,
                order,
                old(self)@,
                final(self)@,
                old(buf)@,
                final(buf)@,
                match r {
                    Ok(n) => Some(n as nat),
                    Err(_) => None,
                },
            ),
            r is Err ==> r == Err::<u16, CodecError>(CodecError::UnexpectedEof),
    {
        proof {
            lemma_radix_pow_values();
        }
        match self.read_prefixed(Width::U16, order, buf) {
            Ok(n) => Ok(n as u16),
            Err(e) => Err(e),
        }
    }

    /// Reads a frame with a four-byte length in order `order`.
    fn read_u32_prefixed(&mut self, order: Order, buf: &mut Vec<u8>) -> (r: Result<u32, CodecError>)
        ensures
            read_effect(
                Width::U32,
                order,
                old(self)@,
                final(self)@,
                old(buf)@,
                final(buf)@,
                match r {
                    Ok(n) => Some(n as nat),
                    Err(_) => None,
                },
            ),
            r is Err ==> r == Err::<u32, CodecError>(CodecError::UnexpectedEof),
    {
        proof {
            lemma_radix_pow_values();
        }
        match self.read_prefixed(Width::U32, order, buf) {
            Ok(n) => Ok(n as u32),
            Err(e) => Err(e),
        }
    }

    /// Reads a frame with an eight-byte length in order `order`.
    fn read_u64_prefixed(&mut self, order: Order, buf: &mut Vec<u8>) -> (r: Result<u64, CodecError>)
        ensures
            read_effect(
                Width::U64,
                order,
                old(self)@,
                final(self)@,
                old(buf)@,
                final(buf)@,
                match r {
                    Ok(n) => Some(n as nat),
                    Err(_) => None,
                },
            ),
            r is Err ==> r == Err::<u64, CodecError>(CodecError::UnexpectedEof),
    {
        self.read_prefixed(Width::U64, order, buf)
    }
}

impl<'a> LengthReadExt for &'a [u8] {
    fn read_prefixed(&mut self, width: Width, order: Order, buf: &mut Vec<u8>) -> (r: Result<
        u64,
        CodecError,
    >) {
        proof {
            lemma_radix_pow_values();
            if width.size() <= self@.len() {
                lemma_uint_value_bound(order, self@.subrange(0, width.size() as int));
            }
        }
        self.read_prefixed_max(width, order, u64::MAX, buf)
    }

    fn read_prefixed_max(
        &mut self,
        width: Width,
        order: Order,
        max: u64,
        buf: &mut Vec<u8>,
    ) -> (r: Result<u64, CodecError>) {
        let src: &'a [u8] = *self;
        let size = width.byte_len();
        if src.len() < size {
            *self = slice_subrange(src, src.len(), src.len());
            assert(self@ =~= Seq::<u8>::empty());
            return Err(CodecError::UnexpectedEof);
        }
        let n = decode_uint(width, order, src);
        if n > max {
            *self = slice_subrange(src, size, src.len());
            return Err(CodecError::TooLong);
        }
        if n > (src.len() - size) as u64 {
            *self = slice_subrange(src, src.len(), src.len());
            assert(self@ =~= Seq::<u8>::empty());
            return Err(CodecError::UnexpectedEof);
        }
        let end = size + n as usize;
        buf.clear();
        append_bytes(buf, slice_subrange(src, size, end));
        *self = slice_subrange(src, end, src.len());
        assert(buf@ =~= frame_payload(width, order, src@));
        Ok(n)
    }
}

/// A frame written for a payload that fits the width reads back as that
/// payload and its length, whatever follows it on the input, which is left
/// for the next read.
pub proof fn lemma_frame_round_trip(width: Width, order: Order, payload: Seq<u8>, rest: Seq<u8>)
    requires
        width.holds(payload.len()),
    ensures
        frame_complete(width, order, frame(width, order, payload) + rest),
        frame_len(width, order, frame(width, order, payload) + rest) == payload.len(),
        frame_payload(width, order, frame(width, order, payload) + rest) == payload,
        frame_rest(width, order, frame(width, order, payload) + rest) == rest,
{
    let header = uint_bytes(width, order, payload.len());
    let src = frame(width, order, payload) + rest;
    lemma_uint_round_trip(width, order, payload.len());
    assert(src.subrange(0, width.size() as int) =~= header);
    assert(frame_payload(width, order, src) =~= payload);
    assert(frame_rest(width, order, src) =~= rest);
}

/// An input that ends before the end of a frame holds no whole frame, so a
/// read of it fails rather than yield a shorter payload.
pub proof fn lemma_cut_frame_incomplete(width: Width, order: Order, payload: Seq<u8>, cut: nat)
    requires
        width.holds(payload.len()),
        cut < frame(width, order, payload).len(),
    ensures
        !frame_complete(width, order, frame(width, order, payload).subrange(0, cut as int)),
{
    let header = uint_bytes(width, order, payload.len());
    let src = frame(width, order, payload).subrange(0, cut as int);
    lemma_uint_round_trip(width, order, payload.len());
    if width.size() <= cut {
        assert(src.subrange(0, width.size() as int) =~= header);
    }
}

/// A frame of an empty payload reads back as length `0` and an empty
/// payload, while an empty input holds no frame at all.
pub proof fn lemma_empty_frame(width: Width, order: Order)
    ensures
        frame_complete(width, order, frame(width, order, Seq::empty())),
        frame_len(width, order, frame(width, order, Seq::empty())) == 0,
        frame_payload(width, order, frame(width, order, Seq::empty())) == Seq::<u8>::empty(),
        !frame_complete(width, order, Seq::empty()),
{
    lemma_radix_pow_values();
    let f = frame(width, order, Seq::empty());
    lemma_frame_round_trip(width, order, Seq::empty(), Seq::empty());
    assert(f + Seq::<u8>::empty() =~= f);
}

/// With a one-byte length field the byte order makes no difference, to
/// what is written or to what is read.
pub proof fn lemma_u8_order_free(payload: Seq<u8>, src: Seq<u8>)
    requires
        1 <= src.len(),
    ensures
        frame(Width::U8, Order::Big, payload) == frame(Width::U8, Order::Little, payload),
        frame_len(Width::U8, Order::Big, src) == frame_len(Width::U8, Order::Little, src),
{
    reveal_with_fuel(le_bytes, 2);
    reveal_with_fuel(be_bytes, 2);
    reveal_with_fuel(le_value, 2);
    reveal_with_fuel(be_value, 2);
    let n = payload.len();
    assert(be_bytes(n, 1) =~= le_bytes(n, 1));
    let h = src.subrange(0, 1);
    assert(le_value(h.drop_first()) == 0);
    assert(be_value(h.drop_last()) == 0);
}

} // verus!
