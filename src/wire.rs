//! Fixed-width unsigned integers as bytes, in big or little endian order.
use vstd::prelude::*;
use byteorder::ByteOrder;

verus! {

/// The byte order of a multi-byte integer.
#[derive(Clone, Copy, Debug, PartialEq, Eq, Structural)]
pub enum Order {
    /// Most significant byte first.
    Big,
    /// Least significant byte first.
    Little,
}

/// The width of a length field: one, two, four or eight bytes.
#[derive(Clone, Copy, Debug, PartialEq, Eq, Structural)]
pub enum Width {
    U8,
    U16,
    U32,
    U64,
}

impl Width {
    /// The number of bytes of a field of this width.
    pub open spec fn size(self) -> nat {
        match self {
            Width::U8 => 1,
            Width::U16 => 2,
            Width::U32 => 4,
            Width::U64 => 8,
        }
    }

    /// The number of bytes of a field of this width.
    pub fn byte_len(&self) -> (r: usize)
        ensures
            r as nat == self.size(),
    {
        match self {
            Width::U8 => 1,
            Width::U16 => 2,
            Width::U32 => 4,
            Width::U64 => 8,
        }
    }

    /// Whether `n` can be held in a field of this width.
    pub open spec fn holds(self, n: nat) -> bool {
        n < radix_pow(self.size())
    }
}

/// `256` raised to the power `w`: the number of values that `w` bytes hold.
pub open spec fn radix_pow(w: nat) -> nat
    decreases w,
{
    if w == 0 {
        1
    } else {
        256 * radix_pow((w - 1) as nat)
    }
}

/// The `w` low bytes of `n`, least significant first.
pub open spec fn le_bytes(n: nat, w: nat) -> Seq<u8>
    decreases w,
{
    if w == 0 {
        Seq::empty()
    } else {
        seq![(n % 256) as u8] + le_bytes(n / 256, (w - 1) as nat)
    }
}

/// The `w` low bytes of `n`, most significant first.
pub open spec fn be_bytes(n: nat, w: nat) -> Seq<u8>
    decreases w,
{
    if w == 0 {
        Seq::empty()
    } else {
        be_bytes(n / 256, (w - 1) as nat).push((n % 256) as u8)
    }
}

/// The number whose bytes, least significant first, are `s`.
pub open spec fn le_value(s: Seq<u8>) -> nat
    decreases s.len(),
{
    if s.len() == 0 {
        0
    } else {
        s[0] as nat + 256 * le_value(s.drop_first())
    }
}

/// The number whose bytes, most significant first, are `s`.
pub open spec fn be_value(s: Seq<u8>) -> nat
    decreases s.len(),
{
    if s.len() == 0 {
        0
    } else {
        be_value(s.drop_last()) * 256 + s.last() as nat
    }
}

/// The bytes of the field of width `width` and order `order` that holds `n`.
pub open spec fn uint_bytes(width: Width, order: Order, n: nat) -> Seq<u8> {
    match order {
        Order::Big => be_bytes(n, width.size()),
        Order::Little => le_bytes(n, width.size()),
    }
}

/// The number that the bytes `s` hold in order `order`.
pub open spec fn uint_value(order: Order, s: Seq<u8>) -> nat {
    match order {
        Order::Big => be_value(s),
        Order::Little => le_value(s),
    }
}

pub proof fn lemma_radix_pow_values()
    ensures
        radix_pow(1) == 256,
        radix_pow(2) == 0x1_0000,
        radix_pow(4) == 0x1_0000_0000,
        radix_pow(8) == 0x1_0000_0000_0000_0000,
{
    reveal_with_fuel(radix_pow, 9);
}

pub proof fn lemma_le_bytes_len(n: nat, w: nat)
    ensures
        le_bytes(n, w).len() == w,
    decreases w,
{
    if w > 0 {
        lemma_le_bytes_len(n / 256, (w - 1) as nat);
    }
}

pub proof fn lemma_be_bytes_len(n: nat, w: nat)
    ensures
        be_bytes(n, w).len() == w,
    decreases w,
{
    if w > 0 {
        lemma_be_bytes_len(n / 256, (w - 1) as nat);
    }
}

/// Reading back the little endian bytes of a number that fits gives the number.
pub proof fn lemma_le_round_trip(n: nat, w: nat)
    requires
        n < radix_pow(w),
    ensures
        le_value(le_bytes(n, w)) == n,
    decreases w,
{
    if w > 0 {
        let q = n / 256;
        assert(n == (n % 256) + 256 * q) by (nonlinear_arith)
            requires
                q == n / 256,
        ;
        assert(q < radix_pow((w - 1) as nat)) by (nonlinear_arith)
            requires
                q == n / 256,
                n < 256 * radix_pow((w - 1) as nat),
        ;
        lemma_le_round_trip(q, (w - 1) as nat);
        let s = le_bytes(n, w);
        assert(s.drop_first() =~= le_bytes(q, (w - 1) as nat));
    }
}

/// Reading back the big endian bytes of a number that fits gives the number.
pub proof fn lemma_be_round_trip(n: nat, w: nat)
    requires
        n < radix_pow(w),
    ensures
        be_value(be_bytes(n, w)) == n,
    decreases w,
{
    if w > 0 {
        let q = n / 256;
        assert(n == q * 256 + (n % 256)) by (nonlinear_arith)
            requires
                q == n / 256,
        ;
        assert(q < radix_pow((w - 1) as nat)) by (nonlinear_arith)
            requires
                q == n / 256,
                n < 256 * radix_pow((w - 1) as nat),
        ;
        lemma_be_round_trip(q, (w - 1) as nat);
        let s = be_bytes(n, w);
        assert(s.drop_last() =~= be_bytes(q, (w - 1) as nat));
    }
}

/// Little endian bytes always hold a number below `256` to their count.
pub proof fn lemma_le_value_bound(s: Seq<u8>)
    ensures
        le_value(s) < radix_pow(s.len()),
    decreases s.len(),
{
    if s.len() > 0 {
        lemma_le_value_bound(s.drop_first());
        let r = radix_pow((s.len() - 1) as nat);
        let v = le_value(s.drop_first());
        let b = s[0] as nat;
        assert(b + 256 * v < 256 * r) by (nonlinear_arith)
            requires
                b < 256,
                v < r,
        ;
    }
}

/// Big endian bytes always hold a number below `256` to their count.
pub proof fn lemma_be_value_bound(s: Seq<u8>)
    ensures
        be_value(s) < radix_pow(s.len()),
    decreases s.len(),
{
    if s.len() > 0 {
        lemma_be_value_bound(s.drop_last());
        let r = radix_pow((s.len() - 1) as nat);
        let v = be_value(s.drop_last());
        let b = s.last() as nat;
        assert(v * 256 + b < 256 * r) by (nonlinear_arith)
            requires
                b < 256,
                v < r,
        ;
    }
}

/// The field bytes of a number that fits have the width's length and read
/// back as the number.
pub proof fn lemma_uint_round_trip(width: Width, order: Order, n: nat)
    requires
        width.holds(n),
    ensures
        uint_bytes(width, order, n).len() == width.size(),
        uint_value(order, uint_bytes(width, order, n)) == n,
{
    match order {
        Order::Big => {
            lemma_be_bytes_len(n, width.size());
            lemma_be_round_trip(n, width.size());
        },
        Order::Little => {
            lemma_le_bytes_len(n, width.size());
            lemma_le_round_trip(n, width.size());
        },
    }
}

/// Whatever the bytes, the number they hold fits their count.
pub proof fn lemma_uint_value_bound(order: Order, s: Seq<u8>)
    ensures
        uint_value(order, s) < radix_pow(s.len()),
{
    match order {
        Order::Big => lemma_be_value_bound(s),
        Order::Little => lemma_le_value_bound(s),
    }
}

/// Encodes `n` as a field of width `width` in order `order`.
pub fn encode_uint(width: Width, order: Order, n: u64) -> (r: Vec<u8>)
    requires
        width.holds(n as nat),
    ensures
        r@ == uint_bytes(width, order, n as nat),
{
    let nbytes = width.byte_len();
    match order {
        Order::Big => be_uint_bytes(n, nbytes),
        Order::Little => le_uint_bytes(n, nbytes),
    }
}

/// Decodes the field of width `width` and order `order` at the start of `buf`.
pub fn decode_uint(width: Width, order: Order, buf: &[u8]) -> (r: u64)
    requires
        width.size() <= buf@.len(),
    ensures
        r as nat == uint_value(order, buf@.subrange(0, width.size() as int)),
        width.holds(r as nat),
{
    let nbytes = width.byte_len();
    proof {
        lemma_uint_value_bound(order, buf@.subrange(0, nbytes as int));
    }
    match order {
        Order::Big => be_read_uint(buf, nbytes),
        Order::Little => le_read_uint(buf, nbytes),
    }
}

/// Appends the bytes of `src` to `out`.
pub fn append_bytes(out: &mut Vec<u8>, src: &[u8])
    ensures
        final(out)@ == old(out)@ + src@,
{
    let ghost start = out@;
    let mut i: usize = 0;
    while i < src.len()
        invariant
            i <= src@.len(),
            out@ == start + src@.subrange(0, i as int),
        decreases src@.len() - i,
    {
        out.push(src[i]);
        i = i + 1;
        assert(src@.subrange(0, i as int) =~= src@.subrange(0, (i - 1) as int).push(src@[i - 1]));
    }
    assert(src@.subrange(0, i as int) =~= src@);
}

/// Relies on `byteorder::BigEndian::read_uint`: the first `nbytes` bytes of
/// `buf`, most significant first, as a number.
#[verifier::external_body]
fn be_read_uint(buf: &[u8], nbytes: usize) -> (r: u64)
    requires
        1 <= nbytes <= 8,
        nbytes <= buf@.len(),
    ensures
        r as nat == be_value(buf@.subrange(0, nbytes as int)),
{
    byteorder::BigEndian::read_uint(buf, nbytes)
}

/// Relies on `byteorder::LittleEndian::read_uint`: the first `nbytes` bytes of
/// `buf`, least significant first, as a number.
#[verifier::external_body]
fn le_read_uint(buf: &[u8], nbytes: usize) -> (r: u64)
    requires
        1 <= nbytes <= 8,
        nbytes <= buf@.len(),
    ensures
        r as nat == le_value(buf@.subrange(0, nbytes as int)),
{
    byteorder::LittleEndian::read_uint(buf, nbytes)
}

/// Relies on `byteorder::BigEndian::write_uint`: `n` as `nbytes` bytes, most
/// significant first.
#[verifier::external_body]
fn be_uint_bytes(n: u64, nbytes: usize) -> (r: Vec<u8>)
    requires
        1 <= nbytes <= 8,
        (n as nat) < radix_pow(nbytes as nat),
    ensures
        r@ == be_bytes(n as nat, nbytes as nat),
{
    let mut buf = vec![0u8; nbytes];
    byteorder::BigEndian::write_uint(&mut buf, n, nbytes);
    buf
}

/// Relies on `byteorder::LittleEndian::write_uint`: `n` as `nbytes` bytes,
/// least significant first.
#[verifier::external_body]
fn le_uint_bytes(n: u64, nbytes: usize) -> (r: Vec<u8>)
    requires
        1 <= nbytes <= 8,
        (n as nat) < radix_pow(nbytes as nat),
    ensures
        r@ == le_bytes(n as nat, nbytes as nat),
{
    let mut buf = vec![0u8; nbytes];
    byteorder::LittleEndian::write_uint(&mut buf, n, nbytes);
    buf
}

} // verus!
