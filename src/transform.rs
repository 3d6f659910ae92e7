//! Byte orders and the conversions between integers and byte sequences.

use vstd::prelude::*;
use crate::bytes::{
    be_bytes, be_value, le_bytes, le_value, lemma_be_bytes_len, lemma_be_is_reversed_le,
    lemma_be_bytes_of_value, lemma_be_round_trip, lemma_be_value_bound,
    lemma_le_bytes_of_value, lemma_le_bytes_len, lemma_le_round_trip,
    lemma_le_value_bound, lemma_pow256_8, lemma_pow256_mono, pow256,
};
use crate::primitive::Primitive;

verus! {

/// Big endian byte order: the most significant byte comes first.
pub struct BigEndian;

/// Little endian byte order: the least significant byte comes first.
pub struct LittleEndian;

/// Network byte order, which is big endian.
pub type NetworkByteOrder = BigEndian;

/// Conversion between values of `T` and byte sequences of exactly
/// `T::width()` bytes in the byte order that `Self` names.
pub trait ByteTransform<T: Primitive> {
    /// The bytes of `v` in this byte order.
    spec fn encode(v: T) -> Seq<u8>;

    /// The value that the bytes `b` stand for in this byte order.
    spec fn decode(b: Seq<u8>) -> T;

    /// Encoding gives exactly `T::width()` bytes, and decoding them gives
    /// the value back.
    proof fn lemma_round_trip(v: T)
        ensures
            Self::encode(v).len() == T::width(),
            Self::decode(Self::encode(v)) == v,
    ;

    /// Every byte sequence of width `T::width()` stands for a value, whose
    /// encoding is that sequence.
    proof fn lemma_encode_decode(b: Seq<u8>)
        requires
            b.len() == T::width(),
        ensures
            Self::encode(Self::decode(b)) == b,
    ;

    /// Reads a value from a buffer of exactly its width.
    fn from_bytes(buf: &[u8]) -> (r: T)
        requires
            buf@.len() == T::width(),
        ensures
            r == Self::decode(buf@),
    ;

    /// The bytes of `val`.
    fn to_bytes(val: T) -> (r: Vec<u8>)
        ensures
            r@ == Self::encode(val),
            r@.len() == T::width(),
    ;

    /// A zeroed buffer of exactly the width of `T`.
    fn buffer() -> (r: Vec<u8>)
        ensures
            r@ == Seq::new(T::width(), |i: int| 0u8),
    ;
}

fn zeroed(n: usize) -> (r: Vec<u8>)
    ensures
        r@ == Seq::new(n as nat, |i: int| 0u8),
{
    let mut r: Vec<u8> = Vec::new();
    let mut i: usize = 0;
    while i < n
        invariant
            i <= n,
            r@ == Seq::new(i as nat, |j: int| 0u8),
        decreases n - i,
    {
        r.push(0u8);
        i = i + 1;
        assert(r@ =~= Seq::new(i as nat, |j: int| 0u8));
    }
    r
}

proof fn lemma_next_acc(acc: nat, b: u8, k: nat)
    requires
        acc < pow256(k),
        k < 8,
    ensures
        256 * acc + b < pow256(k + 1),
        pow256(k + 1) <= 0x1_0000_0000_0000_0000,
{
    assert(pow256(k + 1) == 256 * pow256(k));
    assert(256 * acc + b < 256 * pow256(k)) by (nonlinear_arith)
        requires
            acc < pow256(k),
            b < 256,
    ;
    lemma_pow256_mono(k + 1, 8);
    lemma_pow256_8();
}

impl<T: Primitive> ByteTransform<T> for LittleEndian {
    open spec fn encode(v: T) -> Seq<u8> {
        le_bytes(v.raw(), T::width())
    }

    open spec fn decode(b: Seq<u8>) -> T {
        T::of_raw(le_value(b))
    }

    proof fn lemma_round_trip(v: T) {
        v.lemma_raw();
        lemma_le_bytes_len(v.raw(), T::width());
        lemma_le_round_trip(v.raw(), T::width());
    }

    proof fn lemma_encode_decode(b: Seq<u8>) {
        lemma_le_value_bound(b);
        T::lemma_of_raw(le_value(b));
        lemma_le_bytes_of_value(b);
    }

    fn from_bytes(buf: &[u8]) -> (r: T) {
        proof {
            T::lemma_width();
        }
        let n = buf.len();
        let mut acc: u64 = 0;
        let mut i: usize = n;
        while i > 0
            invariant
                i <= n,
                n == buf@.len(),
                n <= 8,
                acc == le_value(buf@.subrange(i as int, n as int)),
                acc < pow256((n - i) as nat),
            decreases i,
        {
            i = i - 1;
            proof {
                let s = buf@.subrange(i as int, n as int);
                assert(s.drop_first() =~= buf@.subrange(i + 1, n as int));
                lemma_next_acc(acc as nat, buf@[i as int], (n - i - 1) as nat);
            }
            acc = 256 * acc + buf[i] as u64;
        }
        assert(buf@.subrange(0, n as int) =~= buf@);
        T::from_raw(acc)
    }

    fn to_bytes(val: T) -> (r: Vec<u8>) {
        let n = T::byte_width();
        let mut x: u64 = val.to_raw();
        let mut out: Vec<u8> = Vec::new();
        let mut i: usize = 0;
        while i < n
            invariant
                i <= n,
                n == T::width(),
                out@ + le_bytes(x as nat, (n - i) as nat) == le_bytes(val.raw(), n as nat),
            decreases n - i,
        {
            proof {
                let rest = le_bytes(x as nat / 256, (n - i - 1) as nat);
                assert(le_bytes(x as nat, (n - i) as nat) == seq![(x % 256) as u8] + rest);
                assert(out@ + (seq![(x % 256) as u8] + rest) =~= out@.push((x % 256) as u8)
                    + rest);
            }
            out.push((x % 256) as u8);
            x = x / 256;
            i = i + 1;
        }
        assert(out@ + le_bytes(x as nat, 0) =~= out@);
        proof {
            lemma_le_bytes_len(val.raw(), n as nat);
        }
        out
    }

    fn buffer() -> (r: Vec<u8>) {
        zeroed(T::byte_width())
    }
}

impl<T: Primitive> ByteTransform<T> for BigEndian {
    open spec fn encode(v: T) -> Seq<u8> {
        be_bytes(v.raw(), T::width())
    }

    open spec fn decode(b: Seq<u8>) -> T {
        T::of_raw(be_value(b))
    }

    proof fn lemma_round_trip(v: T) {
        v.lemma_raw();
        lemma_be_bytes_len(v.raw(), T::width());
        lemma_be_round_trip(v.raw(), T::width());
    }

    proof fn lemma_encode_decode(b: Seq<u8>) {
        lemma_be_value_bound(b);
        T::lemma_of_raw(be_value(b));
        lemma_be_bytes_of_value(b);
    }

    fn from_bytes(buf: &[u8]) -> (r: T) {
        proof {
            T::lemma_width();
        }
        let n = buf.len();
        let mut acc: u64 = 0;
        let mut i: usize = 0;
        while i < n
            invariant
                i <= n,
                n == buf@.len(),
                n <= 8,
                acc == be_value(buf@.take(i as int)),
                acc < pow256(i as nat),
            decreases n - i,
        {
            proof {
                assert(buf@.take(i + 1).drop_last() =~= buf@.take(i as int));
                lemma_next_acc(acc as nat, buf@[i as int], i as nat);
            }
            acc = 256 * acc + buf[i] as u64;
            i = i + 1;
        }
        assert(buf@.take(n as int) =~= buf@);
        T::from_raw(acc)
    }

    fn to_bytes(val: T) -> (r: Vec<u8>) {
        let le = <LittleEndian as ByteTransform<T>>::to_bytes(val);
        let n = le.len();
        let mut out: Vec<u8> = Vec::new();
        let mut i: usize = 0;
        while i < n
            invariant
                i <= n,
                n == le@.len(),
                out@ == Seq::new(i as nat, |j: int| le@[n - 1 - j]),
            decreases n - i,
        {
            out.push(le[n - 1 - i]);
            i = i + 1;
            assert(out@ =~= Seq::new(i as nat, |j: int| le@[n - 1 - j]));
        }
        proof {
            lemma_be_is_reversed_le(val.raw(), T::width());
            assert(out@ =~= le@.reverse());
        }
        out
    }

    fn buffer() -> (r: Vec<u8>) {
        zeroed(T::byte_width())
    }
}

/// For every byte order and every type, decoding the encoding of a value
/// gives the value back, and the encoding has exactly the type's width.
pub proof fn lemma_decode_encode<B: ByteTransform<T>, T: Primitive>(v: T)
    ensures
        B::encode(v).len() == T::width(),
        B::decode(B::encode(v)) == v,
{
    B::lemma_round_trip(v);
}

/// For every byte order and every type, any byte sequence of the type's
/// width decodes to a value whose encoding is that same sequence.
pub proof fn lemma_every_pattern_decodes<B: ByteTransform<T>, T: Primitive>(b: Seq<u8>)
    requires
        b.len() == T::width(),
    ensures
        B::encode(B::decode(b)) == b,
{
    B::lemma_encode_decode(b);
}

/// The big endian bytes of a value are its little endian bytes in reverse
/// order; for a one-byte type the two are the same.
pub proof fn lemma_big_is_reversed_little<T: Primitive>(v: T)
    ensures
        <BigEndian as ByteTransform<T>>::encode(v) == <LittleEndian as ByteTransform<
            T,
        >>::encode(v).reverse(),
        T::width() == 1 ==> <BigEndian as ByteTransform<T>>::encode(v) == <LittleEndian as ByteTransform<
            T,
        >>::encode(v),
{
    lemma_be_is_reversed_le(v.raw(), T::width());
    if T::width() == 1 {
        let le = le_bytes(v.raw(), 1);
        lemma_le_bytes_len(v.raw(), 1);
        assert(le.reverse() =~= le);
    }
}

} // verus!
