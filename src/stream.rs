//! Reading values from byte sources and writing them to byte sinks.

use vstd::prelude::*;
use crate::primitive::Primitive;
use crate::transform::ByteTransform;

verus! {

/// Why a read or a write of a value failed.
#[derive(Debug, Clone, Copy, PartialEq, Eq, Structural)]
pub enum StreamError {
    /// The source held fewer bytes than the value's width.
    ShortRead,
    /// The sink had room for fewer bytes than the value's width.
    ShortWrite,
}

/// A source of bytes from which values can be read in a chosen byte order.
pub trait EndianReadExt {
    /// The bytes that are left to read.
    spec fn remaining(&self) -> Seq<u8>;

    /// Reads one value of type `T` in byte order `B`: it takes exactly the
    /// width of `T` from the front of the source, and fails with
    /// `ShortRead` when fewer bytes are left, using up what there was.
    fn read_as<B: ByteTransform<T>, T: Primitive>(&mut self) -> (r: Result<T, StreamError>)
        ensures
            match r {
                Ok(v) => {
                    &&& old(self).remaining().len() >= T::width()
                    &&& v == B::decode(old(self).remaining().take(T::width() as int))
                    &&& final(self).remaining() == old(self).remaining().skip(
                        T::width() as int,
                    )
                },
                Err(e) => {
                    &&& old(self).remaining().len() < T::width()
                    &&& e == StreamError::ShortRead
                    &&& final(self).remaining() == Seq::<u8>::empty()
                },
            },
    ;
}

/// A sink of bytes to which values can be written in a chosen byte order.
pub trait EndianWriteExt: Sized {
    /// How many more bytes the sink accepts, or `None` where it accepts any
    /// number of them.
    spec fn room(&self) -> Option<nat>;

    /// `after` is this sink once `bytes` have been written to it, as far as
    /// the sink itself shows it.
    spec fn wrote(&self, bytes: Seq<u8>, after: Self) -> bool;

    /// Writes one value of type `T` in byte order `B`: exactly the width of
    /// `T` in bytes. Where the sink has room for fewer, it takes the bytes
    /// that fit and the write fails with `ShortWrite`.
    fn write_as<B: ByteTransform<T>, T: Primitive>(&mut self, val: T) -> (r: Result<
        (),
        StreamError,
    >)
        ensures
            match r {
                Ok(_) => {
                    &&& (old(self).room() is None || T::width() <= old(self).room()->0)
                    &&& old(self).wrote(B::encode(val), *final(self))
                },
                Err(e) => {
                    &&& old(self).room() is Some
                    &&& old(self).room()->0 < T::width()
                    &&& e == StreamError::ShortWrite
                    &&& old(self).wrote(
                        B::encode(val).take(old(self).room()->0 as int),
                        *final(self),
                    )
                },
            },
    ;
}

impl<'a> EndianReadExt for &'a [u8] {
    open spec fn remaining(&self) -> Seq<u8> {
        (**self)@
    }

    fn read_as<B: ByteTransform<T>, T: Primitive>(&mut self) -> (r: Result<T, StreamError>) {
        let n = T::byte_width();
        let src: &'a [u8] = *self;
        if src.len() < n {
            let (_, rest) = src.split_at(src.len());
            *self = rest;
            assert(rest@ =~= Seq::<u8>::empty());
            return Err(StreamError::ShortRead);
        }
        let (head, rest) = src.split_at(n);
        *self = rest;
        Ok(B::from_bytes(head))
    }
}

/// A mutable byte slice is a sink that fills from the front: each write
/// moves it past the bytes written, and the bytes behind it keep what was
/// written there.
impl<'a> EndianWriteExt for &'a mut [u8] {
    open spec fn room(&self) -> Option<nat> {
        Some((**self)@.len())
    }

    open spec fn wrote(&self, bytes: Seq<u8>, after: Self) -> bool {
        after@ == (**self)@.skip(bytes.len() as int)
    }

    /// Besides moving the sink on, the write leaves the bytes that fit at the
    /// front of the buffer that the sink borrowed: once that borrow ends, the
    /// buffer holds them followed by whatever the rest of the sink ends with.
    fn write_as<B: ByteTransform<T>, T: Primitive>(&mut self, val: T) -> (r: Result<
        (),
        StreamError,
    >)
        ensures
            (*final(*old(self)))@ == B::encode(val).take(
                if old(self)@.len() < T::width() {
                    old(self)@.len() as int
                } else {
                    T::width() as int
                },
            ) + (*final(*final(self)))@,
    {
        let bytes = B::to_bytes(val);
        let n = bytes.len();
        let mut whole: &'a mut [u8] = &mut [];
        core::mem::swap(self, &mut whole);
        let k: usize = if whole.len() < n {
            whole.len()
        } else {
            n
        };
        let (head, tail) = whole.split_at_mut(k);
        let mut i: usize = 0;
        while i < k
            invariant
                i <= k,
                k <= n,
                n == bytes@.len(),
                head@.len() == k,
                forall|j: int| 0 <= j < i ==> head@[j] == bytes@[j],
            decreases k - i,
        {
            head[i] = bytes[i];
            i = i + 1;
        }
        assert(head@ =~= bytes@.take(k as int));
        *self = tail;
        if k < n {
            return Err(StreamError::ShortWrite);
        }
        assert(bytes@.take(k as int) =~= bytes@);
        Ok(())
    }
}

/// A vector is a sink that takes every byte, appending it at the end.
impl EndianWriteExt for Vec<u8> {
    open spec fn room(&self) -> Option<nat> {
        None
    }

    open spec fn wrote(&self, bytes: Seq<u8>, after: Self) -> bool {
        after@ == self@ + bytes
    }

    fn write_as<B: ByteTransform<T>, T: Primitive>(&mut self, val: T) -> (r: Result<
        (),
        StreamError,
    >) {
        let bytes = B::to_bytes(val);
        let n = bytes.len();
        let mut i: usize = 0;
        while i < n
            invariant
                i <= n,
                n == bytes@.len(),
                self@ == old(self)@ + bytes@.take(i as int),
            decreases n - i,
        {
            self.push(bytes[i]);
            i = i + 1;
            assert(self@ =~= old(self)@ + bytes@.take(i as int));
        }
        assert(bytes@.take(n as int) =~= bytes@);
        Ok(())
    }
}

/// Completes a read into a buffer of the width of `T` that a source filled
/// `filled` bytes of: the value in byte order `B` when the buffer was filled
/// whole, else `ShortRead`.
pub fn finish_read<B: ByteTransform<T>, T: Primitive>(buf: &[u8], filled: usize) -> (r: Result<
    T,
    StreamError,
>)
    requires
        buf@.len() == T::width(),
    ensures
        match r {
            Ok(v) => filled == T::width() && v == B::decode(buf@),
            Err(e) => filled != T::width() && e == StreamError::ShortRead,
        },
{
    if filled != buf.len() {
        return Err(StreamError::ShortRead);
    }
    Ok(B::from_bytes(buf))
}

} // verus!
