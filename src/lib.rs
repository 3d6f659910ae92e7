//! Reading and writing fixed-width integers as byte sequences in a chosen
//! byte order, with every conversion proved against a mathematical model.

pub mod bytes;
pub mod primitive;
pub mod stream;
pub mod transform;

pub use primitive::Primitive;
pub use stream::{finish_read, EndianReadExt, EndianWriteExt, StreamError};
pub use transform::{BigEndian, ByteTransform, LittleEndian, NetworkByteOrder};
