use std::fmt::Debug;

use endianrw::{
    finish_read, BigEndian, ByteTransform, EndianReadExt, EndianWriteExt, LittleEndian,
    NetworkByteOrder, Primitive, StreamError,
};

const EXPECTED: [u8; 8] = [0x11, 0x22, 0x33, 0x44, 0x55, 0x66, 0x77, 0x88];

fn check_order<B: ByteTransform<T>, T: Primitive + PartialEq + Debug>(size: usize, value: T) {
    let expected = EXPECTED;
    // Test reading
    let val = (&expected[0..size]).read_as::<B, T>().unwrap();
    assert_eq!(value, val);
    // Test writing
    let mut buf: Vec<u8> = vec![0; size];
    (&mut buf[0..size]).write_as::<B, T>(value).unwrap();
    assert_eq!(&expected[..size], &buf[..]);
    // Read from too few bytes
    (&expected[0..size - 1]).read_as::<B, T>().unwrap_err();
    // Write to too few bytes
    let mut buf: Vec<u8> = vec![0; size];
    (&mut buf[0..size - 1]).write_as::<B, T>(value).unwrap_err();
}

fn check_type<T: Primitive + PartialEq + Debug>(size: usize, big: T, little: T)
where
    BigEndian: ByteTransform<T>,
    LittleEndian: ByteTransform<T>,
{
    check_order::<BigEndian, T>(size, big);
    check_order::<LittleEndian, T>(size, little);
}

fn read_f32<B: ByteTransform<u32>>(bytes: &[u8]) -> f32 {
    let mut src = bytes;
    f32::from_bits(src.read_as::<B, u32>().unwrap())
}

fn read_f64<B: ByteTransform<u64>>(bytes: &[u8]) -> f64 {
    let mut src = bytes;
    f64::from_bits(src.read_as::<B, u64>().unwrap())
}

#[test]
fn test_all() {
    check_type::<u8>(1, 17, 17);
    check_type::<u16>(2, 4386, 8721);
    check_type::<u32>(4, 287454020, 1144201745);
    check_type::<u64>(8, 1234605616436508552, 9833440827789222417);

    check_type::<i8>(1, 17, 17);
    check_type::<i16>(2, 4386, 8721);
    check_type::<i32>(4, 287454020, 1144201745);
    check_type::<i64>(8, 1234605616436508552, -8613303245920329199);

    // Floats travel as their bit patterns.
    let expected = EXPECTED;
    assert_eq!(1.2795344e-28f32, read_f32::<BigEndian>(&expected[0..4]));
    assert_eq!(7.165323e2f32, read_f32::<LittleEndian>(&expected[0..4]));
    assert_eq!(3.841412024471731e-226f64, read_f64::<BigEndian>(&expected[..]));
    assert_eq!(-7.086876636573014e-268f64, read_f64::<LittleEndian>(&expected[..]));
    check_type::<u32>(4, 1.2795344e-28f32.to_bits(), 7.165323e2f32.to_bits());
    check_type::<u64>(
        8,
        3.841412024471731e-226f64.to_bits(),
        (-7.086876636573014e-268f64).to_bits(),
    );
}

#[test]
fn reads_u32_in_both_orders() {
    let data = EXPECTED;
    assert_eq!(0x11223344u32, (&data[0..4]).read_as::<BigEndian, u32>().unwrap());
    assert_eq!(0x44332211u32, (&data[0..4]).read_as::<LittleEndian, u32>().unwrap());
}

#[test]
fn reads_negative_i64_little_endian() {
    let data = EXPECTED;
    let v = (&data[..]).read_as::<LittleEndian, i64>().unwrap();
    assert!(v < 0);
    assert_eq!(i64::from_le_bytes(EXPECTED), v);
    assert_eq!(0x8877665544332211u64 as i64, v);
}

#[test]
fn writes_u16_in_both_orders() {
    let mut buf = [0u8; 2];
    (&mut buf[..]).write_as::<BigEndian, u16>(0x1122).unwrap();
    assert_eq!([0x11, 0x22], buf);
    (&mut buf[..]).write_as::<LittleEndian, u16>(0x1122).unwrap();
    assert_eq!([0x22, 0x11], buf);
}

#[test]
fn short_read_of_f32_bits_fails() {
    let data = EXPECTED;
    let mut src = &data[0..3];
    assert_eq!(Err(StreamError::ShortRead), src.read_as::<BigEndian, u32>());
    assert!(src.is_empty());
}

#[test]
fn empty_source_is_short_read() {
    let mut src: &[u8] = &[];
    assert_eq!(Err(StreamError::ShortRead), src.read_as::<LittleEndian, u8>());
}

#[test]
fn reads_advance_the_source() {
    let data = EXPECTED;
    let mut src = &data[..];
    assert_eq!(Ok(0x1122u16), src.read_as::<BigEndian, u16>());
    assert_eq!(Ok(0x4433u16), src.read_as::<LittleEndian, u16>());
    assert_eq!(Ok(0x55667788u32), src.read_as::<BigEndian, u32>());
    assert!(src.is_empty());
    assert_eq!(Err(StreamError::ShortRead), src.read_as::<BigEndian, u8>());
}

#[test]
fn short_write_fails_and_keeps_what_fit() {
    let mut buf = [9u8; 3];
    assert_eq!(
        Err(StreamError::ShortWrite),
        (&mut buf[..]).write_as::<BigEndian, u32>(0x11223344)
    );
    assert_eq!([0x11, 0x22, 0x33], buf);
}

#[test]
fn short_write_to_one_byte_sink() {
    let mut buf = [0u8; 1];
    let mut sink: &mut [u8] = &mut buf[..];
    assert_eq!(Err(StreamError::ShortWrite), sink.write_as::<BigEndian, u16>(0x1122));
    assert!(sink.is_empty());
    assert_eq!([0x11], buf);
}

#[test]
fn writes_advance_the_sink() {
    let mut buf = [9u8; 8];
    let mut sink: &mut [u8] = &mut buf[..];
    assert_eq!(Ok(()), sink.write_as::<BigEndian, u16>(0x1122));
    assert_eq!(Ok(()), sink.write_as::<LittleEndian, u16>(0x4433));
    assert_eq!(4, sink.len());
    assert_eq!(Ok(()), sink.write_as::<BigEndian, u8>(0x55));
    assert_eq!(3, sink.len());
    assert_eq!([0x11, 0x22, 0x33, 0x44, 0x55, 9, 9, 9], buf);
}

#[test]
fn vec_sink_appends_exactly_the_width() {
    let mut out: Vec<u8> = vec![0xaa];
    assert_eq!(Ok(()), out.write_as::<BigEndian, u32>(0x11223344));
    assert_eq!(vec![0xaa, 0x11, 0x22, 0x33, 0x44], out);
    assert_eq!(Ok(()), out.write_as::<LittleEndian, i16>(-2));
    assert_eq!(vec![0xaa, 0x11, 0x22, 0x33, 0x44, 0xfe, 0xff], out);
    assert_eq!(Ok(()), out.write_as::<BigEndian, u8>(7));
    assert_eq!(8, out.len());
}

#[test]
fn write_keeps_bytes_past_the_width() {
    let mut buf = [9u8; 5];
    (&mut buf[..]).write_as::<LittleEndian, i32>(-2).unwrap();
    assert_eq!([0xfe, 0xff, 0xff, 0xff, 9], buf);
}

fn round_trip<B: ByteTransform<T>, T: Primitive + PartialEq + Debug>(v: T) {
    let bytes = B::to_bytes(v);
    assert_eq!(v, B::from_bytes(&bytes));
}

#[test]
fn round_trips_extreme_values() {
    round_trip::<BigEndian, u64>(u64::MAX);
    round_trip::<LittleEndian, u64>(0);
    round_trip::<BigEndian, i64>(i64::MIN);
    round_trip::<LittleEndian, i64>(i64::MIN);
    round_trip::<BigEndian, i32>(-1);
    round_trip::<LittleEndian, i16>(i16::MIN);
    round_trip::<BigEndian, i8>(-128);
    round_trip::<LittleEndian, u16>(0xabcd);
}

#[test]
fn big_is_little_reversed() {
    let mut le = <LittleEndian as ByteTransform<u32>>::to_bytes(0x0102_0304);
    let be = <BigEndian as ByteTransform<u32>>::to_bytes(0x0102_0304);
    assert_eq!(vec![0x01, 0x02, 0x03, 0x04], be);
    le.reverse();
    assert_eq!(be, le);
    assert_eq!(
        <BigEndian as ByteTransform<i8>>::to_bytes(-3),
        <LittleEndian as ByteTransform<i8>>::to_bytes(-3)
    );
    assert_eq!(vec![0xfd], <BigEndian as ByteTransform<i8>>::to_bytes(-3));
}

#[test]
fn widths_are_exact() {
    assert_eq!(1, <BigEndian as ByteTransform<u8>>::to_bytes(5).len());
    assert_eq!(2, <LittleEndian as ByteTransform<i16>>::to_bytes(5).len());
    assert_eq!(4, <BigEndian as ByteTransform<i32>>::to_bytes(5).len());
    assert_eq!(8, <LittleEndian as ByteTransform<u64>>::to_bytes(5).len());
    assert_eq!(vec![0u8; 8], <BigEndian as ByteTransform<i64>>::buffer());
    assert_eq!(vec![0u8; 2], <LittleEndian as ByteTransform<u16>>::buffer());
    assert_eq!(4, <u32 as Primitive>::byte_width());
}

#[test]
fn raw_patterns_of_signed_values() {
    assert_eq!(0xff, (-1i8).to_raw());
    assert_eq!(0x8000_0000_0000_0000, i64::MIN.to_raw());
    assert_eq!(-1i16, <i16 as Primitive>::from_raw(0xffff));
    assert_eq!(i32::MIN, <i32 as Primitive>::from_raw(0x8000_0000));
    assert_eq!(-1i64, <i64 as Primitive>::from_raw(u64::MAX));
}

#[test]
fn network_order_is_big_endian() {
    let data = EXPECTED;
    assert_eq!(Ok(0x1122u16), (&data[..]).read_as::<NetworkByteOrder, u16>());
}

#[test]
fn finish_read_decides_on_filled_count() {
    let buf = [0x11u8, 0x22, 0x33, 0x44];
    assert_eq!(Ok(0x11223344u32), finish_read::<BigEndian, u32>(&buf, 4));
    assert_eq!(Ok(0x44332211u32), finish_read::<LittleEndian, u32>(&buf, 4));
    assert_eq!(Err(StreamError::ShortRead), finish_read::<BigEndian, u32>(&buf, 3));
    assert_eq!(Err(StreamError::ShortRead), finish_read::<BigEndian, u32>(&buf, 0));
}
