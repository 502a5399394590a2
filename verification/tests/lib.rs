use eio::Cursor;
use eio::FromBeBytes;
use eio::FromLeBytes;
use eio::IoError;
use eio::ReadExt;
use eio::ToBytes;
use eio::WriteExt;

fn roundtrip<T, const N: usize>(data: &[u8], be: T, le: T)
where
    T: std::fmt::Debug + PartialEq + Copy + FromBeBytes + FromLeBytes + ToBytes<N>,
{
    let mut rdr = Cursor::new(data.to_vec());
    assert_eq!(rdr.read_be::<T>().unwrap(), be);

    let mut rdr = Cursor::new(data.to_vec());
    assert_eq!(rdr.read_le::<T>().unwrap(), le);

    let mut wtr: Vec<u8> = Vec::with_capacity(N);
    wtr.write_be(be).unwrap();
    assert_eq!(wtr, data);

    let mut wtr: Vec<u8> = Vec::with_capacity(N);
    wtr.write_le(le).unwrap();
    assert_eq!(wtr, data);
}

#[test]
fn integers() {
    roundtrip::<u8, 1>(&[0x01], 0x01, 0x01);
    roundtrip::<i8, 1>(&[0x01], 0x01, 0x01);

    roundtrip::<u16, 2>(&[0x01, 0x02], 0x0102, 0x0201);
    roundtrip::<i16, 2>(&[0x01, 0x02], 0x0102, 0x0201);

    roundtrip::<u32, 4>(&[0x01, 0x02, 0x03, 0x04], 0x01020304, 0x04030201);
    roundtrip::<i32, 4>(&[0x01, 0x02, 0x03, 0x04], 0x01020304, 0x04030201);

    roundtrip::<u64, 8>(
        &[0x01, 0x02, 0x03, 0x04, 0x05, 0x06, 0x07, 0x08],
        0x0102030405060708,
        0x0807060504030201,
    );
    roundtrip::<i64, 8>(
        &[0x01, 0x02, 0x03, 0x04, 0x05, 0x06, 0x07, 0x08],
        0x0102030405060708,
        0x0807060504030201,
    );

    roundtrip::<u128, 16>(
        &[
            0x00, 0x01, 0x02, 0x03, 0x04, 0x05, 0x06, 0x07, 0x08, 0x09, 0x0a, 0x0b, 0x0c, 0x0d,
            0x0e, 0x0f,
        ],
        0x000102030405060708090a0b0c0d0e0f,
        0x0f0e0d0c0b0a09080706050403020100,
    );
    roundtrip::<i128, 16>(
        &[
            0x00, 0x01, 0x02, 0x03, 0x04, 0x05, 0x06, 0x07, 0x08, 0x09, 0x0a, 0x0b, 0x0c, 0x0d,
            0x0e, 0x0f,
        ],
        0x000102030405060708090a0b0c0d0e0f,
        0x0f0e0d0c0b0a09080706050403020100,
    );
}

#[test]
fn floats() {
    let f: f32 = 123.45678;
    let mut wtr: Vec<u8> = Vec::new();
    wtr.write_be(f.to_bits()).unwrap();
    wtr.write_le(f.to_bits()).unwrap();
    let mut rdr = Cursor::new(wtr);
    let be_bits: u32 = rdr.read_be().unwrap();
    let le_bits: u32 = rdr.read_le().unwrap();
    assert!((f32::from_bits(be_bits) - f).abs() < f32::EPSILON);
    assert!((f32::from_bits(le_bits) - f).abs() < f32::EPSILON);

    let f: f64 = 123.45678;
    let mut wtr: Vec<u8> = Vec::new();
    wtr.write_be(f.to_bits()).unwrap();
    wtr.write_le(f.to_bits()).unwrap();
    let mut rdr = Cursor::new(wtr);
    let be_bits: u64 = rdr.read_be().unwrap();
    let le_bits: u64 = rdr.read_le().unwrap();
    assert!((f64::from_bits(be_bits) - f).abs() < f64::EPSILON);
    assert!((f64::from_bits(le_bits) - f).abs() < f64::EPSILON);
}

#[test]
fn big_endian_read_example() {
    let mut rdr = Cursor::new(vec![0x12, 0x34, 0x56, 0x78]);
    let x: u32 = rdr.read_be().unwrap();
    assert_eq!(x, 0x12345678);
}

#[test]
fn little_endian_read_example() {
    let mut rdr = Cursor::new(vec![0x12, 0x34, 0x56, 0x78]);
    let x: u32 = rdr.read_le().unwrap();
    assert_eq!(x, 0x78563412);
}

#[test]
fn write_examples() {
    let mut wtr: Vec<u8> = Vec::new();
    wtr.write_be(0x1337u16).unwrap();
    assert_eq!(wtr, vec![0x13, 0x37]);

    let mut wtr: Vec<u8> = Vec::new();
    wtr.write_le(0x1337u16).unwrap();
    assert_eq!(wtr, vec![0x37, 0x13]);
}

#[test]
fn float_bits_round_trip_is_exact() {
    let f: f64 = 123.45678;
    let mut wtr: Vec<u8> = Vec::new();
    wtr.write_be(f.to_bits()).unwrap();
    let mut rdr = Cursor::new(wtr);
    let bits: u64 = rdr.read_be().unwrap();
    assert_eq!(bits, f.to_bits());
    assert_eq!(f64::from_bits(bits), f);

    let mut wtr: Vec<u8> = Vec::new();
    wtr.write_le(f.to_bits()).unwrap();
    let mut rdr = Cursor::new(wtr);
    let bits: u64 = rdr.read_le().unwrap();
    assert_eq!(bits, f.to_bits());
    assert_eq!(f64::from_bits(bits), f);

    let nan_bits: u64 = 0x7ff8_0000_dead_beef;
    let mut wtr: Vec<u8> = Vec::new();
    wtr.write_be(nan_bits).unwrap();
    let mut rdr = Cursor::new(wtr);
    let bits: u64 = rdr.read_be().unwrap();
    assert_eq!(bits, nan_bits);
}

#[test]
fn truncated_input_fails() {
    let mut rdr = Cursor::new(vec![0x12, 0x34, 0x56]);
    let r: Result<u32, IoError> = rdr.read_be();
    assert_eq!(r, Err(IoError::Truncated));

    let mut rdr = Cursor::new(Vec::new());
    let r: Result<u8, IoError> = rdr.read_le();
    assert_eq!(r, Err(IoError::Truncated));

    let mut rdr = Cursor::new(vec![0x00; 15]);
    let r: Result<u128, IoError> = rdr.read_le();
    assert_eq!(r, Err(IoError::Truncated));
}

#[test]
fn width_exactness() {
    assert_eq!(<u8 as ToBytes<1>>::to_be_bytes(0x01).len(), 1);
    assert_eq!(<u16 as ToBytes<2>>::to_be_bytes(0x0102).len(), 2);
    assert_eq!(<u32 as ToBytes<4>>::to_le_bytes(0x01020304).len(), 4);
    assert_eq!(<u64 as ToBytes<8>>::to_be_bytes(1).len(), 8);
    assert_eq!(<u128 as ToBytes<16>>::to_le_bytes(1).len(), 16);
    assert_eq!(<i32 as ToBytes<4>>::to_be_bytes(-1).len(), 4);
    assert_eq!(<i128 as ToBytes<16>>::to_le_bytes(-1).len(), 16);

    // Reading consumes exactly the width: the next byte is still there.
    let mut rdr = Cursor::new(vec![0xAA, 0xBB, 0xCC]);
    let first: u16 = rdr.read_be().unwrap();
    assert_eq!(first, 0xAABB);
    let rest: u8 = rdr.read_be().unwrap();
    assert_eq!(rest, 0xCC);
}

#[test]
fn byte_order_reversal() {
    let v: u64 = 0x0102030405060708;
    let be = <u64 as ToBytes<8>>::to_be_bytes(v);
    let mut le = <u64 as ToBytes<8>>::to_le_bytes(v);
    le.reverse();
    assert_eq!(be, le);

    let v: i16 = -2;
    let be = <i16 as ToBytes<2>>::to_be_bytes(v);
    let mut le = <i16 as ToBytes<2>>::to_le_bytes(v);
    le.reverse();
    assert_eq!(be, le);
}

#[test]
fn signed_extremes_round_trip() {
    roundtrip::<i8, 1>(&[0x80], i8::MIN, i8::MIN);
    roundtrip::<i8, 1>(&[0x7f], i8::MAX, i8::MAX);
    roundtrip::<i16, 2>(&[0x80, 0x00], i16::MIN, 0x0080);
    roundtrip::<i32, 4>(&[0xff, 0xff, 0xff, 0xff], -1, -1);
    roundtrip::<i64, 8>(
        &[0x80, 0x00, 0x00, 0x00, 0x00, 0x00, 0x00, 0x00],
        i64::MIN,
        0x0000000000000080,
    );
    roundtrip::<i128, 16>(
        &[
            0xff, 0xff, 0xff, 0xff, 0xff, 0xff, 0xff, 0xff, 0xff, 0xff, 0xff, 0xff, 0xff, 0xff,
            0xff, 0xff,
        ],
        -1,
        -1,
    );
}

#[test]
fn unsigned_extremes_round_trip() {
    roundtrip::<u8, 1>(&[0xff], u8::MAX, u8::MAX);
    roundtrip::<u16, 2>(&[0x00, 0x00], 0, 0);
    roundtrip::<u32, 4>(&[0xff, 0xff, 0xff, 0xff], u32::MAX, u32::MAX);
    roundtrip::<u128, 16>(
        &[
            0xff, 0xff, 0xff, 0xff, 0xff, 0xff, 0xff, 0xff, 0xff, 0xff, 0xff, 0xff, 0xff, 0xff,
            0xff, 0xff,
        ],
        u128::MAX,
        u128::MAX,
    );
}

#[test]
fn signed_byte_values() {
    // -2 as a 16-bit value: 0xfffe big-endian.
    let mut wtr: Vec<u8> = Vec::new();
    wtr.write_be(-2i16).unwrap();
    assert_eq!(wtr, vec![0xff, 0xfe]);

    let mut wtr: Vec<u8> = Vec::new();
    wtr.write_le(-2i16).unwrap();
    assert_eq!(wtr, vec![0xfe, 0xff]);
}

#[test]
fn sequential_reads() {
    let mut rdr = Cursor::new(vec![0x37, 0x13, 0x12, 0x34, 0x56, 0x78, 0x00, 0x09, 0x10]);
    let a: u16 = rdr.read_le().unwrap();
    assert_eq!(a, 0x1337);
    let b: i32 = rdr.read_be().unwrap();
    assert_eq!(b, 0x12345678);
    let c: u8 = rdr.read_be().unwrap();
    assert_eq!(c, 0x00);
    let d: u16 = rdr.read_be().unwrap();
    assert_eq!(d, 0x0910);
    let e: Result<u8, IoError> = rdr.read_be();
    assert_eq!(e, Err(IoError::Truncated));
}
