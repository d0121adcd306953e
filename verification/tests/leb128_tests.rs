use nanokit::{LEB128DecodeError, LEB128EncodeError, SLEB128, ULEB128};

#[test]
fn sleb128_decode_buffer_overflow() {
    let buf = [0x80];

    assert_eq!(
        SLEB128::read_from(&buf).unwrap_err(),
        LEB128DecodeError::BufferOverflow
    );
}

#[test]
fn uleb128_decode_buffer_overflow() {
    let buf = [0x80];

    assert_eq!(
        ULEB128::read_from(&buf).unwrap_err(),
        LEB128DecodeError::BufferOverflow
    );
}

#[test]
fn sleb128_decode_integer_overflow() {
    let buf = [0x80, 0x80, 0x80, 0x80, 0x80, 0x80, 0x80, 0x80, 0x80, 0x01];

    assert_eq!(
        SLEB128::read_from(&buf).unwrap_err(),
        LEB128DecodeError::IntegerOverflow
    );
}

#[test]
fn uleb128_decode_integer_overflow() {
    let buf = [0x80, 0x80, 0x80, 0x80, 0x80, 0x80, 0x80, 0x80, 0x80, 0x02];

    assert_eq!(
        ULEB128::read_from(&buf).unwrap_err(),
        LEB128DecodeError::IntegerOverflow
    );
}

#[test]
fn sleb128_encode_buffer_overflow() {
    let val = i64::max_value();
    let mut buf = [0; 9];

    assert_eq!(
        SLEB128::from(val).write_into(&mut buf).unwrap_err(),
        LEB128EncodeError::BufferOverflow
    );
}

#[test]
fn uleb128_encode_buffer_overflow() {
    let val = u64::max_value();
    let mut buf = [0; 9];

    assert_eq!(
        ULEB128::from(val).write_into(&mut buf).unwrap_err(),
        LEB128EncodeError::BufferOverflow
    );
}

#[test]
fn uleb128_known_encoding() {
    let mut buf = [0; 3];

    assert_eq!(ULEB128::from(624485).write_into(&mut buf).unwrap(), 3);
    assert_eq!(buf, [0xE5, 0x8E, 0x26]);

    let (val, len) = ULEB128::read_from(&buf).unwrap();
    assert_eq!(val, ULEB128(624485));
    assert_eq!(len, 3);
}

#[test]
fn sleb128_known_encoding() {
    let mut buf = [0; 3];

    assert_eq!(SLEB128::from(-123456).write_into(&mut buf).unwrap(), 3);
    assert_eq!(buf, [0xC0, 0xBB, 0x78]);

    let (val, len) = SLEB128::read_from(&buf).unwrap();
    assert_eq!(val, SLEB128(-123456));
    assert_eq!(len, 3);
}

#[test]
fn uleb128_round_trip_edges() {
    for val in [0u64, 1, 127, 128, 0x8000000000000000, u64::MAX] {
        let mut buf = [0; 10];
        let n0 = ULEB128::from(val).write_into(&mut buf).expect("write");
        let (result, n1) = ULEB128::read_from(&buf[..n0]).expect("read");
        assert_eq!(result, ULEB128(val));
        assert_eq!(n0, n1);
    }
}

#[test]
fn sleb128_round_trip_edges() {
    for val in [0i64, 1, -1, 63, 64, -64, -65, 127, -128, i64::MAX, i64::MIN] {
        let mut buf = [0; 10];
        let n0 = SLEB128::from(val).write_into(&mut buf).expect("write");
        let (result, n1) = SLEB128::read_from(&buf[..n0]).expect("read");
        assert_eq!(result, SLEB128(val));
        assert_eq!(n0, n1);
    }
}

#[test]
fn uleb128_decode_ten_bytes() {
    let buf = [0x80, 0x80, 0x80, 0x80, 0x80, 0x80, 0x80, 0x80, 0x80, 0x01];

    let (val, len) = ULEB128::read_from(&buf).unwrap();
    assert_eq!(val, ULEB128(0x8000000000000000));
    assert_eq!(len, 10);
}

#[test]
fn sleb128_decode_ten_bytes() {
    let buf = [0xFF, 0xFF, 0xFF, 0xFF, 0xFF, 0xFF, 0xFF, 0xFF, 0xFF, 0x7F];

    let (val, len) = SLEB128::read_from(&buf).unwrap();
    assert_eq!(val, SLEB128(-1));
    assert_eq!(len, 10);
}

#[test]
fn uleb128_write_partial_on_overflow() {
    let mut buf = [0xAA; 2];

    assert_eq!(
        ULEB128::from(624485).write_into(&mut buf).unwrap_err(),
        LEB128EncodeError::BufferOverflow
    );
    assert_eq!(buf, [0xE5, 0x8E]);
}

#[test]
fn uleb128_std_io_round_trip() {
    let mut out: Vec<u8> = Vec::new();

    let n0 = ULEB128::from(624485).write_into_std_io(&mut out).expect("write");
    assert_eq!(n0, 3);
    assert_eq!(out, vec![0xE5, 0x8E, 0x26]);

    let (val, n1) = ULEB128::read_from_std_io(&out[..]).expect("read");
    assert_eq!(val, ULEB128(624485));
    assert_eq!(n1, 3);
}

#[test]
fn sleb128_std_io_round_trip() {
    let mut out: Vec<u8> = Vec::new();

    let n0 = SLEB128::from(-123456).write_into_std_io(&mut out).expect("write");
    assert_eq!(n0, 3);
    assert_eq!(out, vec![0xC0, 0xBB, 0x78]);

    let (val, n1) = SLEB128::read_from_std_io(&out[..]).expect("read");
    assert_eq!(val, SLEB128(-123456));
    assert_eq!(n1, 3);
}

#[test]
fn sleb128_std_io_eof() {
    let buf = [0x80u8];

    assert!(SLEB128::read_from_std_io(&buf[..]).is_err());
}
