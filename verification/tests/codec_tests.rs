//! The byte codec: PTP strings, scalars, counted arrays, and the typed
//! value system's lossless round trip.
use ptp::codec::{Reader, write_ptp_str, write_u16, write_u32, write_u16_vec};
use ptp::datatype::PtpDataType;
use ptp::error::{Error, MalformedKind};

#[test]
fn empty_ptp_string_decodes_to_empty() {
    let buf = [0x00u8];
    let mut cur = Reader::new(&buf);
    let s = cur.read_ptp_str().unwrap();
    assert_eq!(s, "");
    assert!(cur.expect_end().is_ok());
}

#[test]
fn empty_ptp_string_encodes_to_one_zero_byte() {
    let mut out: Vec<u8> = Vec::new();
    write_ptp_str(&mut out, "").unwrap();
    assert_eq!(out, vec![0x00]);
}

#[test]
fn ptp_string_ok_encodes_with_terminator() {
    let mut out: Vec<u8> = Vec::new();
    write_ptp_str(&mut out, "OK").unwrap();
    assert_eq!(out, vec![0x03, 0x4F, 0x00, 0x4B, 0x00, 0x00, 0x00]);
}

#[test]
fn ptp_string_ok_round_trips() {
    let mut out: Vec<u8> = Vec::new();
    write_ptp_str(&mut out, "OK").unwrap();
    let mut cur = Reader::new(out.as_slice());
    assert_eq!(cur.read_ptp_str().unwrap(), "OK");
    assert!(cur.expect_end().is_ok());
}

#[test]
fn ptp_string_non_ascii_round_trips() {
    let mut out: Vec<u8> = Vec::new();
    write_ptp_str(&mut out, "caméra 📷").unwrap();
    let mut cur = Reader::new(out.as_slice());
    assert_eq!(cur.read_ptp_str().unwrap(), "caméra 📷");
}

#[test]
fn ptp_string_too_long_is_rejected() {
    let long = "x".repeat(300);
    let mut out: Vec<u8> = Vec::new();
    let r = write_ptp_str(&mut out, long.as_str());
    assert_eq!(r, Err(Error::Malformed(MalformedKind::StringTooLong)));
    assert!(out.is_empty());
}

#[test]
fn ptp_string_invalid_utf16_is_rejected() {
    // length byte 2: one code unit (an unpaired high surrogate) and the terminator
    let buf = [0x02u8, 0x00, 0xD8, 0x00, 0x00];
    let mut cur = Reader::new(&buf);
    assert_eq!(cur.read_ptp_str(), Err(Error::Malformed(MalformedKind::InvalidUtf16)));
}

#[test]
fn ptp_string_truncated_is_unexpected_end() {
    let buf = [0x03u8, 0x4F, 0x00];
    let mut cur = Reader::new(&buf);
    assert_eq!(cur.read_ptp_str(), Err(Error::Malformed(MalformedKind::UnexpectedEnd)));
}

#[test]
fn scalars_read_little_endian() {
    let buf = [0x34u8, 0x12, 0x78, 0x56, 0x34, 0x12];
    let mut cur = Reader::new(&buf);
    assert_eq!(cur.read_ptp_u16().unwrap(), 0x1234);
    assert_eq!(cur.read_ptp_u32().unwrap(), 0x12345678);
    assert!(cur.expect_end().is_ok());
}

#[test]
fn u16_vec_round_trips() {
    let v: Vec<u16> = vec![0x1001, 0x1002, 0x1003];
    let mut out: Vec<u8> = Vec::new();
    write_u16_vec(&mut out, &v).unwrap();
    assert_eq!(out[..4], [3, 0, 0, 0]);
    let mut cur = Reader::new(out.as_slice());
    assert_eq!(cur.read_ptp_u16_vec().unwrap(), v);
    assert!(cur.expect_end().is_ok());
}

#[test]
fn expect_end_rejects_trailing_bytes() {
    let buf = [0x01u8, 0x00, 0xFF];
    let mut cur = Reader::new(&buf);
    cur.read_ptp_u16().unwrap();
    assert_eq!(cur.expect_end(), Err(Error::Malformed(MalformedKind::TrailingBytes)));
}

fn round_trip(v: PtpDataType, kind: u16) {
    let bytes = v.encode().unwrap();
    let mut cur = Reader::new(bytes.as_slice());
    let back = PtpDataType::read_type(kind, &mut cur).unwrap();
    assert_eq!(back, v);
    assert!(cur.expect_end().is_ok());
}

#[test]
fn datatype_scalars_round_trip() {
    round_trip(PtpDataType::INT8(-5), 0x0001);
    round_trip(PtpDataType::UINT8(200), 0x0002);
    round_trip(PtpDataType::INT16(-12345), 0x0003);
    round_trip(PtpDataType::UINT16(0xBEEF), 0x0004);
    round_trip(PtpDataType::INT32(-123456789), 0x0005);
    round_trip(PtpDataType::UINT32(0xDEADBEEF), 0x0006);
    round_trip(PtpDataType::INT64(-1234567890123), 0x0007);
    round_trip(PtpDataType::UINT64(0xFEDCBA9876543210), 0x0008);
    round_trip(PtpDataType::INT128((0x1122334455667788, 0x99AABBCCDDEEFF00)), 0x0009);
    round_trip(PtpDataType::UINT128((1, 2)), 0x000A);
}

#[test]
fn datatype_arrays_round_trip() {
    round_trip(PtpDataType::AINT8(vec![-1, 0, 1]), 0x4001);
    round_trip(PtpDataType::AUINT8(vec![1, 2, 3, 255]), 0x4002);
    round_trip(PtpDataType::AINT16(vec![-300, 300]), 0x4003);
    round_trip(PtpDataType::AUINT16(vec![0x1001, 0xFFFF]), 0x4004);
    round_trip(PtpDataType::AINT32(vec![-70000]), 0x4005);
    round_trip(PtpDataType::AUINT32(vec![0x00010001, 7]), 0x4006);
    round_trip(PtpDataType::AINT64(vec![-1]), 0x4007);
    round_trip(PtpDataType::AUINT64(vec![u64::MAX]), 0x4008);
    round_trip(PtpDataType::AINT128(vec![(1, 2), (3, 4)]), 0x4009);
    round_trip(PtpDataType::AUINT128(vec![]), 0x400A);
}

#[test]
fn datatype_string_round_trips() {
    round_trip(PtpDataType::STR(String::from("hello")), 0xFFFF);
    round_trip(PtpDataType::STR(String::new()), 0xFFFF);
}

#[test]
fn datatype_unknown_kind_yields_undef_and_consumes_nothing() {
    let buf = [0xAAu8, 0xBB];
    let mut cur = Reader::new(&buf);
    let v = PtpDataType::read_type(0x0042, &mut cur).unwrap();
    assert_eq!(v, PtpDataType::UNDEF);
    assert_eq!(cur.read_ptp_u16().unwrap(), 0xBBAA);
}

#[test]
fn datatype_uint128_wire_order_is_low_half_first() {
    let bytes = PtpDataType::UINT128((1, 2)).encode().unwrap();
    let mut expected = vec![1u8, 0, 0, 0, 0, 0, 0, 0];
    expected.extend_from_slice(&[2, 0, 0, 0, 0, 0, 0, 0]);
    assert_eq!(bytes, expected);
}

#[test]
fn datatype_encode_exact_bytes_for_uint16() {
    assert_eq!(PtpDataType::UINT16(0x1234).encode().unwrap(), vec![0x34, 0x12]);
}
