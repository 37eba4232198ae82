//! Container framing: the 12-byte header, whole-message parsing, and
//! the framed writers.
use ptp::container::{
    ptp_gen_cmd_message, ptp_gen_message, PtpContainerInfo, PtpContainerType, PtpTransaction,
};
use ptp::error::{Error, MalformedKind};
use ptp::StandardCommandCode;
use ptp::StandardResponseCode;

#[test]
fn container_header_decode() {
    let buf = [
        0x10u8, 0x00, 0x00, 0x00, 0x01, 0x00, 0x01, 0x10, 0x2A, 0x00, 0x00, 0x00, 0xAA, 0xBB,
        0xCC, 0xDD,
    ];
    let (kind, t) = PtpTransaction::parse(&buf).unwrap();
    assert_eq!(kind, PtpContainerType::Command);
    assert_eq!(t.code, 0x1001);
    assert_eq!(t.tid, 42);
    assert_eq!(t.data, vec![0xAA, 0xBB, 0xCC, 0xDD]);

    let info = PtpContainerInfo::parse(&buf).unwrap();
    assert_eq!(info.kind, PtpContainerType::Command);
    assert_eq!(info.code, 0x1001);
    assert_eq!(info.tid, 42);
    assert_eq!(info.payload_len, 4);
}

#[test]
fn container_write_then_parse_round_trips() {
    let payload = [0xDEu8, 0xAD, 0xBE, 0xEF, 0x99];
    let mut msg: Vec<u8> = Vec::new();
    ptp_gen_message(&mut msg, PtpContainerType::Data, 0x1009, 7, &payload);
    assert_eq!(msg.len(), 12 + payload.len());
    let info = PtpContainerInfo::parse(msg.as_slice()).unwrap();
    assert_eq!(info.kind, PtpContainerType::Data);
    assert_eq!(info.code, 0x1009);
    assert_eq!(info.tid, 7);
    assert_eq!(info.payload_len, payload.len());
    assert_eq!(&msg[12..], &payload);
}

#[test]
fn command_message_concatenates_parameters() {
    let mut msg: Vec<u8> = Vec::new();
    ptp_gen_cmd_message(&mut msg, 0x1007, 3, &[0x00010001, 0, 0xFFFFFFFF]);
    assert_eq!(msg.len(), 24);
    assert_eq!(&msg[..4], &[24, 0, 0, 0]);
    assert_eq!(&msg[4..6], &[1, 0]);
    assert_eq!(&msg[6..8], &[0x07, 0x10]);
    assert_eq!(&msg[8..12], &[3, 0, 0, 0]);
    assert_eq!(&msg[12..16], &[0x01, 0x00, 0x01, 0x00]);
    assert_eq!(&msg[16..20], &[0, 0, 0, 0]);
    assert_eq!(&msg[20..24], &[0xFF, 0xFF, 0xFF, 0xFF]);
}

#[test]
fn short_header_is_unexpected_end() {
    let buf = [0x0Cu8, 0x00, 0x00];
    assert_eq!(
        PtpContainerInfo::parse(&buf),
        Err(Error::Malformed(MalformedKind::UnexpectedEnd))
    );
}

#[test]
fn unknown_container_kind_is_rejected() {
    let buf = [0x0Cu8, 0x00, 0x00, 0x00, 0x09, 0x00, 0x01, 0x10, 0x00, 0x00, 0x00, 0x00];
    assert_eq!(
        PtpContainerInfo::parse(&buf),
        Err(Error::Malformed(MalformedKind::InvalidContainerKind))
    );
}

#[test]
fn length_below_header_size_is_rejected() {
    let buf = [0x0Bu8, 0x00, 0x00, 0x00, 0x01, 0x00, 0x01, 0x10, 0x00, 0x00, 0x00, 0x00];
    assert_eq!(
        PtpContainerInfo::parse(&buf),
        Err(Error::Malformed(MalformedKind::ContainerTooShort))
    );
}

#[test]
fn container_type_codes_round_trip() {
    for kind in [
        PtpContainerType::Command,
        PtpContainerType::Data,
        PtpContainerType::Response,
        PtpContainerType::Event,
    ] {
        assert_eq!(PtpContainerType::from_u16(kind.as_u16()), Some(kind));
    }
    assert_eq!(PtpContainerType::from_u16(0), None);
    assert_eq!(PtpContainerType::from_u16(5), None);
}

#[test]
fn belongs_to_and_is_response_compare_transaction_ids() {
    let info = PtpContainerInfo { payload_len: 0, kind: PtpContainerType::Response, code: 0x2001, tid: 9 };
    assert!(info.belongs_to(9));
    assert!(!info.belongs_to(8));
    let a = PtpTransaction { tid: 4, code: 0x1001, data: vec![] };
    let b = PtpTransaction { tid: 4, code: 0x2001, data: vec![1] };
    let c = PtpTransaction { tid: 5, code: 0x2001, data: vec![] };
    assert!(a.is_response(&b));
    assert!(!a.is_response(&c));
}

#[test]
fn standard_code_names() {
    assert_eq!(StandardResponseCode::name(StandardResponseCode::Okay), Some("Ok"));
    assert_eq!(
        StandardResponseCode::name(StandardResponseCode::InvalidObjectHandle),
        Some("InvalidObjectHandle")
    );
    assert_eq!(StandardResponseCode::name(0x9999), None);
    assert_eq!(StandardCommandCode::name(StandardCommandCode::GetStorageIDs), Some("GetStorageIDs"));
    assert_eq!(StandardCommandCode::name(0x9999), None);
}
