//! The transaction engine over a scripted transport: the happy path,
//! transaction-id bookkeeping, stale containers, responder errors,
//! split payloads, zero-length packets, and data-out chunking.
use ptp::container::{ptp_gen_cmd_message, ptp_gen_message, PtpContainerType};
use ptp::engine::{PtpCamera, CHUNK_SIZE, SCRATCH_SIZE};
use ptp::error::Error;
use ptp::scripted::ScriptedTransport;

fn container(kind: PtpContainerType, code: u16, tid: u32, payload: &[u8]) -> Vec<u8> {
    let mut msg: Vec<u8> = Vec::new();
    ptp_gen_message(&mut msg, kind, code, tid, payload);
    msg
}

fn ok_response(tid: u32) -> Vec<u8> {
    container(PtpContainerType::Response, 0x2001, tid, &[])
}

fn cmd(code: u16, tid: u32, params: &[u32]) -> Vec<u8> {
    let mut msg: Vec<u8> = Vec::new();
    ptp_gen_cmd_message(&mut msg, code, tid, params);
    msg
}

#[test]
fn get_storageids_happy_path() {
    let expected_cmd = vec![
        0x0Cu8, 0x00, 0x00, 0x00, 0x01, 0x00, 0x04, 0x10, 0x00, 0x00, 0x00, 0x00,
    ];
    let data_in = container(
        PtpContainerType::Data,
        0x1004,
        0,
        &[0x01, 0x00, 0x00, 0x00, 0x01, 0x00, 0x01, 0x00],
    );
    let script = ScriptedTransport::new(vec![data_in, ok_response(0)], vec![expected_cmd]);
    let mut camera = PtpCamera::new(script, 512);
    assert_eq!(camera.current_tid, 0);
    let ids = camera.get_storageids(None).unwrap();
    assert_eq!(ids, vec![0x00010001]);
    assert_eq!(camera.current_tid, 1);
    assert!(camera.transport.finished());
}

#[test]
fn transaction_ids_increase_by_one_per_call() {
    let reads = vec![ok_response(0), ok_response(1), ok_response(2)];
    let script = ScriptedTransport::new(reads, vec![]);
    let mut camera = PtpCamera::new(script, 512);
    camera.power_down(None).unwrap();
    assert_eq!(camera.current_tid, 1);
    camera.power_down(None).unwrap();
    assert_eq!(camera.current_tid, 2);
    camera.power_down(None).unwrap();
    assert_eq!(camera.current_tid, 3);
}

#[test]
fn stale_tid_container_is_discarded() {
    let stale = container(PtpContainerType::Data, 0x1004, 99, &[0xAB, 0xCD]);
    let data_in = container(
        PtpContainerType::Data,
        0x1004,
        0,
        &[0x01, 0x00, 0x00, 0x00, 0x44, 0x33, 0x22, 0x11],
    );
    let script = ScriptedTransport::new(
        vec![stale, data_in, ok_response(0)],
        vec![cmd(0x1004, 0, &[])],
    );
    let mut camera = PtpCamera::new(script, 512);
    let ids = camera.get_storageids(None).unwrap();
    assert_eq!(ids, vec![0x11223344]);
    assert!(camera.transport.finished());
}

#[test]
fn responder_error_propagates() {
    // 0x2009: InvalidObjectHandle
    let resp = container(PtpContainerType::Response, 0x2009, 0, &[]);
    let script = ScriptedTransport::new(vec![resp], vec![]);
    let mut camera = PtpCamera::new(script, 512);
    let r = camera.get_object(5, None);
    assert_eq!(r, Err(Error::Response(0x2009)));
    assert_eq!(camera.current_tid, 1);
}

#[test]
fn responder_error_discards_data_phase() {
    let data_in = container(PtpContainerType::Data, 0x1009, 0, &[1, 2, 3]);
    let resp = container(PtpContainerType::Response, 0x2002, 0, &[]);
    let script = ScriptedTransport::new(vec![data_in, resp], vec![]);
    let mut camera = PtpCamera::new(script, 512);
    assert_eq!(camera.get_object(5, None), Err(Error::Response(0x2002)));
}

#[test]
fn split_payload_reassembles_regardless_of_cut() {
    let payload: Vec<u8> = (0u8..=99).collect();
    let whole = container(PtpContainerType::Data, 0x1009, 0, &payload);
    for cut in [13usize, 50, 99] {
        let first = whole[..12].to_vec();
        let part_a = whole[12..12 + cut].to_vec();
        let part_b = whole[12 + cut..].to_vec();
        let script = ScriptedTransport::new(
            vec![first, part_a, part_b, ok_response(0)],
            vec![cmd(0x1009, 0, &[1])],
        );
        let mut camera = PtpCamera::new(script, 512);
        let got = camera.get_object(1, None).unwrap();
        assert_eq!(got, payload);
        assert!(camera.transport.finished());
    }
}

#[test]
fn exact_scratch_fill_consumes_zero_length_packet() {
    // payload of 8192 bytes: the first read fills the scratch buffer
    // exactly and 8192 is a multiple of the max packet size of 512.
    let payload: Vec<u8> = (0..8192u32).map(|i| i as u8).collect();
    let whole = container(PtpContainerType::Data, 0x1009, 0, &payload);
    assert_eq!(whole.len(), 12 + 8192);
    let first = whole[..SCRATCH_SIZE].to_vec();
    let rest = whole[SCRATCH_SIZE..].to_vec();
    let zlp: Vec<u8> = Vec::new();
    let script = ScriptedTransport::new(
        vec![first, rest, zlp, ok_response(0)],
        vec![cmd(0x1009, 0, &[1])],
    );
    let mut camera = PtpCamera::new(script, 512);
    let got = camera.get_object(1, None).unwrap();
    assert_eq!(got, payload);
    // the empty read and all four scripted reads were consumed
    assert!(camera.transport.finished());
}

#[test]
fn oversized_data_out_is_written_in_four_chunks() {
    let payload: Vec<u8> = vec![0x5A; 3 * 1024 * 1024];
    let mut framed: Vec<u8> = Vec::new();
    ptp_gen_message(&mut framed, PtpContainerType::Data, 0x100D, 0, &payload);
    let mut expected: Vec<Vec<u8>> = Vec::new();
    let mut cmd: Vec<u8> = Vec::new();
    ptp_gen_message(&mut cmd, PtpContainerType::Command, 0x100D, 0, &[]);
    expected.push(cmd);
    let mut off = 0usize;
    while off < framed.len() {
        let end = (off + CHUNK_SIZE).min(framed.len());
        expected.push(framed[off..end].to_vec());
        off = end;
    }
    assert_eq!(expected.len(), 5); // the command, then four data chunks
    let script = ScriptedTransport::new(vec![ok_response(0)], expected);
    let mut camera = PtpCamera::new(script, 512);
    let r = camera.command(0x100D, &[], Some(&payload), None).unwrap();
    assert!(r.is_empty());
    assert!(camera.transport.finished());
}

#[test]
fn open_and_close_session() {
    let reads = vec![ok_response(0), ok_response(1)];
    let mut expected: Vec<Vec<u8>> = Vec::new();
    let mut open_cmd: Vec<u8> = Vec::new();
    ptp_gen_message(&mut open_cmd, PtpContainerType::Command, 0x1002, 0, &[3, 0, 0, 0]);
    expected.push(open_cmd);
    let mut close_cmd: Vec<u8> = Vec::new();
    ptp_gen_message(&mut close_cmd, PtpContainerType::Command, 0x1003, 1, &[]);
    expected.push(close_cmd);
    let script = ScriptedTransport::new(reads, expected);
    let mut camera = PtpCamera::new(script, 512);
    camera.open_session(None).unwrap();
    camera.close_session(None).unwrap();
    assert!(camera.transport.finished());
}

#[test]
fn get_numobjects_decodes_single_count() {
    let data_in = container(PtpContainerType::Data, 0x1006, 0, &[0x2A, 0, 0, 0]);
    let script = ScriptedTransport::new(vec![data_in, ok_response(0)], vec![]);
    let mut camera = PtpCamera::new(script, 512);
    let n = camera.get_numobjects(1, 0xFFFFFFFF, None, None).unwrap();
    assert_eq!(n, 42);
}

#[test]
fn transport_exhaustion_is_a_transport_error() {
    let script = ScriptedTransport::new(vec![], vec![]);
    let mut camera = PtpCamera::new(script, 512);
    match camera.get_storageids(None) {
        Err(Error::Transport(_)) => {},
        other => panic!("unexpected outcome: {:?}", other),
    }
}

#[test]
fn get_storage_info_decodes_scripted_dataset() {
    let info = ptp::descriptors::PtpStorageInfo {
        StorageType: 4,
        FilesystemType: 3,
        AccessCapability: 0,
        MaxCapacity: 1_000_000,
        FreeSpaceInBytes: 500_000,
        FreeSpaceInImages: 100,
        StorageDescription: String::from("internal"),
        VolumeLabel: String::from("CARD1"),
    };
    let payload = info.encode().unwrap();
    let data_in = container(PtpContainerType::Data, 0x1005, 0, &payload);
    let script = ScriptedTransport::new(
        vec![data_in, ok_response(0)],
        vec![cmd(0x1005, 0, &[0x00010001])],
    );
    let mut camera = PtpCamera::new(script, 512);
    let got = camera.get_storage_info(0x00010001, None).unwrap();
    assert_eq!(got, info);
    assert!(camera.transport.finished());
}

#[test]
fn get_device_info_decodes_scripted_dataset() {
    let info = ptp::descriptors::PtpDeviceInfo {
        Version: 100,
        VendorExID: 0,
        VendorExVersion: 0,
        VendorExtensionDesc: String::new(),
        FunctionalMode: 0,
        OperationsSupported: vec![0x1001, 0x1004],
        EventsSupported: vec![],
        DevicePropertiesSupported: vec![],
        CaptureFormats: vec![],
        ImageFormats: vec![],
        Manufacturer: String::from("Example Optics"),
        Model: String::from("EO-1"),
        DeviceVersion: String::from("1.0"),
        SerialNumber: String::from("42"),
    };
    let payload = info.encode().unwrap();
    let data_in = container(PtpContainerType::Data, 0x1001, 0, &payload);
    let script = ScriptedTransport::new(
        vec![data_in, ok_response(0)],
        vec![cmd(0x1001, 0, &[])],
    );
    let mut camera = PtpCamera::new(script, 512);
    let got = camera.get_device_info(None).unwrap();
    assert_eq!(got, info);
    assert!(camera.transport.finished());
}

#[test]
fn get_objecthandles_root_sends_root_parent() {
    let data_in = container(
        PtpContainerType::Data,
        0x1007,
        0,
        &[0x02, 0, 0, 0, 5, 0, 0, 0, 6, 0, 0, 0],
    );
    let script = ScriptedTransport::new(
        vec![data_in, ok_response(0)],
        vec![cmd(0x1007, 0, &[1, 0, 0xFFFFFFFF])],
    );
    let mut camera = PtpCamera::new(script, 512);
    let handles = camera.get_objecthandles_root(1, None, None).unwrap();
    assert_eq!(handles, vec![5, 6]);
    assert!(camera.transport.finished());
}

#[test]
fn disconnect_closes_the_session() {
    let script = ScriptedTransport::new(vec![ok_response(0)], vec![cmd(0x1003, 0, &[])]);
    let mut camera = PtpCamera::new(script, 512);
    camera.disconnect(None).unwrap();
    assert!(camera.transport.finished());
}

#[test]
fn trailing_garbage_after_storage_ids_is_malformed() {
    let data_in = container(
        PtpContainerType::Data,
        0x1004,
        0,
        &[0x01, 0, 0, 0, 1, 0, 1, 0, 0xEE],
    );
    let script = ScriptedTransport::new(vec![data_in, ok_response(0)], vec![]);
    let mut camera = PtpCamera::new(script, 512);
    assert_eq!(
        camera.get_storageids(None),
        Err(ptp::error::Error::Malformed(ptp::error::MalformedKind::TrailingBytes))
    );
}

#[test]
fn event_containers_are_ignored() {
    let event = container(PtpContainerType::Event, 0x4002, 0, &[1, 2, 3, 4]);
    let data_in = container(PtpContainerType::Data, 0x1009, 0, &[9, 9]);
    let script = ScriptedTransport::new(
        vec![event, data_in, ok_response(0)],
        vec![cmd(0x1009, 0, &[1])],
    );
    let mut camera = PtpCamera::new(script, 512);
    assert_eq!(camera.get_object(1, None).unwrap(), vec![9, 9]);
    assert!(camera.transport.finished());
}

#[test]
fn latest_data_container_wins() {
    let first = container(PtpContainerType::Data, 0x1009, 0, &[1, 1]);
    let second = container(PtpContainerType::Data, 0x1009, 0, &[2, 2, 2]);
    let script = ScriptedTransport::new(vec![first, second, ok_response(0)], vec![]);
    let mut camera = PtpCamera::new(script, 512);
    assert_eq!(camera.get_object(1, None).unwrap(), vec![2, 2, 2]);
}

#[test]
fn malformed_container_kind_aborts_the_transaction() {
    let mut bad = container(PtpContainerType::Data, 0x1009, 0, &[1]);
    bad[4] = 9; // not a container kind
    let script = ScriptedTransport::new(vec![bad], vec![]);
    let mut camera = PtpCamera::new(script, 512);
    assert_eq!(
        camera.get_object(1, None),
        Err(ptp::error::Error::Malformed(ptp::error::MalformedKind::InvalidContainerKind))
    );
}
