//! Descriptor datasets: decode, encode, the round trip, and the
//! end-of-buffer discipline; the device property descriptor; the object
//! tree walk.
use ptp::codec::Reader;
use ptp::datatype::PtpDataType;
use ptp::descriptors::{PtpDeviceInfo, PtpObjectInfo, PtpStorageInfo};
use ptp::error::{Error, MalformedKind};
use ptp::properties::{PtpFormData, PtpObjectPropDesc, PtpObjectProperty, PtpPropInfo};
use ptp::tree::PtpObjectTree;

fn sample_object_info(filename: &str) -> PtpObjectInfo {
    PtpObjectInfo {
        StorageID: 0x00010001,
        ObjectFormat: 0x3801,
        ProtectionStatus: 0,
        ObjectCompressedSize: 123456,
        ThumbFormat: 0x3808,
        ThumbCompressedSize: 2048,
        ThumbPixWidth: 160,
        ThumbPixHeight: 120,
        ImagePixWidth: 4000,
        ImagePixHeight: 3000,
        ImageBitDepth: 24,
        ParentObject: 0,
        AssociationType: 0,
        AssociationDesc: 0,
        SequenceNumber: 7,
        Filename: String::from(filename),
        CaptureDate: String::from("20240101T120000"),
        ModificationDate: String::from("20240102T080000"),
        Keywords: String::new(),
    }
}

#[test]
fn object_info_round_trips() {
    let info = sample_object_info("IMG_0001.JPG");
    let bytes = info.encode().unwrap();
    let back = PtpObjectInfo::decode(bytes.as_slice()).unwrap();
    assert_eq!(back, info);
}

#[test]
fn object_info_rejects_trailing_bytes() {
    let mut bytes = sample_object_info("IMG_0001.JPG").encode().unwrap();
    bytes.push(0);
    assert_eq!(
        PtpObjectInfo::decode(bytes.as_slice()),
        Err(Error::Malformed(MalformedKind::TrailingBytes))
    );
}

#[test]
fn object_info_rejects_truncation() {
    let bytes = sample_object_info("IMG_0001.JPG").encode().unwrap();
    assert_eq!(
        PtpObjectInfo::decode(&bytes[..bytes.len() - 1]),
        Err(Error::Malformed(MalformedKind::UnexpectedEnd))
    );
}

#[test]
fn device_info_round_trips() {
    let info = PtpDeviceInfo {
        Version: 100,
        VendorExID: 6,
        VendorExVersion: 110,
        VendorExtensionDesc: String::from("microsoft.com: 1.0"),
        FunctionalMode: 0,
        OperationsSupported: vec![0x1001, 0x1002, 0x1003, 0x1004],
        EventsSupported: vec![0x4002],
        DevicePropertiesSupported: vec![0x5001],
        CaptureFormats: vec![],
        ImageFormats: vec![0x3801],
        Manufacturer: String::from("Example Optics"),
        Model: String::from("EO-1"),
        DeviceVersion: String::from("1.2.3"),
        SerialNumber: String::from("SN0001"),
    };
    let bytes = info.encode().unwrap();
    let back = PtpDeviceInfo::decode(bytes.as_slice()).unwrap();
    assert_eq!(back, info);
}

#[test]
fn storage_info_round_trips_and_reader_stops_at_end() {
    let info = PtpStorageInfo {
        StorageType: 4,
        FilesystemType: 3,
        AccessCapability: 0,
        MaxCapacity: 32_000_000_000,
        FreeSpaceInBytes: 11_500_000_000,
        FreeSpaceInImages: 4000,
        StorageDescription: String::from("internal"),
        VolumeLabel: String::from("CARD1"),
    };
    let bytes = info.encode().unwrap();
    let mut cur = Reader::new(bytes.as_slice());
    let back = PtpStorageInfo::decode(&mut cur).unwrap();
    assert_eq!(back, info);
    assert!(cur.expect_end().is_ok());
}

#[test]
fn prop_info_decodes_range_form() {
    let mut bytes: Vec<u8> = Vec::new();
    bytes.extend_from_slice(&[0x01, 0x50]); // property code 0x5001
    bytes.extend_from_slice(&[0x04, 0x00]); // datatype u16
    bytes.push(1); // get/set
    bytes.push(1); // is-enabled
    bytes.extend_from_slice(&[0x64, 0x00]); // factory default 100
    bytes.extend_from_slice(&[0xC8, 0x00]); // current 200
    bytes.push(0x01); // range form
    bytes.extend_from_slice(&[0x00, 0x00]); // min 0
    bytes.extend_from_slice(&[0xE8, 0x03]); // max 1000
    bytes.extend_from_slice(&[0x01, 0x00]); // step 1
    let mut cur = Reader::new(bytes.as_slice());
    let p = PtpPropInfo::decode(&mut cur).unwrap();
    assert!(cur.expect_end().is_ok());
    assert_eq!(p.PropertyCode, 0x5001);
    assert_eq!(p.DataType, 0x0004);
    assert_eq!(p.GetSet, 1);
    assert_eq!(p.IsEnable, 1);
    assert_eq!(p.FactoryDefault, PtpDataType::UINT16(100));
    assert_eq!(p.Current, PtpDataType::UINT16(200));
    assert_eq!(
        p.Form,
        PtpFormData::Range {
            minValue: PtpDataType::UINT16(0),
            maxValue: PtpDataType::UINT16(1000),
            step: PtpDataType::UINT16(1),
        }
    );
}

#[test]
fn prop_info_decodes_enumeration_form() {
    let mut bytes: Vec<u8> = Vec::new();
    bytes.extend_from_slice(&[0x05, 0x50]);
    bytes.extend_from_slice(&[0x04, 0x00]);
    bytes.push(1);
    bytes.push(0);
    bytes.extend_from_slice(&[0x02, 0x00]);
    bytes.extend_from_slice(&[0x02, 0x00]);
    bytes.push(0x02); // enumeration form
    bytes.extend_from_slice(&[0x03, 0x00]); // three values
    bytes.extend_from_slice(&[0x01, 0x00, 0x02, 0x00, 0x04, 0x00]);
    let mut cur = Reader::new(bytes.as_slice());
    let p = PtpPropInfo::decode(&mut cur).unwrap();
    assert!(cur.expect_end().is_ok());
    assert_eq!(
        p.Form,
        PtpFormData::Enumeration {
            array: vec![
                PtpDataType::UINT16(1),
                PtpDataType::UINT16(2),
                PtpDataType::UINT16(4),
            ],
        }
    );
}

#[test]
fn prop_info_unknown_form_flag_yields_no_form() {
    let mut bytes: Vec<u8> = Vec::new();
    bytes.extend_from_slice(&[0x01, 0x50, 0x04, 0x00, 1, 1, 0x64, 0x00, 0xC8, 0x00]);
    bytes.push(0x07);
    let mut cur = Reader::new(bytes.as_slice());
    let p = PtpPropInfo::decode(&mut cur).unwrap();
    assert_eq!(p.Form, PtpFormData::NoForm);
}

#[test]
fn walk_yields_slash_joined_paths_breadth_first() {
    let leaf_a = PtpObjectTree {
        handle: 2,
        info: sample_object_info("a.jpg"),
        children: None,
    };
    let leaf_b = PtpObjectTree {
        handle: 3,
        info: sample_object_info("b.jpg"),
        children: None,
    };
    let root = PtpObjectTree {
        handle: 1,
        info: sample_object_info("DCIM"),
        children: Some(vec![leaf_a, leaf_b]),
    };
    let flat = root.walk();
    let paths: Vec<String> = flat.iter().map(|(p, _)| p.clone()).collect();
    assert_eq!(paths, vec!["DCIM", "DCIM/a.jpg", "DCIM/b.jpg"]);
    assert_eq!(flat[0].1.handle, 1);
    assert_eq!(flat[1].1.handle, 2);
    assert_eq!(flat[2].1.handle, 3);
}

#[test]
fn walk_is_breadth_first_across_levels() {
    let grandchild = PtpObjectTree {
        handle: 4,
        info: sample_object_info("deep.jpg"),
        children: None,
    };
    let dir = PtpObjectTree {
        handle: 2,
        info: sample_object_info("100CANON"),
        children: Some(vec![grandchild]),
    };
    let leaf = PtpObjectTree {
        handle: 3,
        info: sample_object_info("readme.txt"),
        children: None,
    };
    let root = PtpObjectTree {
        handle: 1,
        info: sample_object_info("DCIM"),
        children: Some(vec![dir, leaf]),
    };
    let paths: Vec<String> = root.walk().iter().map(|(p, _)| p.clone()).collect();
    assert_eq!(
        paths,
        vec!["DCIM", "DCIM/100CANON", "DCIM/readme.txt", "DCIM/100CANON/deep.jpg"]
    );
}

#[test]
fn object_property_decodes_value_of_declared_datatype() {
    let mut bytes: Vec<u8> = Vec::new();
    bytes.extend_from_slice(&[0x01, 0x00, 0x00, 0xA0]); // handle 0xA0000001
    bytes.extend_from_slice(&[0x07, 0xDC]); // property code 0xDC07
    bytes.extend_from_slice(&[0xFF, 0xFF]); // datatype: string
    bytes.extend_from_slice(&[0x03, 0x4F, 0x00, 0x4B, 0x00, 0x00, 0x00]); // "OK"
    let mut cur = Reader::new(bytes.as_slice());
    let p = PtpObjectProperty::decode(&mut cur).unwrap();
    assert!(cur.expect_end().is_ok());
    assert_eq!(p.ObjectHandle, 0xA0000001);
    assert_eq!(p.PropertyCode, 0xDC07);
    assert_eq!(p.DataType, 0xFFFF);
    assert_eq!(p.Value, PtpDataType::STR(String::from("OK")));
}

#[test]
fn object_prop_desc_decodes_group_code_and_range() {
    let mut bytes: Vec<u8> = Vec::new();
    bytes.extend_from_slice(&[0x02, 0xDC]); // property code
    bytes.extend_from_slice(&[0x06, 0x00]); // datatype u32
    bytes.push(0); // get only
    bytes.extend_from_slice(&[0x00, 0x00, 0x00, 0x00]); // factory default 0
    bytes.extend_from_slice(&[0x02, 0x00, 0x00, 0x00]); // group code 2
    bytes.push(0x01); // range form
    bytes.extend_from_slice(&[0x00, 0x00, 0x00, 0x00]);
    bytes.extend_from_slice(&[0x10, 0x00, 0x00, 0x00]);
    bytes.extend_from_slice(&[0x01, 0x00, 0x00, 0x00]);
    let mut cur = Reader::new(bytes.as_slice());
    let d = PtpObjectPropDesc::decode(&mut cur).unwrap();
    assert!(cur.expect_end().is_ok());
    assert_eq!(d.PropertyCode, 0xDC02);
    assert_eq!(d.GroupCode, 2);
    assert_eq!(
        d.Form,
        PtpFormData::Range {
            minValue: PtpDataType::UINT32(0),
            maxValue: PtpDataType::UINT32(16),
            step: PtpDataType::UINT32(1),
        }
    );
}

#[test]
fn prop_info_truncated_is_rejected() {
    // a range-form descriptor cut one byte short
    let bytes = [
        0x01u8, 0x50, 0x04, 0x00, 1, 1, 0x64, 0x00, 0xC8, 0x00, 0x01, 0x00, 0x00, 0xE8, 0x03,
        0x01,
    ];
    let mut cur = Reader::new(&bytes);
    assert_eq!(
        PtpPropInfo::decode(&mut cur),
        Err(Error::Malformed(MalformedKind::UnexpectedEnd))
    );
}

#[test]
fn device_info_truncated_vector_is_rejected() {
    let mut bytes: Vec<u8> = Vec::new();
    bytes.extend_from_slice(&[100, 0]); // version
    bytes.extend_from_slice(&[0, 0, 0, 0]); // vendor extension id
    bytes.extend_from_slice(&[0, 0]); // vendor extension version
    bytes.push(0); // empty vendor extension description
    bytes.extend_from_slice(&[0, 0]); // functional mode
    bytes.extend_from_slice(&[9, 0, 0, 0, 0x01, 0x10]); // claims nine operations, holds one
    assert_eq!(
        PtpDeviceInfo::decode(bytes.as_slice()),
        Err(Error::Malformed(MalformedKind::UnexpectedEnd))
    );
}
