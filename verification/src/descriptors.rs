//! Descriptor parsers: DeviceInfo, ObjectInfo and StorageInfo are each
//! a fixed schema of codec primitives, decoded from a buffer and encoded
//! back to the same canonical wire form.
use vstd::prelude::*;
use crate::codec::{
    counted_end, fixed_end, str_end, read_str_field, le16, le32, le64, u16_at, u32_at, u64_at, concat_bytes, spec_ptp_str, str_encodable,
    u16s_at, Reader, write_u16, write_u32, write_u64, write_u16_vec, write_ptp_str,
    lemma_le16, lemma_le32, lemma_le64, lemma_concat_bytes_len, lemma_concat_parts,
    lemma_ptp_str_len, lemma_u16s_at_concat,
};
use crate::datatype::lemma_counted_region;
use crate::error::{Error, MalformedKind};

verus! {

/// The mathematical value of a `PtpDeviceInfo`.
pub struct DeviceInfoV {
    pub Version: u16,
    pub VendorExID: u32,
    pub VendorExVersion: u16,
    pub VendorExtensionDesc: Seq<char>,
    pub FunctionalMode: u16,
    pub OperationsSupported: Seq<u16>,
    pub EventsSupported: Seq<u16>,
    pub DevicePropertiesSupported: Seq<u16>,
    pub CaptureFormats: Seq<u16>,
    pub ImageFormats: Seq<u16>,
    pub Manufacturer: Seq<char>,
    pub Model: Seq<char>,
    pub DeviceVersion: Seq<char>,
    pub SerialNumber: Seq<char>,
}

/// A DeviceInfo dataset: what the responder is and can do.
#[derive(Debug, PartialEq)]
pub struct PtpDeviceInfo {
    pub Version: u16,
    pub VendorExID: u32,
    pub VendorExVersion: u16,
    pub VendorExtensionDesc: String,
    pub FunctionalMode: u16,
    pub OperationsSupported: Vec<u16>,
    pub EventsSupported: Vec<u16>,
    pub DevicePropertiesSupported: Vec<u16>,
    pub CaptureFormats: Vec<u16>,
    pub ImageFormats: Vec<u16>,
    pub Manufacturer: String,
    pub Model: String,
    pub DeviceVersion: String,
    pub SerialNumber: String,
}

impl View for PtpDeviceInfo {
    type V = DeviceInfoV;

    open spec fn view(&self) -> DeviceInfoV {
        DeviceInfoV {
            Version: self.Version,
            VendorExID: self.VendorExID,
            VendorExVersion: self.VendorExVersion,
            VendorExtensionDesc: self.VendorExtensionDesc@,
            FunctionalMode: self.FunctionalMode,
            OperationsSupported: self.OperationsSupported@,
            EventsSupported: self.EventsSupported@,
            DevicePropertiesSupported: self.DevicePropertiesSupported@,
            CaptureFormats: self.CaptureFormats@,
            ImageFormats: self.ImageFormats@,
            Manufacturer: self.Manufacturer@,
            Model: self.Model@,
            DeviceVersion: self.DeviceVersion@,
            SerialNumber: self.SerialNumber@,
        }
    }
}

/// Every variable-length field fits its length prefix.
pub open spec fn device_info_encodable(dv: DeviceInfoV) -> bool {
    str_encodable(dv.VendorExtensionDesc) && dv.OperationsSupported.len() <= 0xFFFF_FFFF && dv.EventsSupported.len() <= 0xFFFF_FFFF && dv.DevicePropertiesSupported.len() <= 0xFFFF_FFFF && dv.CaptureFormats.len() <= 0xFFFF_FFFF && dv.ImageFormats.len() <= 0xFFFF_FFFF && str_encodable(dv.Manufacturer) && str_encodable(dv.Model) && str_encodable(dv.DeviceVersion) && str_encodable(dv.SerialNumber)
}

/// The canonical wire form: the fields in dataset order.
pub open spec fn device_info_bytes(dv: DeviceInfoV) -> Seq<u8> {
    le16(dv.Version) + (le32(dv.VendorExID) + (le16(dv.VendorExVersion) + (spec_ptp_str(dv.VendorExtensionDesc) + (le16(dv.FunctionalMode) + ((le32(dv.OperationsSupported.len() as u32) + concat_bytes(dv.OperationsSupported, |x: u16| le16(x))) + ((le32(dv.EventsSupported.len() as u32) + concat_bytes(dv.EventsSupported, |x: u16| le16(x))) + ((le32(dv.DevicePropertiesSupported.len() as u32) + concat_bytes(dv.DevicePropertiesSupported, |x: u16| le16(x))) + ((le32(dv.CaptureFormats.len() as u32) + concat_bytes(dv.CaptureFormats, |x: u16| le16(x))) + ((le32(dv.ImageFormats.len() as u32) + concat_bytes(dv.ImageFormats, |x: u16| le16(x))) + (spec_ptp_str(dv.Manufacturer) + (spec_ptp_str(dv.Model) + (spec_ptp_str(dv.DeviceVersion) + (spec_ptp_str(dv.SerialNumber))))))))))))))
}

/// Where a dataset's canonical encoding sits at `p` in `b`, every field
/// stands at its offset with its encoded value.
pub open spec fn device_info_laid_out(b: Seq<u8>, p: int, dv: DeviceInfoV) -> bool {
    &&& device_info_bytes(dv).len() == p + 2 + 4 + 2 + spec_ptp_str(dv.VendorExtensionDesc).len() + 2 + (4 + 2 * dv.OperationsSupported.len()) + (4 + 2 * dv.EventsSupported.len()) + (4 + 2 * dv.DevicePropertiesSupported.len()) + (4 + 2 * dv.CaptureFormats.len()) + (4 + 2 * dv.ImageFormats.len()) + spec_ptp_str(dv.Manufacturer).len() + spec_ptp_str(dv.Model).len() + spec_ptp_str(dv.DeviceVersion).len() + spec_ptp_str(dv.SerialNumber).len() - p
    &&& u16_at(b, p) == dv.Version
    &&& u32_at(b, p + 2) == dv.VendorExID
    &&& u16_at(b, p + 2 + 4) == dv.VendorExVersion
    &&& b.subrange(p + 2 + 4 + 2, p + 2 + 4 + 2 + spec_ptp_str(dv.VendorExtensionDesc).len()) == spec_ptp_str(dv.VendorExtensionDesc)
    &&& u16_at(b, p + 2 + 4 + 2 + spec_ptp_str(dv.VendorExtensionDesc).len()) == dv.FunctionalMode
    &&& u32_at(b, p + 2 + 4 + 2 + spec_ptp_str(dv.VendorExtensionDesc).len() + 2) as int == dv.OperationsSupported.len()
    &&& u16s_at(b, p + 2 + 4 + 2 + spec_ptp_str(dv.VendorExtensionDesc).len() + 2 + 4, dv.OperationsSupported.len()) == dv.OperationsSupported
    &&& u32_at(b, p + 2 + 4 + 2 + spec_ptp_str(dv.VendorExtensionDesc).len() + 2 + (4 + 2 * dv.OperationsSupported.len())) as int == dv.EventsSupported.len()
    &&& u16s_at(b, p + 2 + 4 + 2 + spec_ptp_str(dv.VendorExtensionDesc).len() + 2 + (4 + 2 * dv.OperationsSupported.len()) + 4, dv.EventsSupported.len()) == dv.EventsSupported
    &&& u32_at(b, p + 2 + 4 + 2 + spec_ptp_str(dv.VendorExtensionDesc).len() + 2 + (4 + 2 * dv.OperationsSupported.len()) + (4 + 2 * dv.EventsSupported.len())) as int == dv.DevicePropertiesSupported.len()
    &&& u16s_at(b, p + 2 + 4 + 2 + spec_ptp_str(dv.VendorExtensionDesc).len() + 2 + (4 + 2 * dv.OperationsSupported.len()) + (4 + 2 * dv.EventsSupported.len()) + 4, dv.DevicePropertiesSupported.len()) == dv.DevicePropertiesSupported
    &&& u32_at(b, p + 2 + 4 + 2 + spec_ptp_str(dv.VendorExtensionDesc).len() + 2 + (4 + 2 * dv.OperationsSupported.len()) + (4 + 2 * dv.EventsSupported.len()) + (4 + 2 * dv.DevicePropertiesSupported.len())) as int == dv.CaptureFormats.len()
    &&& u16s_at(b, p + 2 + 4 + 2 + spec_ptp_str(dv.VendorExtensionDesc).len() + 2 + (4 + 2 * dv.OperationsSupported.len()) + (4 + 2 * dv.EventsSupported.len()) + (4 + 2 * dv.DevicePropertiesSupported.len()) + 4, dv.CaptureFormats.len()) == dv.CaptureFormats
    &&& u32_at(b, p + 2 + 4 + 2 + spec_ptp_str(dv.VendorExtensionDesc).len() + 2 + (4 + 2 * dv.OperationsSupported.len()) + (4 + 2 * dv.EventsSupported.len()) + (4 + 2 * dv.DevicePropertiesSupported.len()) + (4 + 2 * dv.CaptureFormats.len())) as int == dv.ImageFormats.len()
    &&& u16s_at(b, p + 2 + 4 + 2 + spec_ptp_str(dv.VendorExtensionDesc).len() + 2 + (4 + 2 * dv.OperationsSupported.len()) + (4 + 2 * dv.EventsSupported.len()) + (4 + 2 * dv.DevicePropertiesSupported.len()) + (4 + 2 * dv.CaptureFormats.len()) + 4, dv.ImageFormats.len()) == dv.ImageFormats
    &&& b.subrange(p + 2 + 4 + 2 + spec_ptp_str(dv.VendorExtensionDesc).len() + 2 + (4 + 2 * dv.OperationsSupported.len()) + (4 + 2 * dv.EventsSupported.len()) + (4 + 2 * dv.DevicePropertiesSupported.len()) + (4 + 2 * dv.CaptureFormats.len()) + (4 + 2 * dv.ImageFormats.len()), p + 2 + 4 + 2 + spec_ptp_str(dv.VendorExtensionDesc).len() + 2 + (4 + 2 * dv.OperationsSupported.len()) + (4 + 2 * dv.EventsSupported.len()) + (4 + 2 * dv.DevicePropertiesSupported.len()) + (4 + 2 * dv.CaptureFormats.len()) + (4 + 2 * dv.ImageFormats.len()) + spec_ptp_str(dv.Manufacturer).len()) == spec_ptp_str(dv.Manufacturer)
    &&& b.subrange(p + 2 + 4 + 2 + spec_ptp_str(dv.VendorExtensionDesc).len() + 2 + (4 + 2 * dv.OperationsSupported.len()) + (4 + 2 * dv.EventsSupported.len()) + (4 + 2 * dv.DevicePropertiesSupported.len()) + (4 + 2 * dv.CaptureFormats.len()) + (4 + 2 * dv.ImageFormats.len()) + spec_ptp_str(dv.Manufacturer).len(), p + 2 + 4 + 2 + spec_ptp_str(dv.VendorExtensionDesc).len() + 2 + (4 + 2 * dv.OperationsSupported.len()) + (4 + 2 * dv.EventsSupported.len()) + (4 + 2 * dv.DevicePropertiesSupported.len()) + (4 + 2 * dv.CaptureFormats.len()) + (4 + 2 * dv.ImageFormats.len()) + spec_ptp_str(dv.Manufacturer).len() + spec_ptp_str(dv.Model).len()) == spec_ptp_str(dv.Model)
    &&& b.subrange(p + 2 + 4 + 2 + spec_ptp_str(dv.VendorExtensionDesc).len() + 2 + (4 + 2 * dv.OperationsSupported.len()) + (4 + 2 * dv.EventsSupported.len()) + (4 + 2 * dv.DevicePropertiesSupported.len()) + (4 + 2 * dv.CaptureFormats.len()) + (4 + 2 * dv.ImageFormats.len()) + spec_ptp_str(dv.Manufacturer).len() + spec_ptp_str(dv.Model).len(), p + 2 + 4 + 2 + spec_ptp_str(dv.VendorExtensionDesc).len() + 2 + (4 + 2 * dv.OperationsSupported.len()) + (4 + 2 * dv.EventsSupported.len()) + (4 + 2 * dv.DevicePropertiesSupported.len()) + (4 + 2 * dv.CaptureFormats.len()) + (4 + 2 * dv.ImageFormats.len()) + spec_ptp_str(dv.Manufacturer).len() + spec_ptp_str(dv.Model).len() + spec_ptp_str(dv.DeviceVersion).len()) == spec_ptp_str(dv.DeviceVersion)
    &&& b.subrange(p + 2 + 4 + 2 + spec_ptp_str(dv.VendorExtensionDesc).len() + 2 + (4 + 2 * dv.OperationsSupported.len()) + (4 + 2 * dv.EventsSupported.len()) + (4 + 2 * dv.DevicePropertiesSupported.len()) + (4 + 2 * dv.CaptureFormats.len()) + (4 + 2 * dv.ImageFormats.len()) + spec_ptp_str(dv.Manufacturer).len() + spec_ptp_str(dv.Model).len() + spec_ptp_str(dv.DeviceVersion).len(), p + 2 + 4 + 2 + spec_ptp_str(dv.VendorExtensionDesc).len() + 2 + (4 + 2 * dv.OperationsSupported.len()) + (4 + 2 * dv.EventsSupported.len()) + (4 + 2 * dv.DevicePropertiesSupported.len()) + (4 + 2 * dv.CaptureFormats.len()) + (4 + 2 * dv.ImageFormats.len()) + spec_ptp_str(dv.Manufacturer).len() + spec_ptp_str(dv.Model).len() + spec_ptp_str(dv.DeviceVersion).len() + spec_ptp_str(dv.SerialNumber).len()) == spec_ptp_str(dv.SerialNumber)
}

/// Where a dataset starting at `p` structurally ends, if the buffer
/// holds every field: each fixed-width field, counted array and string
/// in dataset order.
pub open spec fn device_info_end(b: Seq<u8>, p: int) -> Option<int> {
    match fixed_end(b, p, 2) {
        None => None,
        Some(p1) => match fixed_end(b, p1, 4) {
            None => None,
            Some(p2) => match fixed_end(b, p2, 2) {
                None => None,
                Some(p3) => match str_end(b, p3) {
                    None => None,
                    Some(p4) => match fixed_end(b, p4, 2) {
                        None => None,
                        Some(p5) => match counted_end(b, p5, 2) {
                            None => None,
                            Some(p6) => match counted_end(b, p6, 2) {
                                None => None,
                                Some(p7) => match counted_end(b, p7, 2) {
                                    None => None,
                                    Some(p8) => match counted_end(b, p8, 2) {
                                        None => None,
                                        Some(p9) => match counted_end(b, p9, 2) {
                                            None => None,
                                            Some(p10) => match str_end(b, p10) {
                                                None => None,
                                                Some(p11) => match str_end(b, p11) {
                                                    None => None,
                                                    Some(p12) => match str_end(b, p12) {
                                                        None => None,
                                                        Some(p13) => match str_end(b, p13) {
                                                            None => None,
                                                            Some(p14) => Some(p14),
                                                        },
                                                    },
                                                },
                                            },
                                        },
                                    },
                                },
                            },
                        },
                    },
                },
            },
        },
    }
}

/// The layout fact holds wherever the canonical encoding sits.
pub proof fn lemma_device_info_fields(b: Seq<u8>, p: int, dv: DeviceInfoV)
    requires
        device_info_encodable(dv),
        0 <= p,
        p + device_info_bytes(dv).len() <= b.len(),
        b.subrange(p, p + device_info_bytes(dv).len()) == device_info_bytes(dv),
    ensures
        device_info_laid_out(b, p, dv),
{
    let total = device_info_bytes(dv).len();
    lemma_le16(dv.Version);
    lemma_le32(dv.VendorExID);
    lemma_le16(dv.VendorExVersion);
    lemma_ptp_str_len(dv.VendorExtensionDesc);
    lemma_le16(dv.FunctionalMode);
    let f5 = |x: u16| le16(x);
    assert forall|x: u16| (#[trigger] f5(x)).len() == 2 by {
        lemma_le16(x);
    }
    lemma_concat_bytes_len(dv.OperationsSupported, f5, 2);
    lemma_le32(dv.OperationsSupported.len() as u32);
    let f6 = |x: u16| le16(x);
    assert forall|x: u16| (#[trigger] f6(x)).len() == 2 by {
        lemma_le16(x);
    }
    lemma_concat_bytes_len(dv.EventsSupported, f6, 2);
    lemma_le32(dv.EventsSupported.len() as u32);
    let f7 = |x: u16| le16(x);
    assert forall|x: u16| (#[trigger] f7(x)).len() == 2 by {
        lemma_le16(x);
    }
    lemma_concat_bytes_len(dv.DevicePropertiesSupported, f7, 2);
    lemma_le32(dv.DevicePropertiesSupported.len() as u32);
    let f8 = |x: u16| le16(x);
    assert forall|x: u16| (#[trigger] f8(x)).len() == 2 by {
        lemma_le16(x);
    }
    lemma_concat_bytes_len(dv.CaptureFormats, f8, 2);
    lemma_le32(dv.CaptureFormats.len() as u32);
    let f9 = |x: u16| le16(x);
    assert forall|x: u16| (#[trigger] f9(x)).len() == 2 by {
        lemma_le16(x);
    }
    lemma_concat_bytes_len(dv.ImageFormats, f9, 2);
    lemma_le32(dv.ImageFormats.len() as u32);
    lemma_ptp_str_len(dv.Manufacturer);
    lemma_ptp_str_len(dv.Model);
    lemma_ptp_str_len(dv.DeviceVersion);
    lemma_ptp_str_len(dv.SerialNumber);
    assert(b.subrange(p, p + total) == device_info_bytes(dv));
    lemma_concat_parts(b, p, le16(dv.Version), le32(dv.VendorExID) + (le16(dv.VendorExVersion) + (spec_ptp_str(dv.VendorExtensionDesc) + (le16(dv.FunctionalMode) + ((le32(dv.OperationsSupported.len() as u32) + concat_bytes(dv.OperationsSupported, |x: u16| le16(x))) + ((le32(dv.EventsSupported.len() as u32) + concat_bytes(dv.EventsSupported, |x: u16| le16(x))) + ((le32(dv.DevicePropertiesSupported.len() as u32) + concat_bytes(dv.DevicePropertiesSupported, |x: u16| le16(x))) + ((le32(dv.CaptureFormats.len() as u32) + concat_bytes(dv.CaptureFormats, |x: u16| le16(x))) + ((le32(dv.ImageFormats.len() as u32) + concat_bytes(dv.ImageFormats, |x: u16| le16(x))) + (spec_ptp_str(dv.Manufacturer) + (spec_ptp_str(dv.Model) + (spec_ptp_str(dv.DeviceVersion) + (spec_ptp_str(dv.SerialNumber))))))))))))));
    lemma_concat_parts(b, p + 2, le32(dv.VendorExID), le16(dv.VendorExVersion) + (spec_ptp_str(dv.VendorExtensionDesc) + (le16(dv.FunctionalMode) + ((le32(dv.OperationsSupported.len() as u32) + concat_bytes(dv.OperationsSupported, |x: u16| le16(x))) + ((le32(dv.EventsSupported.len() as u32) + concat_bytes(dv.EventsSupported, |x: u16| le16(x))) + ((le32(dv.DevicePropertiesSupported.len() as u32) + concat_bytes(dv.DevicePropertiesSupported, |x: u16| le16(x))) + ((le32(dv.CaptureFormats.len() as u32) + concat_bytes(dv.CaptureFormats, |x: u16| le16(x))) + ((le32(dv.ImageFormats.len() as u32) + concat_bytes(dv.ImageFormats, |x: u16| le16(x))) + (spec_ptp_str(dv.Manufacturer) + (spec_ptp_str(dv.Model) + (spec_ptp_str(dv.DeviceVersion) + (spec_ptp_str(dv.SerialNumber)))))))))))));
    lemma_concat_parts(b, p + 2 + 4, le16(dv.VendorExVersion), spec_ptp_str(dv.VendorExtensionDesc) + (le16(dv.FunctionalMode) + ((le32(dv.OperationsSupported.len() as u32) + concat_bytes(dv.OperationsSupported, |x: u16| le16(x))) + ((le32(dv.EventsSupported.len() as u32) + concat_bytes(dv.EventsSupported, |x: u16| le16(x))) + ((le32(dv.DevicePropertiesSupported.len() as u32) + concat_bytes(dv.DevicePropertiesSupported, |x: u16| le16(x))) + ((le32(dv.CaptureFormats.len() as u32) + concat_bytes(dv.CaptureFormats, |x: u16| le16(x))) + ((le32(dv.ImageFormats.len() as u32) + concat_bytes(dv.ImageFormats, |x: u16| le16(x))) + (spec_ptp_str(dv.Manufacturer) + (spec_ptp_str(dv.Model) + (spec_ptp_str(dv.DeviceVersion) + (spec_ptp_str(dv.SerialNumber))))))))))));
    lemma_concat_parts(b, p + 2 + 4 + 2, spec_ptp_str(dv.VendorExtensionDesc), le16(dv.FunctionalMode) + ((le32(dv.OperationsSupported.len() as u32) + concat_bytes(dv.OperationsSupported, |x: u16| le16(x))) + ((le32(dv.EventsSupported.len() as u32) + concat_bytes(dv.EventsSupported, |x: u16| le16(x))) + ((le32(dv.DevicePropertiesSupported.len() as u32) + concat_bytes(dv.DevicePropertiesSupported, |x: u16| le16(x))) + ((le32(dv.CaptureFormats.len() as u32) + concat_bytes(dv.CaptureFormats, |x: u16| le16(x))) + ((le32(dv.ImageFormats.len() as u32) + concat_bytes(dv.ImageFormats, |x: u16| le16(x))) + (spec_ptp_str(dv.Manufacturer) + (spec_ptp_str(dv.Model) + (spec_ptp_str(dv.DeviceVersion) + (spec_ptp_str(dv.SerialNumber)))))))))));
    lemma_concat_parts(b, p + 2 + 4 + 2 + spec_ptp_str(dv.VendorExtensionDesc).len(), le16(dv.FunctionalMode), (le32(dv.OperationsSupported.len() as u32) + concat_bytes(dv.OperationsSupported, |x: u16| le16(x))) + ((le32(dv.EventsSupported.len() as u32) + concat_bytes(dv.EventsSupported, |x: u16| le16(x))) + ((le32(dv.DevicePropertiesSupported.len() as u32) + concat_bytes(dv.DevicePropertiesSupported, |x: u16| le16(x))) + ((le32(dv.CaptureFormats.len() as u32) + concat_bytes(dv.CaptureFormats, |x: u16| le16(x))) + ((le32(dv.ImageFormats.len() as u32) + concat_bytes(dv.ImageFormats, |x: u16| le16(x))) + (spec_ptp_str(dv.Manufacturer) + (spec_ptp_str(dv.Model) + (spec_ptp_str(dv.DeviceVersion) + (spec_ptp_str(dv.SerialNumber))))))))));
    lemma_concat_parts(b, p + 2 + 4 + 2 + spec_ptp_str(dv.VendorExtensionDesc).len() + 2, (le32(dv.OperationsSupported.len() as u32) + concat_bytes(dv.OperationsSupported, |x: u16| le16(x))), (le32(dv.EventsSupported.len() as u32) + concat_bytes(dv.EventsSupported, |x: u16| le16(x))) + ((le32(dv.DevicePropertiesSupported.len() as u32) + concat_bytes(dv.DevicePropertiesSupported, |x: u16| le16(x))) + ((le32(dv.CaptureFormats.len() as u32) + concat_bytes(dv.CaptureFormats, |x: u16| le16(x))) + ((le32(dv.ImageFormats.len() as u32) + concat_bytes(dv.ImageFormats, |x: u16| le16(x))) + (spec_ptp_str(dv.Manufacturer) + (spec_ptp_str(dv.Model) + (spec_ptp_str(dv.DeviceVersion) + (spec_ptp_str(dv.SerialNumber)))))))));
    lemma_concat_parts(b, p + 2 + 4 + 2 + spec_ptp_str(dv.VendorExtensionDesc).len() + 2 + (4 + 2 * dv.OperationsSupported.len()), (le32(dv.EventsSupported.len() as u32) + concat_bytes(dv.EventsSupported, |x: u16| le16(x))), (le32(dv.DevicePropertiesSupported.len() as u32) + concat_bytes(dv.DevicePropertiesSupported, |x: u16| le16(x))) + ((le32(dv.CaptureFormats.len() as u32) + concat_bytes(dv.CaptureFormats, |x: u16| le16(x))) + ((le32(dv.ImageFormats.len() as u32) + concat_bytes(dv.ImageFormats, |x: u16| le16(x))) + (spec_ptp_str(dv.Manufacturer) + (spec_ptp_str(dv.Model) + (spec_ptp_str(dv.DeviceVersion) + (spec_ptp_str(dv.SerialNumber))))))));
    lemma_concat_parts(b, p + 2 + 4 + 2 + spec_ptp_str(dv.VendorExtensionDesc).len() + 2 + (4 + 2 * dv.OperationsSupported.len()) + (4 + 2 * dv.EventsSupported.len()), (le32(dv.DevicePropertiesSupported.len() as u32) + concat_bytes(dv.DevicePropertiesSupported, |x: u16| le16(x))), (le32(dv.CaptureFormats.len() as u32) + concat_bytes(dv.CaptureFormats, |x: u16| le16(x))) + ((le32(dv.ImageFormats.len() as u32) + concat_bytes(dv.ImageFormats, |x: u16| le16(x))) + (spec_ptp_str(dv.Manufacturer) + (spec_ptp_str(dv.Model) + (spec_ptp_str(dv.DeviceVersion) + (spec_ptp_str(dv.SerialNumber)))))));
    lemma_concat_parts(b, p + 2 + 4 + 2 + spec_ptp_str(dv.VendorExtensionDesc).len() + 2 + (4 + 2 * dv.OperationsSupported.len()) + (4 + 2 * dv.EventsSupported.len()) + (4 + 2 * dv.DevicePropertiesSupported.len()), (le32(dv.CaptureFormats.len() as u32) + concat_bytes(dv.CaptureFormats, |x: u16| le16(x))), (le32(dv.ImageFormats.len() as u32) + concat_bytes(dv.ImageFormats, |x: u16| le16(x))) + (spec_ptp_str(dv.Manufacturer) + (spec_ptp_str(dv.Model) + (spec_ptp_str(dv.DeviceVersion) + (spec_ptp_str(dv.SerialNumber))))));
    lemma_concat_parts(b, p + 2 + 4 + 2 + spec_ptp_str(dv.VendorExtensionDesc).len() + 2 + (4 + 2 * dv.OperationsSupported.len()) + (4 + 2 * dv.EventsSupported.len()) + (4 + 2 * dv.DevicePropertiesSupported.len()) + (4 + 2 * dv.CaptureFormats.len()), (le32(dv.ImageFormats.len() as u32) + concat_bytes(dv.ImageFormats, |x: u16| le16(x))), spec_ptp_str(dv.Manufacturer) + (spec_ptp_str(dv.Model) + (spec_ptp_str(dv.DeviceVersion) + (spec_ptp_str(dv.SerialNumber)))));
    lemma_concat_parts(b, p + 2 + 4 + 2 + spec_ptp_str(dv.VendorExtensionDesc).len() + 2 + (4 + 2 * dv.OperationsSupported.len()) + (4 + 2 * dv.EventsSupported.len()) + (4 + 2 * dv.DevicePropertiesSupported.len()) + (4 + 2 * dv.CaptureFormats.len()) + (4 + 2 * dv.ImageFormats.len()), spec_ptp_str(dv.Manufacturer), spec_ptp_str(dv.Model) + (spec_ptp_str(dv.DeviceVersion) + (spec_ptp_str(dv.SerialNumber))));
    lemma_concat_parts(b, p + 2 + 4 + 2 + spec_ptp_str(dv.VendorExtensionDesc).len() + 2 + (4 + 2 * dv.OperationsSupported.len()) + (4 + 2 * dv.EventsSupported.len()) + (4 + 2 * dv.DevicePropertiesSupported.len()) + (4 + 2 * dv.CaptureFormats.len()) + (4 + 2 * dv.ImageFormats.len()) + spec_ptp_str(dv.Manufacturer).len(), spec_ptp_str(dv.Model), spec_ptp_str(dv.DeviceVersion) + (spec_ptp_str(dv.SerialNumber)));
    lemma_concat_parts(b, p + 2 + 4 + 2 + spec_ptp_str(dv.VendorExtensionDesc).len() + 2 + (4 + 2 * dv.OperationsSupported.len()) + (4 + 2 * dv.EventsSupported.len()) + (4 + 2 * dv.DevicePropertiesSupported.len()) + (4 + 2 * dv.CaptureFormats.len()) + (4 + 2 * dv.ImageFormats.len()) + spec_ptp_str(dv.Manufacturer).len() + spec_ptp_str(dv.Model).len(), spec_ptp_str(dv.DeviceVersion), spec_ptp_str(dv.SerialNumber));
    assert(u16_at(b, p) == dv.Version) by {
        assert(b.subrange(p, p + 2) == le16(dv.Version));
        vstd::bytes::lemma_auto_spec_u16_to_from_le_bytes();
    }
    assert(u32_at(b, p + 2) == dv.VendorExID) by {
        assert(b.subrange(p + 2, p + 2 + 4) == le32(dv.VendorExID));
        vstd::bytes::lemma_auto_spec_u32_to_from_le_bytes();
    }
    assert(u16_at(b, p + 2 + 4) == dv.VendorExVersion) by {
        assert(b.subrange(p + 2 + 4, p + 2 + 4 + 2) == le16(dv.VendorExVersion));
        vstd::bytes::lemma_auto_spec_u16_to_from_le_bytes();
    }
    assert(u16_at(b, p + 2 + 4 + 2 + spec_ptp_str(dv.VendorExtensionDesc).len()) == dv.FunctionalMode) by {
        assert(b.subrange(p + 2 + 4 + 2 + spec_ptp_str(dv.VendorExtensionDesc).len(), p + 2 + 4 + 2 + spec_ptp_str(dv.VendorExtensionDesc).len() + 2) == le16(dv.FunctionalMode));
        vstd::bytes::lemma_auto_spec_u16_to_from_le_bytes();
    }
    lemma_counted_region(b, p + 2 + 4 + 2 + spec_ptp_str(dv.VendorExtensionDesc).len() + 2, dv.OperationsSupported, f5, 2);
    lemma_u16s_at_concat(b, p + 2 + 4 + 2 + spec_ptp_str(dv.VendorExtensionDesc).len() + 2 + 4, dv.OperationsSupported);
    lemma_counted_region(b, p + 2 + 4 + 2 + spec_ptp_str(dv.VendorExtensionDesc).len() + 2 + (4 + 2 * dv.OperationsSupported.len()), dv.EventsSupported, f6, 2);
    lemma_u16s_at_concat(b, p + 2 + 4 + 2 + spec_ptp_str(dv.VendorExtensionDesc).len() + 2 + (4 + 2 * dv.OperationsSupported.len()) + 4, dv.EventsSupported);
    lemma_counted_region(b, p + 2 + 4 + 2 + spec_ptp_str(dv.VendorExtensionDesc).len() + 2 + (4 + 2 * dv.OperationsSupported.len()) + (4 + 2 * dv.EventsSupported.len()), dv.DevicePropertiesSupported, f7, 2);
    lemma_u16s_at_concat(b, p + 2 + 4 + 2 + spec_ptp_str(dv.VendorExtensionDesc).len() + 2 + (4 + 2 * dv.OperationsSupported.len()) + (4 + 2 * dv.EventsSupported.len()) + 4, dv.DevicePropertiesSupported);
    lemma_counted_region(b, p + 2 + 4 + 2 + spec_ptp_str(dv.VendorExtensionDesc).len() + 2 + (4 + 2 * dv.OperationsSupported.len()) + (4 + 2 * dv.EventsSupported.len()) + (4 + 2 * dv.DevicePropertiesSupported.len()), dv.CaptureFormats, f8, 2);
    lemma_u16s_at_concat(b, p + 2 + 4 + 2 + spec_ptp_str(dv.VendorExtensionDesc).len() + 2 + (4 + 2 * dv.OperationsSupported.len()) + (4 + 2 * dv.EventsSupported.len()) + (4 + 2 * dv.DevicePropertiesSupported.len()) + 4, dv.CaptureFormats);
    lemma_counted_region(b, p + 2 + 4 + 2 + spec_ptp_str(dv.VendorExtensionDesc).len() + 2 + (4 + 2 * dv.OperationsSupported.len()) + (4 + 2 * dv.EventsSupported.len()) + (4 + 2 * dv.DevicePropertiesSupported.len()) + (4 + 2 * dv.CaptureFormats.len()), dv.ImageFormats, f9, 2);
    lemma_u16s_at_concat(b, p + 2 + 4 + 2 + spec_ptp_str(dv.VendorExtensionDesc).len() + 2 + (4 + 2 * dv.OperationsSupported.len()) + (4 + 2 * dv.EventsSupported.len()) + (4 + 2 * dv.DevicePropertiesSupported.len()) + (4 + 2 * dv.CaptureFormats.len()) + 4, dv.ImageFormats);
}

impl PtpDeviceInfo {
    /// Parse one dataset from a whole buffer; trailing bytes are rejected as malformed.
    #[verifier::rlimit(100)]
    #[verifier::spinoff_prover]
    pub fn decode(buf: &[u8]) -> (r: Result<PtpDeviceInfo, Error>)
        ensures
            r is Err ==> r->Err_0 is Malformed,
            device_info_end(buf@, 0) is None ==> r is Err && (r->Err_0 == Error::Malformed(
                MalformedKind::UnexpectedEnd,
            ) || r->Err_0 == Error::Malformed(MalformedKind::InvalidUtf16)),
            r is Ok ==> device_info_end(buf@, 0) == Some(buf@.len() as int),
            forall|dv: DeviceInfoV| #![trigger device_info_bytes(dv)]
                device_info_encodable(dv) && buf@ == device_info_bytes(dv) ==> r is Ok && r->Ok_0@ == dv,
    {
        let ghost b = buf@;
        let mut cur = Reader::new(buf);
        proof {
            assert forall|dv: DeviceInfoV| #![trigger device_info_bytes(dv)]
                device_info_encodable(dv) && b == device_info_bytes(dv) implies device_info_laid_out(b, 0, dv) by {
                assert(b.subrange(0, device_info_bytes(dv).len() as int) =~= b);
                lemma_device_info_fields(b, 0, dv);
            }
        }
        let fVersion = match cur.read_ptp_u16() {
            Ok(v) => v,
            Err(e) => {
                proof {
                    assert forall|dv: DeviceInfoV| #![trigger device_info_bytes(dv)]
                        device_info_encodable(dv) && b == device_info_bytes(dv) implies false by {
                        assert(device_info_laid_out(b, 0, dv));
                    }
                }
                return Err(e);
            },
        };
        proof {
            assert forall|dv: DeviceInfoV| #![trigger device_info_bytes(dv)]
                device_info_encodable(dv) && b == device_info_bytes(dv) implies fVersion == dv.Version && cur.position() == 0 + 2 by {
                assert(device_info_laid_out(b, 0, dv));
            }
        }
        let fVendorExID = match cur.read_ptp_u32() {
            Ok(v) => v,
            Err(e) => {
                proof {
                    assert forall|dv: DeviceInfoV| #![trigger device_info_bytes(dv)]
                        device_info_encodable(dv) && b == device_info_bytes(dv) implies false by {
                        assert(device_info_laid_out(b, 0, dv));
                    }
                }
                return Err(e);
            },
        };
        proof {
            assert forall|dv: DeviceInfoV| #![trigger device_info_bytes(dv)]
                device_info_encodable(dv) && b == device_info_bytes(dv) implies fVendorExID == dv.VendorExID && cur.position() == 0 + 2 + 4 by {
                assert(device_info_laid_out(b, 0, dv));
            }
        }
        let fVendorExVersion = match cur.read_ptp_u16() {
            Ok(v) => v,
            Err(e) => {
                proof {
                    assert forall|dv: DeviceInfoV| #![trigger device_info_bytes(dv)]
                        device_info_encodable(dv) && b == device_info_bytes(dv) implies false by {
                        assert(device_info_laid_out(b, 0, dv));
                    }
                }
                return Err(e);
            },
        };
        proof {
            assert forall|dv: DeviceInfoV| #![trigger device_info_bytes(dv)]
                device_info_encodable(dv) && b == device_info_bytes(dv) implies fVendorExVersion == dv.VendorExVersion && cur.position() == 0 + 2 + 4 + 2 by {
                assert(device_info_laid_out(b, 0, dv));
            }
        }
        let fVendorExtensionDesc = match read_str_field(&mut cur) {
            Ok(v) => v,
            Err(e) => {
                proof {
                    assert forall|dv: DeviceInfoV| #![trigger device_info_bytes(dv)]
                        device_info_encodable(dv) && b == device_info_bytes(dv) implies false by {
                        assert(device_info_laid_out(b, 0, dv));
                    }
                }
                return Err(e);
            },
        };
        proof {
            assert forall|dv: DeviceInfoV| #![trigger device_info_bytes(dv)]
                device_info_encodable(dv) && b == device_info_bytes(dv) implies fVendorExtensionDesc@ == dv.VendorExtensionDesc && cur.position() == 0 + 2 + 4 + 2 + spec_ptp_str(dv.VendorExtensionDesc).len() by {
                assert(device_info_laid_out(b, 0, dv));
            }
        }
        let fFunctionalMode = match cur.read_ptp_u16() {
            Ok(v) => v,
            Err(e) => {
                proof {
                    assert forall|dv: DeviceInfoV| #![trigger device_info_bytes(dv)]
                        device_info_encodable(dv) && b == device_info_bytes(dv) implies false by {
                        assert(device_info_laid_out(b, 0, dv));
                    }
                }
                return Err(e);
            },
        };
        proof {
            assert forall|dv: DeviceInfoV| #![trigger device_info_bytes(dv)]
                device_info_encodable(dv) && b == device_info_bytes(dv) implies fFunctionalMode == dv.FunctionalMode && cur.position() == 0 + 2 + 4 + 2 + spec_ptp_str(dv.VendorExtensionDesc).len() + 2 by {
                assert(device_info_laid_out(b, 0, dv));
            }
        }
        let fOperationsSupported = match cur.read_ptp_u16_vec() {
            Ok(v) => v,
            Err(e) => {
                proof {
                    assert forall|dv: DeviceInfoV| #![trigger device_info_bytes(dv)]
                        device_info_encodable(dv) && b == device_info_bytes(dv) implies false by {
                        assert(device_info_laid_out(b, 0, dv));
                    }
                }
                return Err(e);
            },
        };
        proof {
            assert forall|dv: DeviceInfoV| #![trigger device_info_bytes(dv)]
                device_info_encodable(dv) && b == device_info_bytes(dv) implies fOperationsSupported@ == dv.OperationsSupported && cur.position() == 0 + 2 + 4 + 2 + spec_ptp_str(dv.VendorExtensionDesc).len() + 2 + (4 + 2 * dv.OperationsSupported.len()) by {
                assert(device_info_laid_out(b, 0, dv));
            }
        }
        let fEventsSupported = match cur.read_ptp_u16_vec() {
            Ok(v) => v,
            Err(e) => {
                proof {
                    assert forall|dv: DeviceInfoV| #![trigger device_info_bytes(dv)]
                        device_info_encodable(dv) && b == device_info_bytes(dv) implies false by {
                        assert(device_info_laid_out(b, 0, dv));
                    }
                }
                return Err(e);
            },
        };
        proof {
            assert forall|dv: DeviceInfoV| #![trigger device_info_bytes(dv)]
                device_info_encodable(dv) && b == device_info_bytes(dv) implies fEventsSupported@ == dv.EventsSupported && cur.position() == 0 + 2 + 4 + 2 + spec_ptp_str(dv.VendorExtensionDesc).len() + 2 + (4 + 2 * dv.OperationsSupported.len()) + (4 + 2 * dv.EventsSupported.len()) by {
                assert(device_info_laid_out(b, 0, dv));
            }
        }
        let fDevicePropertiesSupported = match cur.read_ptp_u16_vec() {
            Ok(v) => v,
            Err(e) => {
                proof {
                    assert forall|dv: DeviceInfoV| #![trigger device_info_bytes(dv)]
                        device_info_encodable(dv) && b == device_info_bytes(dv) implies false by {
                        assert(device_info_laid_out(b, 0, dv));
                    }
                }
                return Err(e);
            },
        };
        proof {
            assert forall|dv: DeviceInfoV| #![trigger device_info_bytes(dv)]
                device_info_encodable(dv) && b == device_info_bytes(dv) implies fDevicePropertiesSupported@ == dv.DevicePropertiesSupported && cur.position() == 0 + 2 + 4 + 2 + spec_ptp_str(dv.VendorExtensionDesc).len() + 2 + (4 + 2 * dv.OperationsSupported.len()) + (4 + 2 * dv.EventsSupported.len()) + (4 + 2 * dv.DevicePropertiesSupported.len()) by {
                assert(device_info_laid_out(b, 0, dv));
            }
        }
        let fCaptureFormats = match cur.read_ptp_u16_vec() {
            Ok(v) => v,
            Err(e) => {
                proof {
                    assert forall|dv: DeviceInfoV| #![trigger device_info_bytes(dv)]
                        device_info_encodable(dv) && b == device_info_bytes(dv) implies false by {
                        assert(device_info_laid_out(b, 0, dv));
                    }
                }
                return Err(e);
            },
        };
        proof {
            assert forall|dv: DeviceInfoV| #![trigger device_info_bytes(dv)]
                device_info_encodable(dv) && b == device_info_bytes(dv) implies fCaptureFormats@ == dv.CaptureFormats && cur.position() == 0 + 2 + 4 + 2 + spec_ptp_str(dv.VendorExtensionDesc).len() + 2 + (4 + 2 * dv.OperationsSupported.len()) + (4 + 2 * dv.EventsSupported.len()) + (4 + 2 * dv.DevicePropertiesSupported.len()) + (4 + 2 * dv.CaptureFormats.len()) by {
                assert(device_info_laid_out(b, 0, dv));
            }
        }
        let fImageFormats = match cur.read_ptp_u16_vec() {
            Ok(v) => v,
            Err(e) => {
                proof {
                    assert forall|dv: DeviceInfoV| #![trigger device_info_bytes(dv)]
                        device_info_encodable(dv) && b == device_info_bytes(dv) implies false by {
                        assert(device_info_laid_out(b, 0, dv));
                    }
                }
                return Err(e);
            },
        };
        proof {
            assert forall|dv: DeviceInfoV| #![trigger device_info_bytes(dv)]
                device_info_encodable(dv) && b == device_info_bytes(dv) implies fImageFormats@ == dv.ImageFormats && cur.position() == 0 + 2 + 4 + 2 + spec_ptp_str(dv.VendorExtensionDesc).len() + 2 + (4 + 2 * dv.OperationsSupported.len()) + (4 + 2 * dv.EventsSupported.len()) + (4 + 2 * dv.DevicePropertiesSupported.len()) + (4 + 2 * dv.CaptureFormats.len()) + (4 + 2 * dv.ImageFormats.len()) by {
                assert(device_info_laid_out(b, 0, dv));
            }
        }
        let fManufacturer = match read_str_field(&mut cur) {
            Ok(v) => v,
            Err(e) => {
                proof {
                    assert forall|dv: DeviceInfoV| #![trigger device_info_bytes(dv)]
                        device_info_encodable(dv) && b == device_info_bytes(dv) implies false by {
                        assert(device_info_laid_out(b, 0, dv));
                    }
                }
                return Err(e);
            },
        };
        proof {
            assert forall|dv: DeviceInfoV| #![trigger device_info_bytes(dv)]
                device_info_encodable(dv) && b == device_info_bytes(dv) implies fManufacturer@ == dv.Manufacturer && cur.position() == 0 + 2 + 4 + 2 + spec_ptp_str(dv.VendorExtensionDesc).len() + 2 + (4 + 2 * dv.OperationsSupported.len()) + (4 + 2 * dv.EventsSupported.len()) + (4 + 2 * dv.DevicePropertiesSupported.len()) + (4 + 2 * dv.CaptureFormats.len()) + (4 + 2 * dv.ImageFormats.len()) + spec_ptp_str(dv.Manufacturer).len() by {
                assert(device_info_laid_out(b, 0, dv));
            }
        }
        let fModel = match read_str_field(&mut cur) {
            Ok(v) => v,
            Err(e) => {
                proof {
                    assert forall|dv: DeviceInfoV| #![trigger device_info_bytes(dv)]
                        device_info_encodable(dv) && b == device_info_bytes(dv) implies false by {
                        assert(device_info_laid_out(b, 0, dv));
                    }
                }
                return Err(e);
            },
        };
        proof {
            assert forall|dv: DeviceInfoV| #![trigger device_info_bytes(dv)]
                device_info_encodable(dv) && b == device_info_bytes(dv) implies fModel@ == dv.Model && cur.position() == 0 + 2 + 4 + 2 + spec_ptp_str(dv.VendorExtensionDesc).len() + 2 + (4 + 2 * dv.OperationsSupported.len()) + (4 + 2 * dv.EventsSupported.len()) + (4 + 2 * dv.DevicePropertiesSupported.len()) + (4 + 2 * dv.CaptureFormats.len()) + (4 + 2 * dv.ImageFormats.len()) + spec_ptp_str(dv.Manufacturer).len() + spec_ptp_str(dv.Model).len() by {
                assert(device_info_laid_out(b, 0, dv));
            }
        }
        let fDeviceVersion = match read_str_field(&mut cur) {
            Ok(v) => v,
            Err(e) => {
                proof {
                    assert forall|dv: DeviceInfoV| #![trigger device_info_bytes(dv)]
                        device_info_encodable(dv) && b == device_info_bytes(dv) implies false by {
                        assert(device_info_laid_out(b, 0, dv));
                    }
                }
                return Err(e);
            },
        };
        proof {
            assert forall|dv: DeviceInfoV| #![trigger device_info_bytes(dv)]
                device_info_encodable(dv) && b == device_info_bytes(dv) implies fDeviceVersion@ == dv.DeviceVersion && cur.position() == 0 + 2 + 4 + 2 + spec_ptp_str(dv.VendorExtensionDesc).len() + 2 + (4 + 2 * dv.OperationsSupported.len()) + (4 + 2 * dv.EventsSupported.len()) + (4 + 2 * dv.DevicePropertiesSupported.len()) + (4 + 2 * dv.CaptureFormats.len()) + (4 + 2 * dv.ImageFormats.len()) + spec_ptp_str(dv.Manufacturer).len() + spec_ptp_str(dv.Model).len() + spec_ptp_str(dv.DeviceVersion).len() by {
                assert(device_info_laid_out(b, 0, dv));
            }
        }
        let fSerialNumber = match read_str_field(&mut cur) {
            Ok(v) => v,
            Err(e) => {
                proof {
                    assert forall|dv: DeviceInfoV| #![trigger device_info_bytes(dv)]
                        device_info_encodable(dv) && b == device_info_bytes(dv) implies false by {
                        assert(device_info_laid_out(b, 0, dv));
                    }
                }
                return Err(e);
            },
        };
        proof {
            assert forall|dv: DeviceInfoV| #![trigger device_info_bytes(dv)]
                device_info_encodable(dv) && b == device_info_bytes(dv) implies fSerialNumber@ == dv.SerialNumber && cur.position() == 0 + 2 + 4 + 2 + spec_ptp_str(dv.VendorExtensionDesc).len() + 2 + (4 + 2 * dv.OperationsSupported.len()) + (4 + 2 * dv.EventsSupported.len()) + (4 + 2 * dv.DevicePropertiesSupported.len()) + (4 + 2 * dv.CaptureFormats.len()) + (4 + 2 * dv.ImageFormats.len()) + spec_ptp_str(dv.Manufacturer).len() + spec_ptp_str(dv.Model).len() + spec_ptp_str(dv.DeviceVersion).len() + spec_ptp_str(dv.SerialNumber).len() by {
                assert(device_info_laid_out(b, 0, dv));
            }
        }
        proof {
            assert(device_info_end(b, 0) == Some(cur.position()));
        }
        match cur.expect_end() {
            Ok(_) => {},
            Err(e) => {
                proof {
                    assert forall|dv: DeviceInfoV| #![trigger device_info_bytes(dv)]
                        device_info_encodable(dv) && b == device_info_bytes(dv) implies false by {
                        assert(device_info_laid_out(b, 0, dv));
                    }
                }
                return Err(e);
            },
        }
        let ret = PtpDeviceInfo { Version: fVersion, VendorExID: fVendorExID, VendorExVersion: fVendorExVersion, VendorExtensionDesc: fVendorExtensionDesc, FunctionalMode: fFunctionalMode, OperationsSupported: fOperationsSupported, EventsSupported: fEventsSupported, DevicePropertiesSupported: fDevicePropertiesSupported, CaptureFormats: fCaptureFormats, ImageFormats: fImageFormats, Manufacturer: fManufacturer, Model: fModel, DeviceVersion: fDeviceVersion, SerialNumber: fSerialNumber };
        proof {
            assert forall|dv: DeviceInfoV| #![trigger device_info_bytes(dv)]
                device_info_encodable(dv) && b == device_info_bytes(dv) implies ret@ == dv by {
                assert(device_info_laid_out(b, 0, dv));
            }
        }
        Ok(ret)
    }

    /// Serialize this dataset to its canonical wire bytes.
    #[verifier::rlimit(100)]
    #[verifier::spinoff_prover]
    pub fn encode(&self) -> (r: Result<Vec<u8>, Error>)
        ensures
            r is Ok ==> r->Ok_0@ == device_info_bytes(self@),
            device_info_encodable(self@) ==> r is Ok,
            r is Err ==> r->Err_0 is Malformed,
    {
        let mut out: Vec<u8> = Vec::new();
        let ghost e0 = le16(self@.Version);
        let ghost e1 = le32(self@.VendorExID);
        let ghost e2 = le16(self@.VendorExVersion);
        let ghost e3 = spec_ptp_str(self@.VendorExtensionDesc);
        let ghost e4 = le16(self@.FunctionalMode);
        let ghost e5 = (le32(self@.OperationsSupported.len() as u32) + concat_bytes(self@.OperationsSupported, |x: u16| le16(x)));
        let ghost e6 = (le32(self@.EventsSupported.len() as u32) + concat_bytes(self@.EventsSupported, |x: u16| le16(x)));
        let ghost e7 = (le32(self@.DevicePropertiesSupported.len() as u32) + concat_bytes(self@.DevicePropertiesSupported, |x: u16| le16(x)));
        let ghost e8 = (le32(self@.CaptureFormats.len() as u32) + concat_bytes(self@.CaptureFormats, |x: u16| le16(x)));
        let ghost e9 = (le32(self@.ImageFormats.len() as u32) + concat_bytes(self@.ImageFormats, |x: u16| le16(x)));
        let ghost e10 = spec_ptp_str(self@.Manufacturer);
        let ghost e11 = spec_ptp_str(self@.Model);
        let ghost e12 = spec_ptp_str(self@.DeviceVersion);
        let ghost e13 = spec_ptp_str(self@.SerialNumber);
        let ghost t13 = e13;
        let ghost t12 = e12 + t13;
        let ghost t11 = e11 + t12;
        let ghost t10 = e10 + t11;
        let ghost t9 = e9 + t10;
        let ghost t8 = e8 + t9;
        let ghost t7 = e7 + t8;
        let ghost t6 = e6 + t7;
        let ghost t5 = e5 + t6;
        let ghost t4 = e4 + t5;
        let ghost t3 = e3 + t4;
        let ghost t2 = e2 + t3;
        let ghost t1 = e1 + t2;
        let ghost t0 = e0 + t1;
        proof {
            assert(device_info_bytes(self@) == t0);
        }
        let ghost o0 = out@;
        proof {
            assert(o0 + t0 =~= t0);
        }
        write_u16(&mut out, self.Version);
        proof {
            assert(out@ =~= o0 + e0);
            assert(out@ + t1 =~= o0 + t0);
        }
        let ghost o1 = out@;
        write_u32(&mut out, self.VendorExID);
        proof {
            assert(out@ =~= o1 + e1);
            assert(out@ + t2 =~= o1 + t1);
        }
        let ghost o2 = out@;
        write_u16(&mut out, self.VendorExVersion);
        proof {
            assert(out@ =~= o2 + e2);
            assert(out@ + t3 =~= o2 + t2);
        }
        let ghost o3 = out@;
        match write_ptp_str(&mut out, self.VendorExtensionDesc.as_str()) {
            Ok(_) => {},
            Err(e) => {
                return Err(e);
            },
        }
        proof {
            assert(out@ =~= o3 + e3);
            assert(out@ + t4 =~= o3 + t3);
        }
        let ghost o4 = out@;
        write_u16(&mut out, self.FunctionalMode);
        proof {
            assert(out@ =~= o4 + e4);
            assert(out@ + t5 =~= o4 + t4);
        }
        let ghost o5 = out@;
        match write_u16_vec(&mut out, &self.OperationsSupported) {
            Ok(_) => {},
            Err(e) => {
                return Err(e);
            },
        }
        proof {
            assert(out@ =~= o5 + e5);
            assert(out@ + t6 =~= o5 + t5);
        }
        let ghost o6 = out@;
        match write_u16_vec(&mut out, &self.EventsSupported) {
            Ok(_) => {},
            Err(e) => {
                return Err(e);
            },
        }
        proof {
            assert(out@ =~= o6 + e6);
            assert(out@ + t7 =~= o6 + t6);
        }
        let ghost o7 = out@;
        match write_u16_vec(&mut out, &self.DevicePropertiesSupported) {
            Ok(_) => {},
            Err(e) => {
                return Err(e);
            },
        }
        proof {
            assert(out@ =~= o7 + e7);
            assert(out@ + t8 =~= o7 + t7);
        }
        let ghost o8 = out@;
        match write_u16_vec(&mut out, &self.CaptureFormats) {
            Ok(_) => {},
            Err(e) => {
                return Err(e);
            },
        }
        proof {
            assert(out@ =~= o8 + e8);
            assert(out@ + t9 =~= o8 + t8);
        }
        let ghost o9 = out@;
        match write_u16_vec(&mut out, &self.ImageFormats) {
            Ok(_) => {},
            Err(e) => {
                return Err(e);
            },
        }
        proof {
            assert(out@ =~= o9 + e9);
            assert(out@ + t10 =~= o9 + t9);
        }
        let ghost o10 = out@;
        match write_ptp_str(&mut out, self.Manufacturer.as_str()) {
            Ok(_) => {},
            Err(e) => {
                return Err(e);
            },
        }
        proof {
            assert(out@ =~= o10 + e10);
            assert(out@ + t11 =~= o10 + t10);
        }
        let ghost o11 = out@;
        match write_ptp_str(&mut out, self.Model.as_str()) {
            Ok(_) => {},
            Err(e) => {
                return Err(e);
            },
        }
        proof {
            assert(out@ =~= o11 + e11);
            assert(out@ + t12 =~= o11 + t11);
        }
        let ghost o12 = out@;
        match write_ptp_str(&mut out, self.DeviceVersion.as_str()) {
            Ok(_) => {},
            Err(e) => {
                return Err(e);
            },
        }
        proof {
            assert(out@ =~= o12 + e12);
            assert(out@ + t13 =~= o12 + t12);
        }
        let ghost o13 = out@;
        match write_ptp_str(&mut out, self.SerialNumber.as_str()) {
            Ok(_) => {},
            Err(e) => {
                return Err(e);
            },
        }
        proof {
            assert(out@ =~= o13 + e13);
            assert(out@ =~= o13 + t13);
            assert(out@ =~= t0);
        }
        Ok(out)
    }
}

/// The mathematical value of a `PtpObjectInfo`.
pub struct ObjectInfoV {
    pub StorageID: u32,
    pub ObjectFormat: u16,
    pub ProtectionStatus: u16,
    pub ObjectCompressedSize: u32,
    pub ThumbFormat: u16,
    pub ThumbCompressedSize: u32,
    pub ThumbPixWidth: u32,
    pub ThumbPixHeight: u32,
    pub ImagePixWidth: u32,
    pub ImagePixHeight: u32,
    pub ImageBitDepth: u32,
    pub ParentObject: u32,
    pub AssociationType: u16,
    pub AssociationDesc: u32,
    pub SequenceNumber: u32,
    pub Filename: Seq<char>,
    pub CaptureDate: Seq<char>,
    pub ModificationDate: Seq<char>,
    pub Keywords: Seq<char>,
}

/// An ObjectInfo dataset: the metadata of one stored object.
#[derive(Debug, PartialEq)]
pub struct PtpObjectInfo {
    pub StorageID: u32,
    pub ObjectFormat: u16,
    pub ProtectionStatus: u16,
    pub ObjectCompressedSize: u32,
    pub ThumbFormat: u16,
    pub ThumbCompressedSize: u32,
    pub ThumbPixWidth: u32,
    pub ThumbPixHeight: u32,
    pub ImagePixWidth: u32,
    pub ImagePixHeight: u32,
    pub ImageBitDepth: u32,
    pub ParentObject: u32,
    pub AssociationType: u16,
    pub AssociationDesc: u32,
    pub SequenceNumber: u32,
    pub Filename: String,
    pub CaptureDate: String,
    pub ModificationDate: String,
    pub Keywords: String,
}

impl View for PtpObjectInfo {
    type V = ObjectInfoV;

    open spec fn view(&self) -> ObjectInfoV {
        ObjectInfoV {
            StorageID: self.StorageID,
            ObjectFormat: self.ObjectFormat,
            ProtectionStatus: self.ProtectionStatus,
            ObjectCompressedSize: self.ObjectCompressedSize,
            ThumbFormat: self.ThumbFormat,
            ThumbCompressedSize: self.ThumbCompressedSize,
            ThumbPixWidth: self.ThumbPixWidth,
            ThumbPixHeight: self.ThumbPixHeight,
            ImagePixWidth: self.ImagePixWidth,
            ImagePixHeight: self.ImagePixHeight,
            ImageBitDepth: self.ImageBitDepth,
            ParentObject: self.ParentObject,
            AssociationType: self.AssociationType,
            AssociationDesc: self.AssociationDesc,
            SequenceNumber: self.SequenceNumber,
            Filename: self.Filename@,
            CaptureDate: self.CaptureDate@,
            ModificationDate: self.ModificationDate@,
            Keywords: self.Keywords@,
        }
    }
}

/// Every variable-length field fits its length prefix.
pub open spec fn object_info_encodable(dv: ObjectInfoV) -> bool {
    str_encodable(dv.Filename) && str_encodable(dv.CaptureDate) && str_encodable(dv.ModificationDate) && str_encodable(dv.Keywords)
}

/// The canonical wire form: the fields in dataset order.
pub open spec fn object_info_bytes(dv: ObjectInfoV) -> Seq<u8> {
    le32(dv.StorageID) + (le16(dv.ObjectFormat) + (le16(dv.ProtectionStatus) + (le32(dv.ObjectCompressedSize) + (le16(dv.ThumbFormat) + (le32(dv.ThumbCompressedSize) + (le32(dv.ThumbPixWidth) + (le32(dv.ThumbPixHeight) + (le32(dv.ImagePixWidth) + (le32(dv.ImagePixHeight) + (le32(dv.ImageBitDepth) + (le32(dv.ParentObject) + (le16(dv.AssociationType) + (le32(dv.AssociationDesc) + (le32(dv.SequenceNumber) + (spec_ptp_str(dv.Filename) + (spec_ptp_str(dv.CaptureDate) + (spec_ptp_str(dv.ModificationDate) + (spec_ptp_str(dv.Keywords)))))))))))))))))))
}

/// Where a dataset's canonical encoding sits at `p` in `b`, every field
/// stands at its offset with its encoded value.
pub open spec fn object_info_laid_out(b: Seq<u8>, p: int, dv: ObjectInfoV) -> bool {
    &&& object_info_bytes(dv).len() == p + 4 + 2 + 2 + 4 + 2 + 4 + 4 + 4 + 4 + 4 + 4 + 4 + 2 + 4 + 4 + spec_ptp_str(dv.Filename).len() + spec_ptp_str(dv.CaptureDate).len() + spec_ptp_str(dv.ModificationDate).len() + spec_ptp_str(dv.Keywords).len() - p
    &&& u32_at(b, p) == dv.StorageID
    &&& u16_at(b, p + 4) == dv.ObjectFormat
    &&& u16_at(b, p + 4 + 2) == dv.ProtectionStatus
    &&& u32_at(b, p + 4 + 2 + 2) == dv.ObjectCompressedSize
    &&& u16_at(b, p + 4 + 2 + 2 + 4) == dv.ThumbFormat
    &&& u32_at(b, p + 4 + 2 + 2 + 4 + 2) == dv.ThumbCompressedSize
    &&& u32_at(b, p + 4 + 2 + 2 + 4 + 2 + 4) == dv.ThumbPixWidth
    &&& u32_at(b, p + 4 + 2 + 2 + 4 + 2 + 4 + 4) == dv.ThumbPixHeight
    &&& u32_at(b, p + 4 + 2 + 2 + 4 + 2 + 4 + 4 + 4) == dv.ImagePixWidth
    &&& u32_at(b, p + 4 + 2 + 2 + 4 + 2 + 4 + 4 + 4 + 4) == dv.ImagePixHeight
    &&& u32_at(b, p + 4 + 2 + 2 + 4 + 2 + 4 + 4 + 4 + 4 + 4) == dv.ImageBitDepth
    &&& u32_at(b, p + 4 + 2 + 2 + 4 + 2 + 4 + 4 + 4 + 4 + 4 + 4) == dv.ParentObject
    &&& u16_at(b, p + 4 + 2 + 2 + 4 + 2 + 4 + 4 + 4 + 4 + 4 + 4 + 4) == dv.AssociationType
    &&& u32_at(b, p + 4 + 2 + 2 + 4 + 2 + 4 + 4 + 4 + 4 + 4 + 4 + 4 + 2) == dv.AssociationDesc
    &&& u32_at(b, p + 4 + 2 + 2 + 4 + 2 + 4 + 4 + 4 + 4 + 4 + 4 + 4 + 2 + 4) == dv.SequenceNumber
    &&& b.subrange(p + 4 + 2 + 2 + 4 + 2 + 4 + 4 + 4 + 4 + 4 + 4 + 4 + 2 + 4 + 4, p + 4 + 2 + 2 + 4 + 2 + 4 + 4 + 4 + 4 + 4 + 4 + 4 + 2 + 4 + 4 + spec_ptp_str(dv.Filename).len()) == spec_ptp_str(dv.Filename)
    &&& b.subrange(p + 4 + 2 + 2 + 4 + 2 + 4 + 4 + 4 + 4 + 4 + 4 + 4 + 2 + 4 + 4 + spec_ptp_str(dv.Filename).len(), p + 4 + 2 + 2 + 4 + 2 + 4 + 4 + 4 + 4 + 4 + 4 + 4 + 2 + 4 + 4 + spec_ptp_str(dv.Filename).len() + spec_ptp_str(dv.CaptureDate).len()) == spec_ptp_str(dv.CaptureDate)
    &&& b.subrange(p + 4 + 2 + 2 + 4 + 2 + 4 + 4 + 4 + 4 + 4 + 4 + 4 + 2 + 4 + 4 + spec_ptp_str(dv.Filename).len() + spec_ptp_str(dv.CaptureDate).len(), p + 4 + 2 + 2 + 4 + 2 + 4 + 4 + 4 + 4 + 4 + 4 + 4 + 2 + 4 + 4 + spec_ptp_str(dv.Filename).len() + spec_ptp_str(dv.CaptureDate).len() + spec_ptp_str(dv.ModificationDate).len()) == spec_ptp_str(dv.ModificationDate)
    &&& b.subrange(p + 4 + 2 + 2 + 4 + 2 + 4 + 4 + 4 + 4 + 4 + 4 + 4 + 2 + 4 + 4 + spec_ptp_str(dv.Filename).len() + spec_ptp_str(dv.CaptureDate).len() + spec_ptp_str(dv.ModificationDate).len(), p + 4 + 2 + 2 + 4 + 2 + 4 + 4 + 4 + 4 + 4 + 4 + 4 + 2 + 4 + 4 + spec_ptp_str(dv.Filename).len() + spec_ptp_str(dv.CaptureDate).len() + spec_ptp_str(dv.ModificationDate).len() + spec_ptp_str(dv.Keywords).len()) == spec_ptp_str(dv.Keywords)
}

/// Where a dataset starting at `p` structurally ends, if the buffer
/// holds every field: each fixed-width field, counted array and string
/// in dataset order.
pub open spec fn object_info_end(b: Seq<u8>, p: int) -> Option<int> {
    match fixed_end(b, p, 4) {
        None => None,
        Some(p1) => match fixed_end(b, p1, 2) {
            None => None,
            Some(p2) => match fixed_end(b, p2, 2) {
                None => None,
                Some(p3) => match fixed_end(b, p3, 4) {
                    None => None,
                    Some(p4) => match fixed_end(b, p4, 2) {
                        None => None,
                        Some(p5) => match fixed_end(b, p5, 4) {
                            None => None,
                            Some(p6) => match fixed_end(b, p6, 4) {
                                None => None,
                                Some(p7) => match fixed_end(b, p7, 4) {
                                    None => None,
                                    Some(p8) => match fixed_end(b, p8, 4) {
                                        None => None,
                                        Some(p9) => match fixed_end(b, p9, 4) {
                                            None => None,
                                            Some(p10) => match fixed_end(b, p10, 4) {
                                                None => None,
                                                Some(p11) => match fixed_end(b, p11, 4) {
                                                    None => None,
                                                    Some(p12) => match fixed_end(b, p12, 2) {
                                                        None => None,
                                                        Some(p13) => match fixed_end(b, p13, 4) {
                                                            None => None,
                                                            Some(p14) => match fixed_end(b, p14, 4) {
                                                                None => None,
                                                                Some(p15) => match str_end(b, p15) {
                                                                    None => None,
                                                                    Some(p16) => match str_end(b, p16) {
                                                                        None => None,
                                                                        Some(p17) => match str_end(b, p17) {
                                                                            None => None,
                                                                            Some(p18) => match str_end(b, p18) {
                                                                                None => None,
                                                                                Some(p19) => Some(p19),
                                                                            },
                                                                        },
                                                                    },
                                                                },
                                                            },
                                                        },
                                                    },
                                                },
                                            },
                                        },
                                    },
                                },
                            },
                        },
                    },
                },
            },
        },
    }
}

/// The layout fact holds wherever the canonical encoding sits.
pub proof fn lemma_object_info_fields(b: Seq<u8>, p: int, dv: ObjectInfoV)
    requires
        object_info_encodable(dv),
        0 <= p,
        p + object_info_bytes(dv).len() <= b.len(),
        b.subrange(p, p + object_info_bytes(dv).len()) == object_info_bytes(dv),
    ensures
        object_info_laid_out(b, p, dv),
{
    let total = object_info_bytes(dv).len();
    lemma_le32(dv.StorageID);
    lemma_le16(dv.ObjectFormat);
    lemma_le16(dv.ProtectionStatus);
    lemma_le32(dv.ObjectCompressedSize);
    lemma_le16(dv.ThumbFormat);
    lemma_le32(dv.ThumbCompressedSize);
    lemma_le32(dv.ThumbPixWidth);
    lemma_le32(dv.ThumbPixHeight);
    lemma_le32(dv.ImagePixWidth);
    lemma_le32(dv.ImagePixHeight);
    lemma_le32(dv.ImageBitDepth);
    lemma_le32(dv.ParentObject);
    lemma_le16(dv.AssociationType);
    lemma_le32(dv.AssociationDesc);
    lemma_le32(dv.SequenceNumber);
    lemma_ptp_str_len(dv.Filename);
    lemma_ptp_str_len(dv.CaptureDate);
    lemma_ptp_str_len(dv.ModificationDate);
    lemma_ptp_str_len(dv.Keywords);
    assert(b.subrange(p, p + total) == object_info_bytes(dv));
    lemma_concat_parts(b, p, le32(dv.StorageID), le16(dv.ObjectFormat) + (le16(dv.ProtectionStatus) + (le32(dv.ObjectCompressedSize) + (le16(dv.ThumbFormat) + (le32(dv.ThumbCompressedSize) + (le32(dv.ThumbPixWidth) + (le32(dv.ThumbPixHeight) + (le32(dv.ImagePixWidth) + (le32(dv.ImagePixHeight) + (le32(dv.ImageBitDepth) + (le32(dv.ParentObject) + (le16(dv.AssociationType) + (le32(dv.AssociationDesc) + (le32(dv.SequenceNumber) + (spec_ptp_str(dv.Filename) + (spec_ptp_str(dv.CaptureDate) + (spec_ptp_str(dv.ModificationDate) + (spec_ptp_str(dv.Keywords)))))))))))))))))));
    lemma_concat_parts(b, p + 4, le16(dv.ObjectFormat), le16(dv.ProtectionStatus) + (le32(dv.ObjectCompressedSize) + (le16(dv.ThumbFormat) + (le32(dv.ThumbCompressedSize) + (le32(dv.ThumbPixWidth) + (le32(dv.ThumbPixHeight) + (le32(dv.ImagePixWidth) + (le32(dv.ImagePixHeight) + (le32(dv.ImageBitDepth) + (le32(dv.ParentObject) + (le16(dv.AssociationType) + (le32(dv.AssociationDesc) + (le32(dv.SequenceNumber) + (spec_ptp_str(dv.Filename) + (spec_ptp_str(dv.CaptureDate) + (spec_ptp_str(dv.ModificationDate) + (spec_ptp_str(dv.Keywords))))))))))))))))));
    lemma_concat_parts(b, p + 4 + 2, le16(dv.ProtectionStatus), le32(dv.ObjectCompressedSize) + (le16(dv.ThumbFormat) + (le32(dv.ThumbCompressedSize) + (le32(dv.ThumbPixWidth) + (le32(dv.ThumbPixHeight) + (le32(dv.ImagePixWidth) + (le32(dv.ImagePixHeight) + (le32(dv.ImageBitDepth) + (le32(dv.ParentObject) + (le16(dv.AssociationType) + (le32(dv.AssociationDesc) + (le32(dv.SequenceNumber) + (spec_ptp_str(dv.Filename) + (spec_ptp_str(dv.CaptureDate) + (spec_ptp_str(dv.ModificationDate) + (spec_ptp_str(dv.Keywords)))))))))))))))));
    lemma_concat_parts(b, p + 4 + 2 + 2, le32(dv.ObjectCompressedSize), le16(dv.ThumbFormat) + (le32(dv.ThumbCompressedSize) + (le32(dv.ThumbPixWidth) + (le32(dv.ThumbPixHeight) + (le32(dv.ImagePixWidth) + (le32(dv.ImagePixHeight) + (le32(dv.ImageBitDepth) + (le32(dv.ParentObject) + (le16(dv.AssociationType) + (le32(dv.AssociationDesc) + (le32(dv.SequenceNumber) + (spec_ptp_str(dv.Filename) + (spec_ptp_str(dv.CaptureDate) + (spec_ptp_str(dv.ModificationDate) + (spec_ptp_str(dv.Keywords))))))))))))))));
    lemma_concat_parts(b, p + 4 + 2 + 2 + 4, le16(dv.ThumbFormat), le32(dv.ThumbCompressedSize) + (le32(dv.ThumbPixWidth) + (le32(dv.ThumbPixHeight) + (le32(dv.ImagePixWidth) + (le32(dv.ImagePixHeight) + (le32(dv.ImageBitDepth) + (le32(dv.ParentObject) + (le16(dv.AssociationType) + (le32(dv.AssociationDesc) + (le32(dv.SequenceNumber) + (spec_ptp_str(dv.Filename) + (spec_ptp_str(dv.CaptureDate) + (spec_ptp_str(dv.ModificationDate) + (spec_ptp_str(dv.Keywords)))))))))))))));
    lemma_concat_parts(b, p + 4 + 2 + 2 + 4 + 2, le32(dv.ThumbCompressedSize), le32(dv.ThumbPixWidth) + (le32(dv.ThumbPixHeight) + (le32(dv.ImagePixWidth) + (le32(dv.ImagePixHeight) + (le32(dv.ImageBitDepth) + (le32(dv.ParentObject) + (le16(dv.AssociationType) + (le32(dv.AssociationDesc) + (le32(dv.SequenceNumber) + (spec_ptp_str(dv.Filename) + (spec_ptp_str(dv.CaptureDate) + (spec_ptp_str(dv.ModificationDate) + (spec_ptp_str(dv.Keywords))))))))))))));
    lemma_concat_parts(b, p + 4 + 2 + 2 + 4 + 2 + 4, le32(dv.ThumbPixWidth), le32(dv.ThumbPixHeight) + (le32(dv.ImagePixWidth) + (le32(dv.ImagePixHeight) + (le32(dv.ImageBitDepth) + (le32(dv.ParentObject) + (le16(dv.AssociationType) + (le32(dv.AssociationDesc) + (le32(dv.SequenceNumber) + (spec_ptp_str(dv.Filename) + (spec_ptp_str(dv.CaptureDate) + (spec_ptp_str(dv.ModificationDate) + (spec_ptp_str(dv.Keywords)))))))))))));
    lemma_concat_parts(b, p + 4 + 2 + 2 + 4 + 2 + 4 + 4, le32(dv.ThumbPixHeight), le32(dv.ImagePixWidth) + (le32(dv.ImagePixHeight) + (le32(dv.ImageBitDepth) + (le32(dv.ParentObject) + (le16(dv.AssociationType) + (le32(dv.AssociationDesc) + (le32(dv.SequenceNumber) + (spec_ptp_str(dv.Filename) + (spec_ptp_str(dv.CaptureDate) + (spec_ptp_str(dv.ModificationDate) + (spec_ptp_str(dv.Keywords))))))))))));
    lemma_concat_parts(b, p + 4 + 2 + 2 + 4 + 2 + 4 + 4 + 4, le32(dv.ImagePixWidth), le32(dv.ImagePixHeight) + (le32(dv.ImageBitDepth) + (le32(dv.ParentObject) + (le16(dv.AssociationType) + (le32(dv.AssociationDesc) + (le32(dv.SequenceNumber) + (spec_ptp_str(dv.Filename) + (spec_ptp_str(dv.CaptureDate) + (spec_ptp_str(dv.ModificationDate) + (spec_ptp_str(dv.Keywords)))))))))));
    lemma_concat_parts(b, p + 4 + 2 + 2 + 4 + 2 + 4 + 4 + 4 + 4, le32(dv.ImagePixHeight), le32(dv.ImageBitDepth) + (le32(dv.ParentObject) + (le16(dv.AssociationType) + (le32(dv.AssociationDesc) + (le32(dv.SequenceNumber) + (spec_ptp_str(dv.Filename) + (spec_ptp_str(dv.CaptureDate) + (spec_ptp_str(dv.ModificationDate) + (spec_ptp_str(dv.Keywords))))))))));
    lemma_concat_parts(b, p + 4 + 2 + 2 + 4 + 2 + 4 + 4 + 4 + 4 + 4, le32(dv.ImageBitDepth), le32(dv.ParentObject) + (le16(dv.AssociationType) + (le32(dv.AssociationDesc) + (le32(dv.SequenceNumber) + (spec_ptp_str(dv.Filename) + (spec_ptp_str(dv.CaptureDate) + (spec_ptp_str(dv.ModificationDate) + (spec_ptp_str(dv.Keywords)))))))));
    lemma_concat_parts(b, p + 4 + 2 + 2 + 4 + 2 + 4 + 4 + 4 + 4 + 4 + 4, le32(dv.ParentObject), le16(dv.AssociationType) + (le32(dv.AssociationDesc) + (le32(dv.SequenceNumber) + (spec_ptp_str(dv.Filename) + (spec_ptp_str(dv.CaptureDate) + (spec_ptp_str(dv.ModificationDate) + (spec_ptp_str(dv.Keywords))))))));
    lemma_concat_parts(b, p + 4 + 2 + 2 + 4 + 2 + 4 + 4 + 4 + 4 + 4 + 4 + 4, le16(dv.AssociationType), le32(dv.AssociationDesc) + (le32(dv.SequenceNumber) + (spec_ptp_str(dv.Filename) + (spec_ptp_str(dv.CaptureDate) + (spec_ptp_str(dv.ModificationDate) + (spec_ptp_str(dv.Keywords)))))));
    lemma_concat_parts(b, p + 4 + 2 + 2 + 4 + 2 + 4 + 4 + 4 + 4 + 4 + 4 + 4 + 2, le32(dv.AssociationDesc), le32(dv.SequenceNumber) + (spec_ptp_str(dv.Filename) + (spec_ptp_str(dv.CaptureDate) + (spec_ptp_str(dv.ModificationDate) + (spec_ptp_str(dv.Keywords))))));
    lemma_concat_parts(b, p + 4 + 2 + 2 + 4 + 2 + 4 + 4 + 4 + 4 + 4 + 4 + 4 + 2 + 4, le32(dv.SequenceNumber), spec_ptp_str(dv.Filename) + (spec_ptp_str(dv.CaptureDate) + (spec_ptp_str(dv.ModificationDate) + (spec_ptp_str(dv.Keywords)))));
    lemma_concat_parts(b, p + 4 + 2 + 2 + 4 + 2 + 4 + 4 + 4 + 4 + 4 + 4 + 4 + 2 + 4 + 4, spec_ptp_str(dv.Filename), spec_ptp_str(dv.CaptureDate) + (spec_ptp_str(dv.ModificationDate) + (spec_ptp_str(dv.Keywords))));
    lemma_concat_parts(b, p + 4 + 2 + 2 + 4 + 2 + 4 + 4 + 4 + 4 + 4 + 4 + 4 + 2 + 4 + 4 + spec_ptp_str(dv.Filename).len(), spec_ptp_str(dv.CaptureDate), spec_ptp_str(dv.ModificationDate) + (spec_ptp_str(dv.Keywords)));
    lemma_concat_parts(b, p + 4 + 2 + 2 + 4 + 2 + 4 + 4 + 4 + 4 + 4 + 4 + 4 + 2 + 4 + 4 + spec_ptp_str(dv.Filename).len() + spec_ptp_str(dv.CaptureDate).len(), spec_ptp_str(dv.ModificationDate), spec_ptp_str(dv.Keywords));
    assert(u32_at(b, p) == dv.StorageID) by {
        assert(b.subrange(p, p + 4) == le32(dv.StorageID));
        vstd::bytes::lemma_auto_spec_u32_to_from_le_bytes();
    }
    assert(u16_at(b, p + 4) == dv.ObjectFormat) by {
        assert(b.subrange(p + 4, p + 4 + 2) == le16(dv.ObjectFormat));
        vstd::bytes::lemma_auto_spec_u16_to_from_le_bytes();
    }
    assert(u16_at(b, p + 4 + 2) == dv.ProtectionStatus) by {
        assert(b.subrange(p + 4 + 2, p + 4 + 2 + 2) == le16(dv.ProtectionStatus));
        vstd::bytes::lemma_auto_spec_u16_to_from_le_bytes();
    }
    assert(u32_at(b, p + 4 + 2 + 2) == dv.ObjectCompressedSize) by {
        assert(b.subrange(p + 4 + 2 + 2, p + 4 + 2 + 2 + 4) == le32(dv.ObjectCompressedSize));
        vstd::bytes::lemma_auto_spec_u32_to_from_le_bytes();
    }
    assert(u16_at(b, p + 4 + 2 + 2 + 4) == dv.ThumbFormat) by {
        assert(b.subrange(p + 4 + 2 + 2 + 4, p + 4 + 2 + 2 + 4 + 2) == le16(dv.ThumbFormat));
        vstd::bytes::lemma_auto_spec_u16_to_from_le_bytes();
    }
    assert(u32_at(b, p + 4 + 2 + 2 + 4 + 2) == dv.ThumbCompressedSize) by {
        assert(b.subrange(p + 4 + 2 + 2 + 4 + 2, p + 4 + 2 + 2 + 4 + 2 + 4) == le32(dv.ThumbCompressedSize));
        vstd::bytes::lemma_auto_spec_u32_to_from_le_bytes();
    }
    assert(u32_at(b, p + 4 + 2 + 2 + 4 + 2 + 4) == dv.ThumbPixWidth) by {
        assert(b.subrange(p + 4 + 2 + 2 + 4 + 2 + 4, p + 4 + 2 + 2 + 4 + 2 + 4 + 4) == le32(dv.ThumbPixWidth));
        vstd::bytes::lemma_auto_spec_u32_to_from_le_bytes();
    }
    assert(u32_at(b, p + 4 + 2 + 2 + 4 + 2 + 4 + 4) == dv.ThumbPixHeight) by {
        assert(b.subrange(p + 4 + 2 + 2 + 4 + 2 + 4 + 4, p + 4 + 2 + 2 + 4 + 2 + 4 + 4 + 4) == le32(dv.ThumbPixHeight));
        vstd::bytes::lemma_auto_spec_u32_to_from_le_bytes();
    }
    assert(u32_at(b, p + 4 + 2 + 2 + 4 + 2 + 4 + 4 + 4) == dv.ImagePixWidth) by {
        assert(b.subrange(p + 4 + 2 + 2 + 4 + 2 + 4 + 4 + 4, p + 4 + 2 + 2 + 4 + 2 + 4 + 4 + 4 + 4) == le32(dv.ImagePixWidth));
        vstd::bytes::lemma_auto_spec_u32_to_from_le_bytes();
    }
    assert(u32_at(b, p + 4 + 2 + 2 + 4 + 2 + 4 + 4 + 4 + 4) == dv.ImagePixHeight) by {
        assert(b.subrange(p + 4 + 2 + 2 + 4 + 2 + 4 + 4 + 4 + 4, p + 4 + 2 + 2 + 4 + 2 + 4 + 4 + 4 + 4 + 4) == le32(dv.ImagePixHeight));
        vstd::bytes::lemma_auto_spec_u32_to_from_le_bytes();
    }
    assert(u32_at(b, p + 4 + 2 + 2 + 4 + 2 + 4 + 4 + 4 + 4 + 4) == dv.ImageBitDepth) by {
        assert(b.subrange(p + 4 + 2 + 2 + 4 + 2 + 4 + 4 + 4 + 4 + 4, p + 4 + 2 + 2 + 4 + 2 + 4 + 4 + 4 + 4 + 4 + 4) == le32(dv.ImageBitDepth));
        vstd::bytes::lemma_auto_spec_u32_to_from_le_bytes();
    }
    assert(u32_at(b, p + 4 + 2 + 2 + 4 + 2 + 4 + 4 + 4 + 4 + 4 + 4) == dv.ParentObject) by {
        assert(b.subrange(p + 4 + 2 + 2 + 4 + 2 + 4 + 4 + 4 + 4 + 4 + 4, p + 4 + 2 + 2 + 4 + 2 + 4 + 4 + 4 + 4 + 4 + 4 + 4) == le32(dv.ParentObject));
        vstd::bytes::lemma_auto_spec_u32_to_from_le_bytes();
    }
    assert(u16_at(b, p + 4 + 2 + 2 + 4 + 2 + 4 + 4 + 4 + 4 + 4 + 4 + 4) == dv.AssociationType) by {
        assert(b.subrange(p + 4 + 2 + 2 + 4 + 2 + 4 + 4 + 4 + 4 + 4 + 4 + 4, p + 4 + 2 + 2 + 4 + 2 + 4 + 4 + 4 + 4 + 4 + 4 + 4 + 2) == le16(dv.AssociationType));
        vstd::bytes::lemma_auto_spec_u16_to_from_le_bytes();
    }
    assert(u32_at(b, p + 4 + 2 + 2 + 4 + 2 + 4 + 4 + 4 + 4 + 4 + 4 + 4 + 2) == dv.AssociationDesc) by {
        assert(b.subrange(p + 4 + 2 + 2 + 4 + 2 + 4 + 4 + 4 + 4 + 4 + 4 + 4 + 2, p + 4 + 2 + 2 + 4 + 2 + 4 + 4 + 4 + 4 + 4 + 4 + 4 + 2 + 4) == le32(dv.AssociationDesc));
        vstd::bytes::lemma_auto_spec_u32_to_from_le_bytes();
    }
    assert(u32_at(b, p + 4 + 2 + 2 + 4 + 2 + 4 + 4 + 4 + 4 + 4 + 4 + 4 + 2 + 4) == dv.SequenceNumber) by {
        assert(b.subrange(p + 4 + 2 + 2 + 4 + 2 + 4 + 4 + 4 + 4 + 4 + 4 + 4 + 2 + 4, p + 4 + 2 + 2 + 4 + 2 + 4 + 4 + 4 + 4 + 4 + 4 + 4 + 2 + 4 + 4) == le32(dv.SequenceNumber));
        vstd::bytes::lemma_auto_spec_u32_to_from_le_bytes();
    }
}

impl PtpObjectInfo {
    /// Parse one dataset from a whole buffer; trailing bytes are rejected as malformed.
    #[verifier::rlimit(100)]
    #[verifier::spinoff_prover]
    pub fn decode(buf: &[u8]) -> (r: Result<PtpObjectInfo, Error>)
        ensures
            r is Err ==> r->Err_0 is Malformed,
            object_info_end(buf@, 0) is None ==> r is Err && (r->Err_0 == Error::Malformed(
                MalformedKind::UnexpectedEnd,
            ) || r->Err_0 == Error::Malformed(MalformedKind::InvalidUtf16)),
            r is Ok ==> object_info_end(buf@, 0) == Some(buf@.len() as int),
            forall|dv: ObjectInfoV| #![trigger object_info_bytes(dv)]
                object_info_encodable(dv) && buf@ == object_info_bytes(dv) ==> r is Ok && r->Ok_0@ == dv,
    {
        let ghost b = buf@;
        let mut cur = Reader::new(buf);
        proof {
            assert forall|dv: ObjectInfoV| #![trigger object_info_bytes(dv)]
                object_info_encodable(dv) && b == object_info_bytes(dv) implies object_info_laid_out(b, 0, dv) by {
                assert(b.subrange(0, object_info_bytes(dv).len() as int) =~= b);
                lemma_object_info_fields(b, 0, dv);
            }
        }
        let fStorageID = match cur.read_ptp_u32() {
            Ok(v) => v,
            Err(e) => {
                proof {
                    assert forall|dv: ObjectInfoV| #![trigger object_info_bytes(dv)]
                        object_info_encodable(dv) && b == object_info_bytes(dv) implies false by {
                        assert(object_info_laid_out(b, 0, dv));
                    }
                }
                return Err(e);
            },
        };
        proof {
            assert forall|dv: ObjectInfoV| #![trigger object_info_bytes(dv)]
                object_info_encodable(dv) && b == object_info_bytes(dv) implies fStorageID == dv.StorageID && cur.position() == 0 + 4 by {
                assert(object_info_laid_out(b, 0, dv));
            }
        }
        let fObjectFormat = match cur.read_ptp_u16() {
            Ok(v) => v,
            Err(e) => {
                proof {
                    assert forall|dv: ObjectInfoV| #![trigger object_info_bytes(dv)]
                        object_info_encodable(dv) && b == object_info_bytes(dv) implies false by {
                        assert(object_info_laid_out(b, 0, dv));
                    }
                }
                return Err(e);
            },
        };
        proof {
            assert forall|dv: ObjectInfoV| #![trigger object_info_bytes(dv)]
                object_info_encodable(dv) && b == object_info_bytes(dv) implies fObjectFormat == dv.ObjectFormat && cur.position() == 0 + 4 + 2 by {
                assert(object_info_laid_out(b, 0, dv));
            }
        }
        let fProtectionStatus = match cur.read_ptp_u16() {
            Ok(v) => v,
            Err(e) => {
                proof {
                    assert forall|dv: ObjectInfoV| #![trigger object_info_bytes(dv)]
                        object_info_encodable(dv) && b == object_info_bytes(dv) implies false by {
                        assert(object_info_laid_out(b, 0, dv));
                    }
                }
                return Err(e);
            },
        };
        proof {
            assert forall|dv: ObjectInfoV| #![trigger object_info_bytes(dv)]
                object_info_encodable(dv) && b == object_info_bytes(dv) implies fProtectionStatus == dv.ProtectionStatus && cur.position() == 0 + 4 + 2 + 2 by {
                assert(object_info_laid_out(b, 0, dv));
            }
        }
        let fObjectCompressedSize = match cur.read_ptp_u32() {
            Ok(v) => v,
            Err(e) => {
                proof {
                    assert forall|dv: ObjectInfoV| #![trigger object_info_bytes(dv)]
                        object_info_encodable(dv) && b == object_info_bytes(dv) implies false by {
                        assert(object_info_laid_out(b, 0, dv));
                    }
                }
                return Err(e);
            },
        };
        proof {
            assert forall|dv: ObjectInfoV| #![trigger object_info_bytes(dv)]
                object_info_encodable(dv) && b == object_info_bytes(dv) implies fObjectCompressedSize == dv.ObjectCompressedSize && cur.position() == 0 + 4 + 2 + 2 + 4 by {
                assert(object_info_laid_out(b, 0, dv));
            }
        }
        let fThumbFormat = match cur.read_ptp_u16() {
            Ok(v) => v,
            Err(e) => {
                proof {
                    assert forall|dv: ObjectInfoV| #![trigger object_info_bytes(dv)]
                        object_info_encodable(dv) && b == object_info_bytes(dv) implies false by {
                        assert(object_info_laid_out(b, 0, dv));
                    }
                }
                return Err(e);
            },
        };
        proof {
            assert forall|dv: ObjectInfoV| #![trigger object_info_bytes(dv)]
                object_info_encodable(dv) && b == object_info_bytes(dv) implies fThumbFormat == dv.ThumbFormat && cur.position() == 0 + 4 + 2 + 2 + 4 + 2 by {
                assert(object_info_laid_out(b, 0, dv));
            }
        }
        let fThumbCompressedSize = match cur.read_ptp_u32() {
            Ok(v) => v,
            Err(e) => {
                proof {
                    assert forall|dv: ObjectInfoV| #![trigger object_info_bytes(dv)]
                        object_info_encodable(dv) && b == object_info_bytes(dv) implies false by {
                        assert(object_info_laid_out(b, 0, dv));
                    }
                }
                return Err(e);
            },
        };
        proof {
            assert forall|dv: ObjectInfoV| #![trigger object_info_bytes(dv)]
                object_info_encodable(dv) && b == object_info_bytes(dv) implies fThumbCompressedSize == dv.ThumbCompressedSize && cur.position() == 0 + 4 + 2 + 2 + 4 + 2 + 4 by {
                assert(object_info_laid_out(b, 0, dv));
            }
        }
        let fThumbPixWidth = match cur.read_ptp_u32() {
            Ok(v) => v,
            Err(e) => {
                proof {
                    assert forall|dv: ObjectInfoV| #![trigger object_info_bytes(dv)]
                        object_info_encodable(dv) && b == object_info_bytes(dv) implies false by {
                        assert(object_info_laid_out(b, 0, dv));
                    }
                }
                return Err(e);
            },
        };
        proof {
            assert forall|dv: ObjectInfoV| #![trigger object_info_bytes(dv)]
                object_info_encodable(dv) && b == object_info_bytes(dv) implies fThumbPixWidth == dv.ThumbPixWidth && cur.position() == 0 + 4 + 2 + 2 + 4 + 2 + 4 + 4 by {
                assert(object_info_laid_out(b, 0, dv));
            }
        }
        let fThumbPixHeight = match cur.read_ptp_u32() {
            Ok(v) => v,
            Err(e) => {
                proof {
                    assert forall|dv: ObjectInfoV| #![trigger object_info_bytes(dv)]
                        object_info_encodable(dv) && b == object_info_bytes(dv) implies false by {
                        assert(object_info_laid_out(b, 0, dv));
                    }
                }
                return Err(e);
            },
        };
        proof {
            assert forall|dv: ObjectInfoV| #![trigger object_info_bytes(dv)]
                object_info_encodable(dv) && b == object_info_bytes(dv) implies fThumbPixHeight == dv.ThumbPixHeight && cur.position() == 0 + 4 + 2 + 2 + 4 + 2 + 4 + 4 + 4 by {
                assert(object_info_laid_out(b, 0, dv));
            }
        }
        let fImagePixWidth = match cur.read_ptp_u32() {
            Ok(v) => v,
            Err(e) => {
                proof {
                    assert forall|dv: ObjectInfoV| #![trigger object_info_bytes(dv)]
                        object_info_encodable(dv) && b == object_info_bytes(dv) implies false by {
                        assert(object_info_laid_out(b, 0, dv));
                    }
                }
                return Err(e);
            },
        };
        proof {
            assert forall|dv: ObjectInfoV| #![trigger object_info_bytes(dv)]
                object_info_encodable(dv) && b == object_info_bytes(dv) implies fImagePixWidth == dv.ImagePixWidth && cur.position() == 0 + 4 + 2 + 2 + 4 + 2 + 4 + 4 + 4 + 4 by {
                assert(object_info_laid_out(b, 0, dv));
            }
        }
        let fImagePixHeight = match cur.read_ptp_u32() {
            Ok(v) => v,
            Err(e) => {
                proof {
                    assert forall|dv: ObjectInfoV| #![trigger object_info_bytes(dv)]
                        object_info_encodable(dv) && b == object_info_bytes(dv) implies false by {
                        assert(object_info_laid_out(b, 0, dv));
                    }
                }
                return Err(e);
            },
        };
        proof {
            assert forall|dv: ObjectInfoV| #![trigger object_info_bytes(dv)]
                object_info_encodable(dv) && b == object_info_bytes(dv) implies fImagePixHeight == dv.ImagePixHeight && cur.position() == 0 + 4 + 2 + 2 + 4 + 2 + 4 + 4 + 4 + 4 + 4 by {
                assert(object_info_laid_out(b, 0, dv));
            }
        }
        let fImageBitDepth = match cur.read_ptp_u32() {
            Ok(v) => v,
            Err(e) => {
                proof {
                    assert forall|dv: ObjectInfoV| #![trigger object_info_bytes(dv)]
                        object_info_encodable(dv) && b == object_info_bytes(dv) implies false by {
                        assert(object_info_laid_out(b, 0, dv));
                    }
                }
                return Err(e);
            },
        };
        proof {
            assert forall|dv: ObjectInfoV| #![trigger object_info_bytes(dv)]
                object_info_encodable(dv) && b == object_info_bytes(dv) implies fImageBitDepth == dv.ImageBitDepth && cur.position() == 0 + 4 + 2 + 2 + 4 + 2 + 4 + 4 + 4 + 4 + 4 + 4 by {
                assert(object_info_laid_out(b, 0, dv));
            }
        }
        let fParentObject = match cur.read_ptp_u32() {
            Ok(v) => v,
            Err(e) => {
                proof {
                    assert forall|dv: ObjectInfoV| #![trigger object_info_bytes(dv)]
                        object_info_encodable(dv) && b == object_info_bytes(dv) implies false by {
                        assert(object_info_laid_out(b, 0, dv));
                    }
                }
                return Err(e);
            },
        };
        proof {
            assert forall|dv: ObjectInfoV| #![trigger object_info_bytes(dv)]
                object_info_encodable(dv) && b == object_info_bytes(dv) implies fParentObject == dv.ParentObject && cur.position() == 0 + 4 + 2 + 2 + 4 + 2 + 4 + 4 + 4 + 4 + 4 + 4 + 4 by {
                assert(object_info_laid_out(b, 0, dv));
            }
        }
        let fAssociationType = match cur.read_ptp_u16() {
            Ok(v) => v,
            Err(e) => {
                proof {
                    assert forall|dv: ObjectInfoV| #![trigger object_info_bytes(dv)]
                        object_info_encodable(dv) && b == object_info_bytes(dv) implies false by {
                        assert(object_info_laid_out(b, 0, dv));
                    }
                }
                return Err(e);
            },
        };
        proof {
            assert forall|dv: ObjectInfoV| #![trigger object_info_bytes(dv)]
                object_info_encodable(dv) && b == object_info_bytes(dv) implies fAssociationType == dv.AssociationType && cur.position() == 0 + 4 + 2 + 2 + 4 + 2 + 4 + 4 + 4 + 4 + 4 + 4 + 4 + 2 by {
                assert(object_info_laid_out(b, 0, dv));
            }
        }
        let fAssociationDesc = match cur.read_ptp_u32() {
            Ok(v) => v,
            Err(e) => {
                proof {
                    assert forall|dv: ObjectInfoV| #![trigger object_info_bytes(dv)]
                        object_info_encodable(dv) && b == object_info_bytes(dv) implies false by {
                        assert(object_info_laid_out(b, 0, dv));
                    }
                }
                return Err(e);
            },
        };
        proof {
            assert forall|dv: ObjectInfoV| #![trigger object_info_bytes(dv)]
                object_info_encodable(dv) && b == object_info_bytes(dv) implies fAssociationDesc == dv.AssociationDesc && cur.position() == 0 + 4 + 2 + 2 + 4 + 2 + 4 + 4 + 4 + 4 + 4 + 4 + 4 + 2 + 4 by {
                assert(object_info_laid_out(b, 0, dv));
            }
        }
        let fSequenceNumber = match cur.read_ptp_u32() {
            Ok(v) => v,
            Err(e) => {
                proof {
                    assert forall|dv: ObjectInfoV| #![trigger object_info_bytes(dv)]
                        object_info_encodable(dv) && b == object_info_bytes(dv) implies false by {
                        assert(object_info_laid_out(b, 0, dv));
                    }
                }
                return Err(e);
            },
        };
        proof {
            assert forall|dv: ObjectInfoV| #![trigger object_info_bytes(dv)]
                object_info_encodable(dv) && b == object_info_bytes(dv) implies fSequenceNumber == dv.SequenceNumber && cur.position() == 0 + 4 + 2 + 2 + 4 + 2 + 4 + 4 + 4 + 4 + 4 + 4 + 4 + 2 + 4 + 4 by {
                assert(object_info_laid_out(b, 0, dv));
            }
        }
        let fFilename = match read_str_field(&mut cur) {
            Ok(v) => v,
            Err(e) => {
                proof {
                    assert forall|dv: ObjectInfoV| #![trigger object_info_bytes(dv)]
                        object_info_encodable(dv) && b == object_info_bytes(dv) implies false by {
                        assert(object_info_laid_out(b, 0, dv));
                    }
                }
                return Err(e);
            },
        };
        proof {
            assert forall|dv: ObjectInfoV| #![trigger object_info_bytes(dv)]
                object_info_encodable(dv) && b == object_info_bytes(dv) implies fFilename@ == dv.Filename && cur.position() == 0 + 4 + 2 + 2 + 4 + 2 + 4 + 4 + 4 + 4 + 4 + 4 + 4 + 2 + 4 + 4 + spec_ptp_str(dv.Filename).len() by {
                assert(object_info_laid_out(b, 0, dv));
            }
        }
        let fCaptureDate = match read_str_field(&mut cur) {
            Ok(v) => v,
            Err(e) => {
                proof {
                    assert forall|dv: ObjectInfoV| #![trigger object_info_bytes(dv)]
                        object_info_encodable(dv) && b == object_info_bytes(dv) implies false by {
                        assert(object_info_laid_out(b, 0, dv));
                    }
                }
                return Err(e);
            },
        };
        proof {
            assert forall|dv: ObjectInfoV| #![trigger object_info_bytes(dv)]
                object_info_encodable(dv) && b == object_info_bytes(dv) implies fCaptureDate@ == dv.CaptureDate && cur.position() == 0 + 4 + 2 + 2 + 4 + 2 + 4 + 4 + 4 + 4 + 4 + 4 + 4 + 2 + 4 + 4 + spec_ptp_str(dv.Filename).len() + spec_ptp_str(dv.CaptureDate).len() by {
                assert(object_info_laid_out(b, 0, dv));
            }
        }
        let fModificationDate = match read_str_field(&mut cur) {
            Ok(v) => v,
            Err(e) => {
                proof {
                    assert forall|dv: ObjectInfoV| #![trigger object_info_bytes(dv)]
                        object_info_encodable(dv) && b == object_info_bytes(dv) implies false by {
                        assert(object_info_laid_out(b, 0, dv));
                    }
                }
                return Err(e);
            },
        };
        proof {
            assert forall|dv: ObjectInfoV| #![trigger object_info_bytes(dv)]
                object_info_encodable(dv) && b == object_info_bytes(dv) implies fModificationDate@ == dv.ModificationDate && cur.position() == 0 + 4 + 2 + 2 + 4 + 2 + 4 + 4 + 4 + 4 + 4 + 4 + 4 + 2 + 4 + 4 + spec_ptp_str(dv.Filename).len() + spec_ptp_str(dv.CaptureDate).len() + spec_ptp_str(dv.ModificationDate).len() by {
                assert(object_info_laid_out(b, 0, dv));
            }
        }
        let fKeywords = match read_str_field(&mut cur) {
            Ok(v) => v,
            Err(e) => {
                proof {
                    assert forall|dv: ObjectInfoV| #![trigger object_info_bytes(dv)]
                        object_info_encodable(dv) && b == object_info_bytes(dv) implies false by {
                        assert(object_info_laid_out(b, 0, dv));
                    }
                }
                return Err(e);
            },
        };
        proof {
            assert forall|dv: ObjectInfoV| #![trigger object_info_bytes(dv)]
                object_info_encodable(dv) && b == object_info_bytes(dv) implies fKeywords@ == dv.Keywords && cur.position() == 0 + 4 + 2 + 2 + 4 + 2 + 4 + 4 + 4 + 4 + 4 + 4 + 4 + 2 + 4 + 4 + spec_ptp_str(dv.Filename).len() + spec_ptp_str(dv.CaptureDate).len() + spec_ptp_str(dv.ModificationDate).len() + spec_ptp_str(dv.Keywords).len() by {
                assert(object_info_laid_out(b, 0, dv));
            }
        }
        proof {
            assert(object_info_end(b, 0) == Some(cur.position()));
        }
        match cur.expect_end() {
            Ok(_) => {},
            Err(e) => {
                proof {
                    assert forall|dv: ObjectInfoV| #![trigger object_info_bytes(dv)]
                        object_info_encodable(dv) && b == object_info_bytes(dv) implies false by {
                        assert(object_info_laid_out(b, 0, dv));
                    }
                }
                return Err(e);
            },
        }
        let ret = PtpObjectInfo { StorageID: fStorageID, ObjectFormat: fObjectFormat, ProtectionStatus: fProtectionStatus, ObjectCompressedSize: fObjectCompressedSize, ThumbFormat: fThumbFormat, ThumbCompressedSize: fThumbCompressedSize, ThumbPixWidth: fThumbPixWidth, ThumbPixHeight: fThumbPixHeight, ImagePixWidth: fImagePixWidth, ImagePixHeight: fImagePixHeight, ImageBitDepth: fImageBitDepth, ParentObject: fParentObject, AssociationType: fAssociationType, AssociationDesc: fAssociationDesc, SequenceNumber: fSequenceNumber, Filename: fFilename, CaptureDate: fCaptureDate, ModificationDate: fModificationDate, Keywords: fKeywords };
        proof {
            assert forall|dv: ObjectInfoV| #![trigger object_info_bytes(dv)]
                object_info_encodable(dv) && b == object_info_bytes(dv) implies ret@ == dv by {
                assert(object_info_laid_out(b, 0, dv));
            }
        }
        Ok(ret)
    }

    /// Serialize this dataset to its canonical wire bytes.
    #[verifier::rlimit(100)]
    #[verifier::spinoff_prover]
    pub fn encode(&self) -> (r: Result<Vec<u8>, Error>)
        ensures
            r is Ok ==> r->Ok_0@ == object_info_bytes(self@),
            object_info_encodable(self@) ==> r is Ok,
            r is Err ==> r->Err_0 is Malformed,
    {
        let mut out: Vec<u8> = Vec::new();
        let ghost e0 = le32(self@.StorageID);
        let ghost e1 = le16(self@.ObjectFormat);
        let ghost e2 = le16(self@.ProtectionStatus);
        let ghost e3 = le32(self@.ObjectCompressedSize);
        let ghost e4 = le16(self@.ThumbFormat);
        let ghost e5 = le32(self@.ThumbCompressedSize);
        let ghost e6 = le32(self@.ThumbPixWidth);
        let ghost e7 = le32(self@.ThumbPixHeight);
        let ghost e8 = le32(self@.ImagePixWidth);
        let ghost e9 = le32(self@.ImagePixHeight);
        let ghost e10 = le32(self@.ImageBitDepth);
        let ghost e11 = le32(self@.ParentObject);
        let ghost e12 = le16(self@.AssociationType);
        let ghost e13 = le32(self@.AssociationDesc);
        let ghost e14 = le32(self@.SequenceNumber);
        let ghost e15 = spec_ptp_str(self@.Filename);
        let ghost e16 = spec_ptp_str(self@.CaptureDate);
        let ghost e17 = spec_ptp_str(self@.ModificationDate);
        let ghost e18 = spec_ptp_str(self@.Keywords);
        let ghost t18 = e18;
        let ghost t17 = e17 + t18;
        let ghost t16 = e16 + t17;
        let ghost t15 = e15 + t16;
        let ghost t14 = e14 + t15;
        let ghost t13 = e13 + t14;
        let ghost t12 = e12 + t13;
        let ghost t11 = e11 + t12;
        let ghost t10 = e10 + t11;
        let ghost t9 = e9 + t10;
        let ghost t8 = e8 + t9;
        let ghost t7 = e7 + t8;
        let ghost t6 = e6 + t7;
        let ghost t5 = e5 + t6;
        let ghost t4 = e4 + t5;
        let ghost t3 = e3 + t4;
        let ghost t2 = e2 + t3;
        let ghost t1 = e1 + t2;
        let ghost t0 = e0 + t1;
        proof {
            assert(object_info_bytes(self@) == t0);
        }
        let ghost o0 = out@;
        proof {
            assert(o0 + t0 =~= t0);
        }
        write_u32(&mut out, self.StorageID);
        proof {
            assert(out@ =~= o0 + e0);
            assert(out@ + t1 =~= o0 + t0);
        }
        let ghost o1 = out@;
        write_u16(&mut out, self.ObjectFormat);
        proof {
            assert(out@ =~= o1 + e1);
            assert(out@ + t2 =~= o1 + t1);
        }
        let ghost o2 = out@;
        write_u16(&mut out, self.ProtectionStatus);
        proof {
            assert(out@ =~= o2 + e2);
            assert(out@ + t3 =~= o2 + t2);
        }
        let ghost o3 = out@;
        write_u32(&mut out, self.ObjectCompressedSize);
        proof {
            assert(out@ =~= o3 + e3);
            assert(out@ + t4 =~= o3 + t3);
        }
        let ghost o4 = out@;
        write_u16(&mut out, self.ThumbFormat);
        proof {
            assert(out@ =~= o4 + e4);
            assert(out@ + t5 =~= o4 + t4);
        }
        let ghost o5 = out@;
        write_u32(&mut out, self.ThumbCompressedSize);
        proof {
            assert(out@ =~= o5 + e5);
            assert(out@ + t6 =~= o5 + t5);
        }
        let ghost o6 = out@;
        write_u32(&mut out, self.ThumbPixWidth);
        proof {
            assert(out@ =~= o6 + e6);
            assert(out@ + t7 =~= o6 + t6);
        }
        let ghost o7 = out@;
        write_u32(&mut out, self.ThumbPixHeight);
        proof {
            assert(out@ =~= o7 + e7);
            assert(out@ + t8 =~= o7 + t7);
        }
        let ghost o8 = out@;
        write_u32(&mut out, self.ImagePixWidth);
        proof {
            assert(out@ =~= o8 + e8);
            assert(out@ + t9 =~= o8 + t8);
        }
        let ghost o9 = out@;
        write_u32(&mut out, self.ImagePixHeight);
        proof {
            assert(out@ =~= o9 + e9);
            assert(out@ + t10 =~= o9 + t9);
        }
        let ghost o10 = out@;
        write_u32(&mut out, self.ImageBitDepth);
        proof {
            assert(out@ =~= o10 + e10);
            assert(out@ + t11 =~= o10 + t10);
        }
        let ghost o11 = out@;
        write_u32(&mut out, self.ParentObject);
        proof {
            assert(out@ =~= o11 + e11);
            assert(out@ + t12 =~= o11 + t11);
        }
        let ghost o12 = out@;
        write_u16(&mut out, self.AssociationType);
        proof {
            assert(out@ =~= o12 + e12);
            assert(out@ + t13 =~= o12 + t12);
        }
        let ghost o13 = out@;
        write_u32(&mut out, self.AssociationDesc);
        proof {
            assert(out@ =~= o13 + e13);
            assert(out@ + t14 =~= o13 + t13);
        }
        let ghost o14 = out@;
        write_u32(&mut out, self.SequenceNumber);
        proof {
            assert(out@ =~= o14 + e14);
            assert(out@ + t15 =~= o14 + t14);
        }
        let ghost o15 = out@;
        match write_ptp_str(&mut out, self.Filename.as_str()) {
            Ok(_) => {},
            Err(e) => {
                return Err(e);
            },
        }
        proof {
            assert(out@ =~= o15 + e15);
            assert(out@ + t16 =~= o15 + t15);
        }
        let ghost o16 = out@;
        match write_ptp_str(&mut out, self.CaptureDate.as_str()) {
            Ok(_) => {},
            Err(e) => {
                return Err(e);
            },
        }
        proof {
            assert(out@ =~= o16 + e16);
            assert(out@ + t17 =~= o16 + t16);
        }
        let ghost o17 = out@;
        match write_ptp_str(&mut out, self.ModificationDate.as_str()) {
            Ok(_) => {},
            Err(e) => {
                return Err(e);
            },
        }
        proof {
            assert(out@ =~= o17 + e17);
            assert(out@ + t18 =~= o17 + t17);
        }
        let ghost o18 = out@;
        match write_ptp_str(&mut out, self.Keywords.as_str()) {
            Ok(_) => {},
            Err(e) => {
                return Err(e);
            },
        }
        proof {
            assert(out@ =~= o18 + e18);
            assert(out@ =~= o18 + t18);
            assert(out@ =~= t0);
        }
        Ok(out)
    }
}

/// The mathematical value of a `PtpStorageInfo`.
pub struct StorageInfoV {
    pub StorageType: u16,
    pub FilesystemType: u16,
    pub AccessCapability: u16,
    pub MaxCapacity: u64,
    pub FreeSpaceInBytes: u64,
    pub FreeSpaceInImages: u32,
    pub StorageDescription: Seq<char>,
    pub VolumeLabel: Seq<char>,
}

/// A StorageInfo dataset: one logical volume of the responder.
#[derive(Debug, PartialEq)]
pub struct PtpStorageInfo {
    pub StorageType: u16,
    pub FilesystemType: u16,
    pub AccessCapability: u16,
    pub MaxCapacity: u64,
    pub FreeSpaceInBytes: u64,
    pub FreeSpaceInImages: u32,
    pub StorageDescription: String,
    pub VolumeLabel: String,
}

impl View for PtpStorageInfo {
    type V = StorageInfoV;

    open spec fn view(&self) -> StorageInfoV {
        StorageInfoV {
            StorageType: self.StorageType,
            FilesystemType: self.FilesystemType,
            AccessCapability: self.AccessCapability,
            MaxCapacity: self.MaxCapacity,
            FreeSpaceInBytes: self.FreeSpaceInBytes,
            FreeSpaceInImages: self.FreeSpaceInImages,
            StorageDescription: self.StorageDescription@,
            VolumeLabel: self.VolumeLabel@,
        }
    }
}

/// Every variable-length field fits its length prefix.
pub open spec fn storage_info_encodable(dv: StorageInfoV) -> bool {
    str_encodable(dv.StorageDescription) && str_encodable(dv.VolumeLabel)
}

/// The canonical wire form: the fields in dataset order.
pub open spec fn storage_info_bytes(dv: StorageInfoV) -> Seq<u8> {
    le16(dv.StorageType) + (le16(dv.FilesystemType) + (le16(dv.AccessCapability) + (le64(dv.MaxCapacity) + (le64(dv.FreeSpaceInBytes) + (le32(dv.FreeSpaceInImages) + (spec_ptp_str(dv.StorageDescription) + (spec_ptp_str(dv.VolumeLabel))))))))
}

/// Where a dataset's canonical encoding sits at `p` in `b`, every field
/// stands at its offset with its encoded value.
pub open spec fn storage_info_laid_out(b: Seq<u8>, p: int, dv: StorageInfoV) -> bool {
    &&& storage_info_bytes(dv).len() == p + 2 + 2 + 2 + 8 + 8 + 4 + spec_ptp_str(dv.StorageDescription).len() + spec_ptp_str(dv.VolumeLabel).len() - p
    &&& u16_at(b, p) == dv.StorageType
    &&& u16_at(b, p + 2) == dv.FilesystemType
    &&& u16_at(b, p + 2 + 2) == dv.AccessCapability
    &&& u64_at(b, p + 2 + 2 + 2) == dv.MaxCapacity
    &&& u64_at(b, p + 2 + 2 + 2 + 8) == dv.FreeSpaceInBytes
    &&& u32_at(b, p + 2 + 2 + 2 + 8 + 8) == dv.FreeSpaceInImages
    &&& b.subrange(p + 2 + 2 + 2 + 8 + 8 + 4, p + 2 + 2 + 2 + 8 + 8 + 4 + spec_ptp_str(dv.StorageDescription).len()) == spec_ptp_str(dv.StorageDescription)
    &&& b.subrange(p + 2 + 2 + 2 + 8 + 8 + 4 + spec_ptp_str(dv.StorageDescription).len(), p + 2 + 2 + 2 + 8 + 8 + 4 + spec_ptp_str(dv.StorageDescription).len() + spec_ptp_str(dv.VolumeLabel).len()) == spec_ptp_str(dv.VolumeLabel)
}

/// Where a dataset starting at `p` structurally ends, if the buffer
/// holds every field: each fixed-width field, counted array and string
/// in dataset order.
pub open spec fn storage_info_end(b: Seq<u8>, p: int) -> Option<int> {
    match fixed_end(b, p, 2) {
        None => None,
        Some(p1) => match fixed_end(b, p1, 2) {
            None => None,
            Some(p2) => match fixed_end(b, p2, 2) {
                None => None,
                Some(p3) => match fixed_end(b, p3, 8) {
                    None => None,
                    Some(p4) => match fixed_end(b, p4, 8) {
                        None => None,
                        Some(p5) => match fixed_end(b, p5, 4) {
                            None => None,
                            Some(p6) => match str_end(b, p6) {
                                None => None,
                                Some(p7) => match str_end(b, p7) {
                                    None => None,
                                    Some(p8) => Some(p8),
                                },
                            },
                        },
                    },
                },
            },
        },
    }
}

/// The layout fact holds wherever the canonical encoding sits.
pub proof fn lemma_storage_info_fields(b: Seq<u8>, p: int, dv: StorageInfoV)
    requires
        storage_info_encodable(dv),
        0 <= p,
        p + storage_info_bytes(dv).len() <= b.len(),
        b.subrange(p, p + storage_info_bytes(dv).len()) == storage_info_bytes(dv),
    ensures
        storage_info_laid_out(b, p, dv),
{
    let total = storage_info_bytes(dv).len();
    lemma_le16(dv.StorageType);
    lemma_le16(dv.FilesystemType);
    lemma_le16(dv.AccessCapability);
    lemma_le64(dv.MaxCapacity);
    lemma_le64(dv.FreeSpaceInBytes);
    lemma_le32(dv.FreeSpaceInImages);
    lemma_ptp_str_len(dv.StorageDescription);
    lemma_ptp_str_len(dv.VolumeLabel);
    assert(b.subrange(p, p + total) == storage_info_bytes(dv));
    lemma_concat_parts(b, p, le16(dv.StorageType), le16(dv.FilesystemType) + (le16(dv.AccessCapability) + (le64(dv.MaxCapacity) + (le64(dv.FreeSpaceInBytes) + (le32(dv.FreeSpaceInImages) + (spec_ptp_str(dv.StorageDescription) + (spec_ptp_str(dv.VolumeLabel))))))));
    lemma_concat_parts(b, p + 2, le16(dv.FilesystemType), le16(dv.AccessCapability) + (le64(dv.MaxCapacity) + (le64(dv.FreeSpaceInBytes) + (le32(dv.FreeSpaceInImages) + (spec_ptp_str(dv.StorageDescription) + (spec_ptp_str(dv.VolumeLabel)))))));
    lemma_concat_parts(b, p + 2 + 2, le16(dv.AccessCapability), le64(dv.MaxCapacity) + (le64(dv.FreeSpaceInBytes) + (le32(dv.FreeSpaceInImages) + (spec_ptp_str(dv.StorageDescription) + (spec_ptp_str(dv.VolumeLabel))))));
    lemma_concat_parts(b, p + 2 + 2 + 2, le64(dv.MaxCapacity), le64(dv.FreeSpaceInBytes) + (le32(dv.FreeSpaceInImages) + (spec_ptp_str(dv.StorageDescription) + (spec_ptp_str(dv.VolumeLabel)))));
    lemma_concat_parts(b, p + 2 + 2 + 2 + 8, le64(dv.FreeSpaceInBytes), le32(dv.FreeSpaceInImages) + (spec_ptp_str(dv.StorageDescription) + (spec_ptp_str(dv.VolumeLabel))));
    lemma_concat_parts(b, p + 2 + 2 + 2 + 8 + 8, le32(dv.FreeSpaceInImages), spec_ptp_str(dv.StorageDescription) + (spec_ptp_str(dv.VolumeLabel)));
    lemma_concat_parts(b, p + 2 + 2 + 2 + 8 + 8 + 4, spec_ptp_str(dv.StorageDescription), spec_ptp_str(dv.VolumeLabel));
    assert(u16_at(b, p) == dv.StorageType) by {
        assert(b.subrange(p, p + 2) == le16(dv.StorageType));
        vstd::bytes::lemma_auto_spec_u16_to_from_le_bytes();
    }
    assert(u16_at(b, p + 2) == dv.FilesystemType) by {
        assert(b.subrange(p + 2, p + 2 + 2) == le16(dv.FilesystemType));
        vstd::bytes::lemma_auto_spec_u16_to_from_le_bytes();
    }
    assert(u16_at(b, p + 2 + 2) == dv.AccessCapability) by {
        assert(b.subrange(p + 2 + 2, p + 2 + 2 + 2) == le16(dv.AccessCapability));
        vstd::bytes::lemma_auto_spec_u16_to_from_le_bytes();
    }
    assert(u64_at(b, p + 2 + 2 + 2) == dv.MaxCapacity) by {
        assert(b.subrange(p + 2 + 2 + 2, p + 2 + 2 + 2 + 8) == le64(dv.MaxCapacity));
        vstd::bytes::lemma_auto_spec_u64_to_from_le_bytes();
    }
    assert(u64_at(b, p + 2 + 2 + 2 + 8) == dv.FreeSpaceInBytes) by {
        assert(b.subrange(p + 2 + 2 + 2 + 8, p + 2 + 2 + 2 + 8 + 8) == le64(dv.FreeSpaceInBytes));
        vstd::bytes::lemma_auto_spec_u64_to_from_le_bytes();
    }
    assert(u32_at(b, p + 2 + 2 + 2 + 8 + 8) == dv.FreeSpaceInImages) by {
        assert(b.subrange(p + 2 + 2 + 2 + 8 + 8, p + 2 + 2 + 2 + 8 + 8 + 4) == le32(dv.FreeSpaceInImages));
        vstd::bytes::lemma_auto_spec_u32_to_from_le_bytes();
    }
}

impl PtpStorageInfo {
    /// Parse one dataset from the reader, leaving it just past the dataset.
    #[verifier::rlimit(100)]
    #[verifier::spinoff_prover]
    pub fn decode(cur: &mut Reader) -> (r: Result<PtpStorageInfo, Error>)
        requires
            old(cur).wf(),
        ensures
            final(cur).wf(),
            final(cur).bytes() == old(cur).bytes(),
            r is Err ==> r->Err_0 is Malformed,
            storage_info_end(old(cur).bytes(), old(cur).position()) is None ==> r is Err && (
            r->Err_0 == Error::Malformed(MalformedKind::UnexpectedEnd) || r->Err_0
                == Error::Malformed(MalformedKind::InvalidUtf16)),
            r is Ok ==> storage_info_end(old(cur).bytes(), old(cur).position()) == Some(
                final(cur).position(),
            ),
            forall|dv: StorageInfoV| #![trigger storage_info_bytes(dv)]
                storage_info_encodable(dv) && old(cur).position() + storage_info_bytes(dv).len() <= old(
                    cur,
                ).bytes().len() && old(cur).bytes().subrange(
                    old(cur).position(),
                    old(cur).position() + storage_info_bytes(dv).len(),
                ) == storage_info_bytes(dv) ==> r is Ok && r->Ok_0@ == dv && final(cur).position()
                    == old(cur).position() + storage_info_bytes(dv).len(),
    {
        let ghost b = old(cur).bytes();
        let ghost p0 = old(cur).position();
        proof {
            assert forall|dv: StorageInfoV| #![trigger storage_info_bytes(dv)]
                storage_info_encodable(dv) && p0 + storage_info_bytes(dv).len() <= b.len() && b.subrange(p0, p0 + storage_info_bytes(dv).len()) == storage_info_bytes(dv) implies storage_info_laid_out(b, p0, dv) by {
                lemma_storage_info_fields(b, p0, dv);
            }
        }
        let fStorageType = match cur.read_ptp_u16() {
            Ok(v) => v,
            Err(e) => {
                proof {
                    assert forall|dv: StorageInfoV| #![trigger storage_info_bytes(dv)]
                        storage_info_encodable(dv) && p0 + storage_info_bytes(dv).len() <= b.len() && b.subrange(p0, p0 + storage_info_bytes(dv).len()) == storage_info_bytes(dv) implies false by {
                        assert(storage_info_laid_out(b, p0, dv));
                    }
                }
                return Err(e);
            },
        };
        proof {
            assert forall|dv: StorageInfoV| #![trigger storage_info_bytes(dv)]
                storage_info_encodable(dv) && p0 + storage_info_bytes(dv).len() <= b.len() && b.subrange(p0, p0 + storage_info_bytes(dv).len()) == storage_info_bytes(dv) implies fStorageType == dv.StorageType && cur.position() == p0 + 2 by {
                assert(storage_info_laid_out(b, p0, dv));
            }
        }
        let fFilesystemType = match cur.read_ptp_u16() {
            Ok(v) => v,
            Err(e) => {
                proof {
                    assert forall|dv: StorageInfoV| #![trigger storage_info_bytes(dv)]
                        storage_info_encodable(dv) && p0 + storage_info_bytes(dv).len() <= b.len() && b.subrange(p0, p0 + storage_info_bytes(dv).len()) == storage_info_bytes(dv) implies false by {
                        assert(storage_info_laid_out(b, p0, dv));
                    }
                }
                return Err(e);
            },
        };
        proof {
            assert forall|dv: StorageInfoV| #![trigger storage_info_bytes(dv)]
                storage_info_encodable(dv) && p0 + storage_info_bytes(dv).len() <= b.len() && b.subrange(p0, p0 + storage_info_bytes(dv).len()) == storage_info_bytes(dv) implies fFilesystemType == dv.FilesystemType && cur.position() == p0 + 2 + 2 by {
                assert(storage_info_laid_out(b, p0, dv));
            }
        }
        let fAccessCapability = match cur.read_ptp_u16() {
            Ok(v) => v,
            Err(e) => {
                proof {
                    assert forall|dv: StorageInfoV| #![trigger storage_info_bytes(dv)]
                        storage_info_encodable(dv) && p0 + storage_info_bytes(dv).len() <= b.len() && b.subrange(p0, p0 + storage_info_bytes(dv).len()) == storage_info_bytes(dv) implies false by {
                        assert(storage_info_laid_out(b, p0, dv));
                    }
                }
                return Err(e);
            },
        };
        proof {
            assert forall|dv: StorageInfoV| #![trigger storage_info_bytes(dv)]
                storage_info_encodable(dv) && p0 + storage_info_bytes(dv).len() <= b.len() && b.subrange(p0, p0 + storage_info_bytes(dv).len()) == storage_info_bytes(dv) implies fAccessCapability == dv.AccessCapability && cur.position() == p0 + 2 + 2 + 2 by {
                assert(storage_info_laid_out(b, p0, dv));
            }
        }
        let fMaxCapacity = match cur.read_ptp_u64() {
            Ok(v) => v,
            Err(e) => {
                proof {
                    assert forall|dv: StorageInfoV| #![trigger storage_info_bytes(dv)]
                        storage_info_encodable(dv) && p0 + storage_info_bytes(dv).len() <= b.len() && b.subrange(p0, p0 + storage_info_bytes(dv).len()) == storage_info_bytes(dv) implies false by {
                        assert(storage_info_laid_out(b, p0, dv));
                    }
                }
                return Err(e);
            },
        };
        proof {
            assert forall|dv: StorageInfoV| #![trigger storage_info_bytes(dv)]
                storage_info_encodable(dv) && p0 + storage_info_bytes(dv).len() <= b.len() && b.subrange(p0, p0 + storage_info_bytes(dv).len()) == storage_info_bytes(dv) implies fMaxCapacity == dv.MaxCapacity && cur.position() == p0 + 2 + 2 + 2 + 8 by {
                assert(storage_info_laid_out(b, p0, dv));
            }
        }
        let fFreeSpaceInBytes = match cur.read_ptp_u64() {
            Ok(v) => v,
            Err(e) => {
                proof {
                    assert forall|dv: StorageInfoV| #![trigger storage_info_bytes(dv)]
                        storage_info_encodable(dv) && p0 + storage_info_bytes(dv).len() <= b.len() && b.subrange(p0, p0 + storage_info_bytes(dv).len()) == storage_info_bytes(dv) implies false by {
                        assert(storage_info_laid_out(b, p0, dv));
                    }
                }
                return Err(e);
            },
        };
        proof {
            assert forall|dv: StorageInfoV| #![trigger storage_info_bytes(dv)]
                storage_info_encodable(dv) && p0 + storage_info_bytes(dv).len() <= b.len() && b.subrange(p0, p0 + storage_info_bytes(dv).len()) == storage_info_bytes(dv) implies fFreeSpaceInBytes == dv.FreeSpaceInBytes && cur.position() == p0 + 2 + 2 + 2 + 8 + 8 by {
                assert(storage_info_laid_out(b, p0, dv));
            }
        }
        let fFreeSpaceInImages = match cur.read_ptp_u32() {
            Ok(v) => v,
            Err(e) => {
                proof {
                    assert forall|dv: StorageInfoV| #![trigger storage_info_bytes(dv)]
                        storage_info_encodable(dv) && p0 + storage_info_bytes(dv).len() <= b.len() && b.subrange(p0, p0 + storage_info_bytes(dv).len()) == storage_info_bytes(dv) implies false by {
                        assert(storage_info_laid_out(b, p0, dv));
                    }
                }
                return Err(e);
            },
        };
        proof {
            assert forall|dv: StorageInfoV| #![trigger storage_info_bytes(dv)]
                storage_info_encodable(dv) && p0 + storage_info_bytes(dv).len() <= b.len() && b.subrange(p0, p0 + storage_info_bytes(dv).len()) == storage_info_bytes(dv) implies fFreeSpaceInImages == dv.FreeSpaceInImages && cur.position() == p0 + 2 + 2 + 2 + 8 + 8 + 4 by {
                assert(storage_info_laid_out(b, p0, dv));
            }
        }
        let fStorageDescription = match read_str_field(cur) {
            Ok(v) => v,
            Err(e) => {
                proof {
                    assert forall|dv: StorageInfoV| #![trigger storage_info_bytes(dv)]
                        storage_info_encodable(dv) && p0 + storage_info_bytes(dv).len() <= b.len() && b.subrange(p0, p0 + storage_info_bytes(dv).len()) == storage_info_bytes(dv) implies false by {
                        assert(storage_info_laid_out(b, p0, dv));
                    }
                }
                return Err(e);
            },
        };
        proof {
            assert forall|dv: StorageInfoV| #![trigger storage_info_bytes(dv)]
                storage_info_encodable(dv) && p0 + storage_info_bytes(dv).len() <= b.len() && b.subrange(p0, p0 + storage_info_bytes(dv).len()) == storage_info_bytes(dv) implies fStorageDescription@ == dv.StorageDescription && cur.position() == p0 + 2 + 2 + 2 + 8 + 8 + 4 + spec_ptp_str(dv.StorageDescription).len() by {
                assert(storage_info_laid_out(b, p0, dv));
            }
        }
        let fVolumeLabel = match read_str_field(cur) {
            Ok(v) => v,
            Err(e) => {
                proof {
                    assert forall|dv: StorageInfoV| #![trigger storage_info_bytes(dv)]
                        storage_info_encodable(dv) && p0 + storage_info_bytes(dv).len() <= b.len() && b.subrange(p0, p0 + storage_info_bytes(dv).len()) == storage_info_bytes(dv) implies false by {
                        assert(storage_info_laid_out(b, p0, dv));
                    }
                }
                return Err(e);
            },
        };
        proof {
            assert forall|dv: StorageInfoV| #![trigger storage_info_bytes(dv)]
                storage_info_encodable(dv) && p0 + storage_info_bytes(dv).len() <= b.len() && b.subrange(p0, p0 + storage_info_bytes(dv).len()) == storage_info_bytes(dv) implies fVolumeLabel@ == dv.VolumeLabel && cur.position() == p0 + 2 + 2 + 2 + 8 + 8 + 4 + spec_ptp_str(dv.StorageDescription).len() + spec_ptp_str(dv.VolumeLabel).len() by {
                assert(storage_info_laid_out(b, p0, dv));
            }
        }
        proof {
            assert(storage_info_end(b, p0) == Some(cur.position()));
        }
        let ret = PtpStorageInfo { StorageType: fStorageType, FilesystemType: fFilesystemType, AccessCapability: fAccessCapability, MaxCapacity: fMaxCapacity, FreeSpaceInBytes: fFreeSpaceInBytes, FreeSpaceInImages: fFreeSpaceInImages, StorageDescription: fStorageDescription, VolumeLabel: fVolumeLabel };
        proof {
            assert forall|dv: StorageInfoV| #![trigger storage_info_bytes(dv)]
                storage_info_encodable(dv) && p0 + storage_info_bytes(dv).len() <= b.len() && b.subrange(p0, p0 + storage_info_bytes(dv).len()) == storage_info_bytes(dv) implies ret@ == dv && cur.position() == p0 + storage_info_bytes(dv).len() by {
                assert(storage_info_laid_out(b, p0, dv));
            }
        }
        Ok(ret)
    }

    /// Serialize this dataset to its canonical wire bytes.
    #[verifier::rlimit(100)]
    #[verifier::spinoff_prover]
    pub fn encode(&self) -> (r: Result<Vec<u8>, Error>)
        ensures
            r is Ok ==> r->Ok_0@ == storage_info_bytes(self@),
            storage_info_encodable(self@) ==> r is Ok,
            r is Err ==> r->Err_0 is Malformed,
    {
        let mut out: Vec<u8> = Vec::new();
        let ghost e0 = le16(self@.StorageType);
        let ghost e1 = le16(self@.FilesystemType);
        let ghost e2 = le16(self@.AccessCapability);
        let ghost e3 = le64(self@.MaxCapacity);
        let ghost e4 = le64(self@.FreeSpaceInBytes);
        let ghost e5 = le32(self@.FreeSpaceInImages);
        let ghost e6 = spec_ptp_str(self@.StorageDescription);
        let ghost e7 = spec_ptp_str(self@.VolumeLabel);
        let ghost t7 = e7;
        let ghost t6 = e6 + t7;
        let ghost t5 = e5 + t6;
        let ghost t4 = e4 + t5;
        let ghost t3 = e3 + t4;
        let ghost t2 = e2 + t3;
        let ghost t1 = e1 + t2;
        let ghost t0 = e0 + t1;
        proof {
            assert(storage_info_bytes(self@) == t0);
        }
        let ghost o0 = out@;
        proof {
            assert(o0 + t0 =~= t0);
        }
        write_u16(&mut out, self.StorageType);
        proof {
            assert(out@ =~= o0 + e0);
            assert(out@ + t1 =~= o0 + t0);
        }
        let ghost o1 = out@;
        write_u16(&mut out, self.FilesystemType);
        proof {
            assert(out@ =~= o1 + e1);
            assert(out@ + t2 =~= o1 + t1);
        }
        let ghost o2 = out@;
        write_u16(&mut out, self.AccessCapability);
        proof {
            assert(out@ =~= o2 + e2);
            assert(out@ + t3 =~= o2 + t2);
        }
        let ghost o3 = out@;
        write_u64(&mut out, self.MaxCapacity);
        proof {
            assert(out@ =~= o3 + e3);
            assert(out@ + t4 =~= o3 + t3);
        }
        let ghost o4 = out@;
        write_u64(&mut out, self.FreeSpaceInBytes);
        proof {
            assert(out@ =~= o4 + e4);
            assert(out@ + t5 =~= o4 + t4);
        }
        let ghost o5 = out@;
        write_u32(&mut out, self.FreeSpaceInImages);
        proof {
            assert(out@ =~= o5 + e5);
            assert(out@ + t6 =~= o5 + t5);
        }
        let ghost o6 = out@;
        match write_ptp_str(&mut out, self.StorageDescription.as_str()) {
            Ok(_) => {},
            Err(e) => {
                return Err(e);
            },
        }
        proof {
            assert(out@ =~= o6 + e6);
            assert(out@ + t7 =~= o6 + t6);
        }
        let ghost o7 = out@;
        match write_ptp_str(&mut out, self.VolumeLabel.as_str()) {
            Ok(_) => {},
            Err(e) => {
                return Err(e);
            },
        }
        proof {
            assert(out@ =~= o7 + e7);
            assert(out@ =~= o7 + t7);
            assert(out@ =~= t0);
        }
        Ok(out)
    }
}

} // verus!
