//! The standard PTP operation codes, 0x1000 through 0x101C.
use vstd::prelude::*;

verus! {

pub const Undefined: u16 = 0x1000;
pub const GetDeviceInfo: u16 = 0x1001;
pub const OpenSession: u16 = 0x1002;
pub const CloseSession: u16 = 0x1003;
pub const GetStorageIDs: u16 = 0x1004;
pub const GetStorageInfo: u16 = 0x1005;
pub const GetNumObjects: u16 = 0x1006;
pub const GetObjectHandles: u16 = 0x1007;
pub const GetObjectInfo: u16 = 0x1008;
pub const GetObject: u16 = 0x1009;
pub const GetThumb: u16 = 0x100A;
pub const DeleteObject: u16 = 0x100B;
pub const SendObjectInfo: u16 = 0x100C;
pub const SendObject: u16 = 0x100D;
pub const InitiateCapture: u16 = 0x100E;
pub const FormatStore: u16 = 0x100F;
pub const ResetDevice: u16 = 0x1010;
pub const SelfTest: u16 = 0x1011;
pub const SetObjectProtection: u16 = 0x1012;
pub const PowerDown: u16 = 0x1013;
pub const GetDevicePropDesc: u16 = 0x1014;
pub const GetDevicePropValue: u16 = 0x1015;
pub const SetDevicePropValue: u16 = 0x1016;
pub const ResetDevicePropValue: u16 = 0x1017;
pub const TerminateOpenCapture: u16 = 0x1018;
pub const MoveObject: u16 = 0x1019;
pub const CopyObject: u16 = 0x101A;
pub const GetPartialObject: u16 = 0x101B;
pub const InitiateOpenCapture: u16 = 0x101C;

/// The name of a standard operation code, `None` for vendor codes.
pub open spec fn spec_name(v: u16) -> Option<&'static str> {
    match v {
        0x1000u16 => Some("Undefined"),
        0x1001u16 => Some("GetDeviceInfo"),
        0x1002u16 => Some("OpenSession"),
        0x1003u16 => Some("CloseSession"),
        0x1004u16 => Some("GetStorageIDs"),
        0x1005u16 => Some("GetStorageInfo"),
        0x1006u16 => Some("GetNumObjects"),
        0x1007u16 => Some("GetObjectHandles"),
        0x1008u16 => Some("GetObjectInfo"),
        0x1009u16 => Some("GetObject"),
        0x100Au16 => Some("GetThumb"),
        0x100Bu16 => Some("DeleteObject"),
        0x100Cu16 => Some("SendObjectInfo"),
        0x100Du16 => Some("SendObject"),
        0x100Eu16 => Some("InitiateCapture"),
        0x100Fu16 => Some("FormatStore"),
        0x1010u16 => Some("ResetDevice"),
        0x1011u16 => Some("SelfTest"),
        0x1012u16 => Some("SetObjectProtection"),
        0x1013u16 => Some("PowerDown"),
        0x1014u16 => Some("GetDevicePropDesc"),
        0x1015u16 => Some("GetDevicePropValue"),
        0x1016u16 => Some("SetDevicePropValue"),
        0x1017u16 => Some("ResetDevicePropValue"),
        0x1018u16 => Some("TerminateOpenCapture"),
        0x1019u16 => Some("MoveObject"),
        0x101Au16 => Some("CopyObject"),
        0x101Bu16 => Some("GetPartialObject"),
        0x101Cu16 => Some("InitiateOpenCapture"),
        _ => None,
    }
}

/// The name of a standard operation code; vendor codes have none.
pub fn name(v: u16) -> (r: Option<&'static str>)
    ensures
        r == spec_name(v),
        (r is Some) <==> (0x1000 <= v <= 0x101C),
{
    match v {
        0x1000u16 => Some("Undefined"),
        0x1001u16 => Some("GetDeviceInfo"),
        0x1002u16 => Some("OpenSession"),
        0x1003u16 => Some("CloseSession"),
        0x1004u16 => Some("GetStorageIDs"),
        0x1005u16 => Some("GetStorageInfo"),
        0x1006u16 => Some("GetNumObjects"),
        0x1007u16 => Some("GetObjectHandles"),
        0x1008u16 => Some("GetObjectInfo"),
        0x1009u16 => Some("GetObject"),
        0x100Au16 => Some("GetThumb"),
        0x100Bu16 => Some("DeleteObject"),
        0x100Cu16 => Some("SendObjectInfo"),
        0x100Du16 => Some("SendObject"),
        0x100Eu16 => Some("InitiateCapture"),
        0x100Fu16 => Some("FormatStore"),
        0x1010u16 => Some("ResetDevice"),
        0x1011u16 => Some("SelfTest"),
        0x1012u16 => Some("SetObjectProtection"),
        0x1013u16 => Some("PowerDown"),
        0x1014u16 => Some("GetDevicePropDesc"),
        0x1015u16 => Some("GetDevicePropValue"),
        0x1016u16 => Some("SetDevicePropValue"),
        0x1017u16 => Some("ResetDevicePropValue"),
        0x1018u16 => Some("TerminateOpenCapture"),
        0x1019u16 => Some("MoveObject"),
        0x101Au16 => Some("CopyObject"),
        0x101Bu16 => Some("GetPartialObject"),
        0x101Cu16 => Some("InitiateOpenCapture"),
        _ => None,
    }
}

} // verus!
