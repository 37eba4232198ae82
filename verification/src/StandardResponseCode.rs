//! The standard PTP response codes, 0x2000 through 0x2020.
use vstd::prelude::*;

verus! {

pub const Undefined: u16 = 0x2000;
pub const Okay: u16 = 0x2001;
pub const GeneralError: u16 = 0x2002;
pub const SessionNotOpen: u16 = 0x2003;
pub const InvalidTransactionId: u16 = 0x2004;
pub const OperationNotSupported: u16 = 0x2005;
pub const ParameterNotSupported: u16 = 0x2006;
pub const IncompleteTransfer: u16 = 0x2007;
pub const InvalidStorageId: u16 = 0x2008;
pub const InvalidObjectHandle: u16 = 0x2009;
pub const DevicePropNotSupported: u16 = 0x200A;
pub const InvalidObjectFormatCode: u16 = 0x200B;
pub const StoreFull: u16 = 0x200C;
pub const ObjectWriteProtected: u16 = 0x200D;
pub const StoreReadOnly: u16 = 0x200E;
pub const AccessDenied: u16 = 0x200F;
pub const NoThumbnailPresent: u16 = 0x2010;
pub const SelfTestFailed: u16 = 0x2011;
pub const PartialDeletion: u16 = 0x2012;
pub const StoreNotAvailable: u16 = 0x2013;
pub const SpecificationByFormatUnsupported: u16 = 0x2014;
pub const NoValidObjectInfo: u16 = 0x2015;
pub const InvalidCodeFormat: u16 = 0x2016;
pub const UnknownVendorCode: u16 = 0x2017;
pub const CaptureAlreadyTerminated: u16 = 0x2018;
pub const DeviceBusy: u16 = 0x2019;
pub const InvalidParentObject: u16 = 0x201A;
pub const InvalidDevicePropFormat: u16 = 0x201B;
pub const InvalidDevicePropValue: u16 = 0x201C;
pub const InvalidParameter: u16 = 0x201D;
pub const SessionAlreadyOpen: u16 = 0x201E;
pub const TransactionCancelled: u16 = 0x201F;
pub const SpecificationOfDestinationUnsupported: u16 = 0x2020;

/// The name of a standard response code, `None` for vendor codes.
pub open spec fn spec_name(v: u16) -> Option<&'static str> {
    match v {
        0x2000u16 => Some("Undefined"),
        0x2001u16 => Some("Ok"),
        0x2002u16 => Some("GeneralError"),
        0x2003u16 => Some("SessionNotOpen"),
        0x2004u16 => Some("InvalidTransactionId"),
        0x2005u16 => Some("OperationNotSupported"),
        0x2006u16 => Some("ParameterNotSupported"),
        0x2007u16 => Some("IncompleteTransfer"),
        0x2008u16 => Some("InvalidStorageId"),
        0x2009u16 => Some("InvalidObjectHandle"),
        0x200Au16 => Some("DevicePropNotSupported"),
        0x200Bu16 => Some("InvalidObjectFormatCode"),
        0x200Cu16 => Some("StoreFull"),
        0x200Du16 => Some("ObjectWriteProtected"),
        0x200Eu16 => Some("StoreReadOnly"),
        0x200Fu16 => Some("AccessDenied"),
        0x2010u16 => Some("NoThumbnailPresent"),
        0x2011u16 => Some("SelfTestFailed"),
        0x2012u16 => Some("PartialDeletion"),
        0x2013u16 => Some("StoreNotAvailable"),
        0x2014u16 => Some("SpecificationByFormatUnsupported"),
        0x2015u16 => Some("NoValidObjectInfo"),
        0x2016u16 => Some("InvalidCodeFormat"),
        0x2017u16 => Some("UnknownVendorCode"),
        0x2018u16 => Some("CaptureAlreadyTerminated"),
        0x2019u16 => Some("DeviceBusy"),
        0x201Au16 => Some("InvalidParentObject"),
        0x201Bu16 => Some("InvalidDevicePropFormat"),
        0x201Cu16 => Some("InvalidDevicePropValue"),
        0x201Du16 => Some("InvalidParameter"),
        0x201Eu16 => Some("SessionAlreadyOpen"),
        0x201Fu16 => Some("TransactionCancelled"),
        0x2020u16 => Some("SpecificationOfDestinationUnsupported"),
        _ => None,
    }
}

/// The name of a standard response code; vendor codes have none.
pub fn name(v: u16) -> (r: Option<&'static str>)
    ensures
        r == spec_name(v),
        (r is Some) <==> (0x2000 <= v <= 0x2020),
{
    match v {
        0x2000u16 => Some("Undefined"),
        0x2001u16 => Some("Ok"),
        0x2002u16 => Some("GeneralError"),
        0x2003u16 => Some("SessionNotOpen"),
        0x2004u16 => Some("InvalidTransactionId"),
        0x2005u16 => Some("OperationNotSupported"),
        0x2006u16 => Some("ParameterNotSupported"),
        0x2007u16 => Some("IncompleteTransfer"),
        0x2008u16 => Some("InvalidStorageId"),
        0x2009u16 => Some("InvalidObjectHandle"),
        0x200Au16 => Some("DevicePropNotSupported"),
        0x200Bu16 => Some("InvalidObjectFormatCode"),
        0x200Cu16 => Some("StoreFull"),
        0x200Du16 => Some("ObjectWriteProtected"),
        0x200Eu16 => Some("StoreReadOnly"),
        0x200Fu16 => Some("AccessDenied"),
        0x2010u16 => Some("NoThumbnailPresent"),
        0x2011u16 => Some("SelfTestFailed"),
        0x2012u16 => Some("PartialDeletion"),
        0x2013u16 => Some("StoreNotAvailable"),
        0x2014u16 => Some("SpecificationByFormatUnsupported"),
        0x2015u16 => Some("NoValidObjectInfo"),
        0x2016u16 => Some("InvalidCodeFormat"),
        0x2017u16 => Some("UnknownVendorCode"),
        0x2018u16 => Some("CaptureAlreadyTerminated"),
        0x2019u16 => Some("DeviceBusy"),
        0x201Au16 => Some("InvalidParentObject"),
        0x201Bu16 => Some("InvalidDevicePropFormat"),
        0x201Cu16 => Some("InvalidDevicePropValue"),
        0x201Du16 => Some("InvalidParameter"),
        0x201Eu16 => Some("SessionAlreadyOpen"),
        0x201Fu16 => Some("TransactionCancelled"),
        0x2020u16 => Some("SpecificationOfDestinationUnsupported"),
        _ => None,
    }
}

} // verus!
