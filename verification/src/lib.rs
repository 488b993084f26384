//! Library for driving Ultimate-64 and Ultimate-II devices over the network:
//! address bookkeeping for DMA memory transfers, disk-drive and disk-image
//! descriptions, and capture and decoding of the multicast VIC video stream.
//!
//! Everything here is pure computation with verified contracts; the socket,
//! HTTP and file-system plumbing lives with the callers.

use vstd::prelude::*;
use vstd::string::StringExecFns;

pub mod aux;
pub mod auxiliary;
pub mod drives;
pub mod vicstream;

verus! {

/// Errors reported by the computational core.
#[derive(Debug, Clone, Copy, PartialEq, Eq, Structural)]
pub enum UltimateError {
    /// A start address plus a length does not fit in the 16-bit address space.
    AddressOverflow,
    /// Fewer bytes were supplied than the operation needs.
    DataTooShort,
    /// A file name does not end in a recognised disk-image extension.
    UnknownDiskImageExtension,
    /// A mount-mode name is not one of the recognised ones.
    UnknownMountMode,
    /// The device answered with HTTP 403.
    Forbidden,
    /// The device answered with the carried non-success HTTP status.
    RequestFailed(u16),
}

impl UltimateError {
    /// The fixed text describing each error kind.
    pub open spec fn spec_message(&self) -> Seq<char> {
        match self {
            UltimateError::AddressOverflow => "address plus length overflows the 16-bit address space"@,
            UltimateError::DataTooShort => "at least two bytes are required to detect a load address"@,
            UltimateError::UnknownDiskImageExtension => "file extension must be one of: d64, g64, d71, g71, d81"@,
            UltimateError::UnknownMountMode => "unknown mount mode"@,
            UltimateError::Forbidden => "access forbidden: check password or device settings"@,
            UltimateError::RequestFailed(_) => "request failed"@,
        }
    }

    /// A short description of the error, for callers that report it.
    pub fn message(&self) -> (s: &'static str)
        ensures
            s@ == self.spec_message(),
    {
        match self {
            UltimateError::AddressOverflow => "address plus length overflows the 16-bit address space",
            UltimateError::DataTooShort => "at least two bytes are required to detect a load address",
            UltimateError::UnknownDiskImageExtension => "file extension must be one of: d64, g64, d71, g71, d81",
            UltimateError::UnknownMountMode => "unknown mount mode",
            UltimateError::Forbidden => "access forbidden: check password or device settings",
            UltimateError::RequestFailed(_) => "request failed",
        }
    }
}

/// The 16-bit word encoded little-endian by two bytes.
pub open spec fn le_word(lo: u8, hi: u8) -> u16 {
    (lo as u16) | ((hi as u16) << 8)
}

/// Decide whether an HTTP status code from the device counts as success:
/// 403 means the request was forbidden (wrong password or device settings),
/// and anything outside `2xx` is a failure carrying its status code.
pub fn check_status(status: u16) -> (r: Result<(), UltimateError>)
    ensures
        r is Ok <==> 200 <= status < 300,
        status == 403 ==> r == Err::<(), UltimateError>(UltimateError::Forbidden),
        !(200 <= status < 300) && status != 403 ==> r == Err::<(), UltimateError>(
            UltimateError::RequestFailed(status),
        ),
{
    if status == 403 {
        Err(UltimateError::Forbidden)
    } else if 200 <= status && status < 300 {
        Ok(())
    } else {
        Err(UltimateError::RequestFailed(status))
    }
}

/// Where a load should write `data`: either the caller-supplied address with
/// the whole buffer, or the address read little-endian from the first two
/// bytes, which are then not part of the written payload. The result is the
/// load address and the offset of the first payload byte.
pub fn load_target(data: &[u8], address: Option<u16>) -> (r: Result<(u16, usize), UltimateError>)
    ensures
        match address {
            Some(a) => r == Ok::<(u16, usize), UltimateError>((a, 0)),
            None => {
                &&& r is Ok <==> data@.len() >= 2
                &&& r is Ok ==> r->Ok_0 == (le_word(data@[0], data@[1]), 2usize)
                &&& r is Err ==> r->Err_0 == UltimateError::DataTooShort
            },
        },
{
    match address {
        Some(a) => Ok((a, 0)),
        None => match aux::extract_load_address(data) {
            Ok(a) => Ok((a, 2)),
            Err(e) => Err(e),
        },
    }
}

/// Device information as the device reports it.
#[derive(Debug, Clone, PartialEq, Eq)]
pub struct DeviceInfo {
    /// Product name.
    pub product: String,
    /// Firmware version.
    pub firmware_version: String,
    /// FPGA version.
    pub fpga_version: String,
    /// Core version (only for some models).
    pub core_version: Option<String>,
    /// Hostname.
    pub hostname: String,
    /// Unique ID (unless disabled in the device's network settings).
    pub unique_id: Option<String>,
}

impl DeviceInfo {
    /// The one-line summary: product, firmware, FPGA and core versions, and
    /// unique ID, with `N/A` for absent fields.
    pub open spec fn spec_describe(&self) -> Seq<char> {
        self.product@ + " (firmware "@ + self.firmware_version@ + ", fpga "@ + self.fpga_version@
            + ", core "@ + (match self.core_version {
            Some(ref c) => c@,
            None => "N/A"@,
        }) + ", id "@ + (match self.unique_id {
            Some(ref u) => u@,
            None => "N/A"@,
        }) + ")"@
    }

    /// Render the one-line summary of the device.
    pub fn describe(&self) -> (s: String)
        ensures
            s@ == self.spec_describe(),
    {
        let mut s = self.product.clone();
        s.append(" (firmware ");
        s.append(self.firmware_version.as_str());
        s.append(", fpga ");
        s.append(self.fpga_version.as_str());
        s.append(", core ");
        match self.core_version {
            Some(ref c) => s.append(c.as_str()),
            None => s.append("N/A"),
        }
        s.append(", id ");
        match self.unique_id {
            Some(ref u) => s.append(u.as_str()),
            None => s.append("N/A"),
        }
        s.append(")");
        s
    }
}

} // verus!
