//! Auxiliary helpers kept alongside [`crate::aux`]: address-range checking
//! and load-address extraction from program data.

use crate::le_word;
use crate::UltimateError;
use vstd::prelude::*;

verus! {

/// Check whether a transfer of `length` bytes starting at `address` stays
/// inside the 16-bit address space, i.e. whether the last touched address
/// `address + length - 1` still fits in a `u16`.
pub fn check_address_overflow(address: u16, length: u16) -> (r: Result<(), UltimateError>)
    ensures
        r is Ok <==> length == 0 || address + length - 1 <= u16::MAX,
        r is Err ==> r->Err_0 == UltimateError::AddressOverflow,
{
    if length > 0 {
        let last: u32 = address as u32 + (length as u32 - 1);
        if last > 0xFFFF {
            Err(UltimateError::AddressOverflow)
        } else {
            Ok(())
        }
    } else {
        Ok(())
    }
}

/// Extract the load address from the first two bytes of `data`, read as a
/// little-endian word. Fails exactly when fewer than two bytes are given.
pub fn extract_load_address(data: &[u8]) -> (r: Result<u16, UltimateError>)
    ensures
        r is Ok <==> data@.len() >= 2,
        r is Ok ==> r->Ok_0 == le_word(data@[0], data@[1]),
        r is Err ==> r->Err_0 == UltimateError::DataTooShort,
{
    if data.len() < 2 {
        Err(UltimateError::DataTooShort)
    } else {
        Ok((data[0] as u16) | ((data[1] as u16) << 8))
    }
}

} // verus!
