use ultimate64::aux;
use ultimate64::auxiliary;
use ultimate64::check_status;
use ultimate64::load_target;
use ultimate64::DeviceInfo;
use ultimate64::UltimateError;

#[test]
fn address_overflow_boundaries() {
    assert!(aux::check_address_overflow(0xffff, 1).is_ok());
    assert!(aux::check_address_overflow(0xffff, 2).is_err());
    assert_eq!(
        aux::check_address_overflow(0xffff, 2),
        Err(UltimateError::AddressOverflow)
    );
    assert!(aux::check_address_overflow(0x0000, 0).is_ok());
    assert!(aux::check_address_overflow(0xffff, 0).is_ok());
    assert!(aux::check_address_overflow(0x0801, 0xf7fe).is_ok());
    assert!(aux::check_address_overflow(0x0801, 0xf800).is_err());
}

#[test]
fn address_overflow_companion_module() {
    assert!(auxiliary::check_address_overflow(0xffff, 1).is_ok());
    assert!(auxiliary::check_address_overflow(0xffff, 2).is_err());
    assert!(auxiliary::check_address_overflow(0, 0xffff).is_ok());
}

#[test]
fn load_address_little_endian() {
    let data = vec![0x01, 0x08, 0x00, 0x00];
    assert_eq!(aux::extract_load_address(&data), Ok(0x0801));
    assert_eq!(auxiliary::extract_load_address(&data), Ok(0x0801));
    assert_eq!(aux::extract_load_address(&[0xff, 0xff]), Ok(0xffff));
}

#[test]
fn load_address_needs_two_bytes() {
    assert_eq!(
        aux::extract_load_address(&[0x01]),
        Err(UltimateError::DataTooShort)
    );
    assert_eq!(
        auxiliary::extract_load_address(&[]),
        Err(UltimateError::DataTooShort)
    );
}

#[test]
fn load_target_explicit_address() {
    let data = vec![0x01, 0x08, 0xaa];
    assert_eq!(load_target(&data, Some(0xc000)), Ok((0xc000, 0)));
    assert_eq!(load_target(&[], Some(0x1000)), Ok((0x1000, 0)));
}

#[test]
fn load_target_deduced_address() {
    let data = vec![0x01, 0x08, 0xaa, 0xbb];
    assert_eq!(load_target(&data, None), Ok((0x0801, 2)));
    assert_eq!(load_target(&[0x01], None), Err(UltimateError::DataTooShort));
}

#[test]
fn status_codes() {
    assert!(check_status(200).is_ok());
    assert!(check_status(204).is_ok());
    assert!(check_status(299).is_ok());
    assert_eq!(check_status(403), Err(UltimateError::Forbidden));
    assert_eq!(check_status(500), Err(UltimateError::RequestFailed(500)));
    assert_eq!(check_status(199), Err(UltimateError::RequestFailed(199)));
    assert_eq!(check_status(300), Err(UltimateError::RequestFailed(300)));
    assert_eq!(check_status(404), Err(UltimateError::RequestFailed(404)));
}

#[test]
fn error_messages_are_stable() {
    assert_eq!(
        UltimateError::Forbidden.message(),
        "access forbidden: check password or device settings"
    );
    assert_eq!(
        UltimateError::UnknownDiskImageExtension.message(),
        "file extension must be one of: d64, g64, d71, g71, d81"
    );
}

#[test]
fn device_info_description() {
    let info = DeviceInfo {
        product: String::from("Ultimate 64"),
        firmware_version: String::from("1.37"),
        fpga_version: String::from("105"),
        core_version: Some(String::from("3.10")),
        hostname: String::from("u64"),
        unique_id: None,
    };
    assert_eq!(
        info.describe(),
        "Ultimate 64 (firmware 1.37, fpga 105, core 3.10, id N/A)"
    );
    let bare = DeviceInfo {
        product: String::from("Ultimate-II"),
        firmware_version: String::from("3.0"),
        fpga_version: String::from("99"),
        core_version: None,
        hostname: String::from("u2"),
        unique_id: Some(String::from("abc123")),
    };
    assert_eq!(
        bare.describe(),
        "Ultimate-II (firmware 3.0, fpga 99, core N/A, id abc123)"
    );
}
