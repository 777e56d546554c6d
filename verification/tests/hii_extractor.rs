use core_probe::hii_extractor::{parse_efivar_bytes, read_bios_info};

#[test]
fn given_valid_efivar_bytes_when_parsing_then_extracts_length_and_address() {
    // flags=0x00000007, length=0x00010000 (65536), address=0xA0000000
    let bytes: [u8; 12] = [
        0x07, 0x00, 0x00, 0x00, // flags = 7 (LE)
        0x00, 0x00, 0x01, 0x00, // length = 65536 (LE)
        0x00, 0x00, 0x00, 0xA0, // address = 0xA0000000 (LE)
    ];

    let (length, address) = parse_efivar_bytes(&bytes).unwrap();

    assert_eq!(length, 65536);
    assert_eq!(address, 0xA000_0000);
}

#[test]
fn given_truncated_efivar_bytes_when_parsing_then_returns_error() {
    // Only 8 bytes — shorter than the required 12.
    let bytes: [u8; 8] = [0x07, 0x00, 0x00, 0x00, 0x00, 0x00, 0x01, 0x00];

    let result = parse_efivar_bytes(&bytes);

    assert!(result.is_err());
    let err_msg = result.unwrap_err().message();
    assert!(
        err_msg.contains("too short"),
        "Expected 'too short' in error message, got: {}",
        err_msg
    );
}

#[test]
fn given_dmi_files_missing_when_reading_bios_info_then_uses_defaults() {
    // read_bios_info must never panic, regardless of DMI file availability.
    // On a real machine the fields will be populated; in CI they may be "Unknown".
    let info = read_bios_info(None, None, None);

    assert!(!info.bios_vendor.is_empty());
    assert!(!info.bios_version.is_empty());
    assert!(!info.product_name.is_empty());
}
