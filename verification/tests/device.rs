use mcp3e::qseries::{
    get_device_info, get_device_info_string, to_device_code, AddressBase, DeviceType,
};

#[test]
fn resolve_decimal_device() {
    // "D1000": decimal address 1000 little-endian, code 0xA8
    assert_eq!(to_device_code("D1000"), Some([0xE8, 0x03, 0x00, 0xA8]));
}

#[test]
fn resolve_hex_device() {
    // "W20": hex address 0x20 = 32, code 0xB4
    assert_eq!(to_device_code("W20"), Some([0x20, 0x00, 0x00, 0xB4]));
}

#[test]
fn resolve_unknown_prefix() {
    assert_eq!(to_device_code("Q1"), None);
}

#[test]
fn resolve_bit_device_with_leading_zero() {
    assert_eq!(to_device_code("M06"), Some([0x06, 0x00, 0x00, 0x90]));
}

#[test]
fn resolve_hex_bit_device() {
    assert_eq!(to_device_code("X1F"), Some([0x1F, 0x00, 0x00, 0x9C]));
    assert_eq!(to_device_code("X1f"), Some([0x1F, 0x00, 0x00, 0x9C]));
}

#[test]
fn resolve_two_character_name_wins() {
    // "TS10" is the timer contact TS, not T with address "S10"
    assert_eq!(to_device_code("TS10"), Some([0x0A, 0x00, 0x00, 0xC1]));
    // "ZR100" is the file register ZR, not the index register Z
    assert_eq!(to_device_code("ZR100"), Some([0x64, 0x00, 0x00, 0xB0]));
    // "DX3" is the direct access input, not D with a stray letter
    assert_eq!(to_device_code("DX3"), Some([0x03, 0x00, 0x00, 0xA2]));
}

#[test]
fn resolve_rejects_bad_addresses() {
    // no address at all
    assert_eq!(to_device_code("D"), None);
    // hex digits after a decimal device name
    assert_eq!(to_device_code("D12A"), None);
    // value beyond 32 bits
    assert_eq!(to_device_code("D4294967296"), None);
}

#[test]
fn resolve_keeps_low_three_address_bytes() {
    // the top byte of a 32-bit address is overwritten by the device code
    assert_eq!(to_device_code("D4294967295"), Some([0xFF, 0xFF, 0xFF, 0xA8]));
}

#[test]
fn device_info_lookup() {
    let d = get_device_info("M06").unwrap();
    assert_eq!(d.name, "M");
    assert_eq!(d.code, 0x90);
    assert_eq!(d.base, AddressBase::DECIMAL);
    assert_eq!(d.class, DeviceType::BIT);
    assert_eq!(d.description, "internal relay");
    assert!(get_device_info("Q1").is_none());
}

#[test]
fn device_info_lookup_needs_no_address() {
    // the lookup matches the name prefix alone
    let d = get_device_info("W").unwrap();
    assert_eq!(d.code, 0xB4);
    assert_eq!(d.class, DeviceType::WORD);
}

#[test]
fn device_info_string_format() {
    assert_eq!(
        get_device_info_string("M06"),
        Some(String::from("internal relay(BIT)"))
    );
    assert_eq!(
        get_device_info_string("D1000"),
        Some(String::from("data register(WORD)"))
    );
    assert_eq!(get_device_info_string("Q1"), None);
}

#[test]
fn device_type_names() {
    assert_eq!(DeviceType::BIT.to_string(), "BIT");
    assert_eq!(DeviceType::WORD.to_string(), "WORD");
}
