use mcp3e::codec::{
    decode_bits, decode_words, decode_words_raw, pack_bits, read_bits_request,
    read_words_request, unpack_response, unpack_write_response, write_bits_request,
    write_words_request,
};
use mcp3e::mc_protocol::{connection_string, Config, McError};

fn test_config() -> Config {
    Config::new(0x00, 0xFF, 0x03FF, 0x00, 0x0002)
}

#[test]
fn frame_layout() {
    let cfg = test_config();
    let body: Vec<u8> = vec![0x01, 0x02, 0x03];
    let frame = cfg.create_send_message(&body);
    // subheader, network, pc, io (LE), station, data length = body + 2 (LE),
    // monitor timer (LE), body
    assert_eq!(
        frame,
        vec![0x50, 0x00, 0x00, 0xFF, 0xFF, 0x03, 0x00, 0x05, 0x00, 0x02, 0x00, 0x01, 0x02, 0x03]
    );
}

#[test]
fn config_new_keeps_fields() {
    let cfg = test_config();
    assert_eq!(cfg.network_no, 0x00);
    assert_eq!(cfg.pc_no, 0xFF);
    assert_eq!(cfg.request_unit_io_no, 0x03FF);
    assert_eq!(cfg.request_unit_station_no, 0x00);
    assert_eq!(cfg.monitor_timer, 0x0002);
}

#[test]
fn word_write_scenario_frame() {
    // write [32767, -32768, 32235, 432] to D1000: command 01 14, subcommand
    // 00 00, device E8 03 00 A8, 4 points, then the values little-endian
    let cfg = test_config();
    let (frame, expected) = write_words_request(&cfg, "D1000", &[32767, -32768, 32235, 432])
        .unwrap();
    let wanted: Vec<u8> = vec![
        0x50, 0x00, 0x00, 0xFF, 0xFF, 0x03, 0x00, 0x14, 0x00, 0x02, 0x00, // header
        0x01, 0x14, 0x00, 0x00, // command and subcommand
        0xE8, 0x03, 0x00, 0xA8, // D1000
        0x04, 0x00, // 4 points
        0xFF, 0x7F, 0x00, 0x80, 0xEB, 0x7D, 0xB0, 0x01, // payload
    ];
    assert_eq!(frame, wanted);
    assert_eq!(expected, 11);
    // an 11-byte response with end code zero signals success
    let response: Vec<u8> = vec![0; 21];
    assert_eq!(unpack_write_response(&response, 11, expected), Ok(()));
}

#[test]
fn read_words_request_frame() {
    let cfg = test_config();
    let (frame, expected) = read_words_request(&cfg, "W20", 20).unwrap();
    let wanted: Vec<u8> = vec![
        0x50, 0x00, 0x00, 0xFF, 0xFF, 0x03, 0x00, 0x0C, 0x00, 0x02, 0x00, // header
        0x01, 0x04, 0x00, 0x00, // command and subcommand
        0x20, 0x00, 0x00, 0xB4, // W20
        0x14, 0x00, // 20 points
    ];
    assert_eq!(frame, wanted);
    assert_eq!(expected, 11 + 2 * 20);
}

#[test]
fn read_bits_request_frame() {
    let cfg = test_config();
    let (frame, expected) = read_bits_request(&cfg, "M06", 7).unwrap();
    let wanted: Vec<u8> = vec![
        0x50, 0x00, 0x00, 0xFF, 0xFF, 0x03, 0x00, 0x0C, 0x00, 0x02, 0x00, // header
        0x01, 0x04, 0x01, 0x00, // command and subcommand
        0x06, 0x00, 0x00, 0x90, // M06
        0x07, 0x00, // 7 points
    ];
    assert_eq!(frame, wanted);
    // 7 bits take 4 bytes
    assert_eq!(expected, 11 + 4);
}

#[test]
fn bit_write_request_frame() {
    let cfg = test_config();
    let bits: Vec<u8> = vec![1, 1, 0, 0, 1, 1, 0, 0, 0, 1];
    let (frame, expected) = write_bits_request(&cfg, "M010", &bits).unwrap();
    let wanted: Vec<u8> = vec![
        0x50, 0x00, 0x00, 0xFF, 0xFF, 0x03, 0x00, 0x11, 0x00, 0x02, 0x00, // header
        0x01, 0x14, 0x01, 0x00, // command and subcommand
        0x0A, 0x00, 0x00, 0x90, // M010
        0x0A, 0x00, // 10 points
        0x11, 0x00, 0x11, 0x00, 0x01, // packed bits
    ];
    assert_eq!(frame, wanted);
    assert_eq!(expected, 11);
}

#[test]
fn word_sizes_are_bounded() {
    let cfg = test_config();
    assert_eq!(
        read_words_request(&cfg, "D1000", 0).unwrap_err(),
        McError::InvalidSize
    );
    assert_eq!(
        read_words_request(&cfg, "D1000", 961).unwrap_err(),
        McError::InvalidSize
    );
    assert!(read_words_request(&cfg, "D1000", 1).is_ok());
    assert!(read_words_request(&cfg, "D1000", 960).is_ok());

    let empty: Vec<i16> = vec![];
    assert_eq!(
        write_words_request(&cfg, "D1000", &empty).unwrap_err(),
        McError::InvalidSize
    );
    let too_many: Vec<i16> = vec![0; 961];
    assert_eq!(
        write_words_request(&cfg, "D1000", &too_many).unwrap_err(),
        McError::InvalidSize
    );
    let one: Vec<i16> = vec![7];
    assert!(write_words_request(&cfg, "D1000", &one).is_ok());
    let most: Vec<i16> = vec![0; 960];
    assert!(write_words_request(&cfg, "D1000", &most).is_ok());
}

#[test]
fn bit_write_sizes_are_bounded() {
    let cfg = test_config();
    let empty: Vec<u8> = vec![];
    assert_eq!(
        write_bits_request(&cfg, "M0", &empty).unwrap_err(),
        McError::InvalidSize
    );
    let too_many: Vec<u8> = vec![0; 7169];
    assert_eq!(
        write_bits_request(&cfg, "M0", &too_many).unwrap_err(),
        McError::InvalidSize
    );
    let most: Vec<u8> = vec![0; 7168];
    assert!(write_bits_request(&cfg, "M0", &most).is_ok());
}

#[test]
fn unknown_device_is_rejected() {
    let cfg = test_config();
    assert_eq!(
        read_words_request(&cfg, "Q1", 1).unwrap_err(),
        McError::InvalidDevice
    );
    assert_eq!(
        read_bits_request(&cfg, "Q1", 1).unwrap_err(),
        McError::InvalidDevice
    );
    let one: Vec<i16> = vec![1];
    assert_eq!(
        write_words_request(&cfg, "Q1", &one).unwrap_err(),
        McError::InvalidDevice
    );
    let bit: Vec<u8> = vec![1];
    assert_eq!(
        write_bits_request(&cfg, "Q1", &bit).unwrap_err(),
        McError::InvalidDevice
    );
}

#[test]
fn response_length_mismatch_is_reported() {
    // a buffer sized with slack, carrying end code 0xC059 at bytes 9 and 10
    let mut buffer: Vec<u8> = vec![0; 25];
    buffer[9] = 0x59;
    buffer[10] = 0xC0;
    let short = unpack_response(&buffer, 14, 15).unwrap_err();
    assert_eq!(
        short,
        McError::UnexpectedResponseLength { expected: 15, actual: 14, end_code: 0xC059 }
    );
    let long = unpack_response(&buffer, 16, 15).unwrap_err();
    assert_eq!(
        long,
        McError::UnexpectedResponseLength { expected: 15, actual: 16, end_code: 0xC059 }
    );
}

#[test]
fn matching_response_is_stripped() {
    let mut buffer: Vec<u8> = vec![0; 25];
    buffer[11] = 0xAA;
    buffer[12] = 0xBB;
    buffer[13] = 0xCC;
    buffer[14] = 0xDD;
    let data = unpack_response(&buffer, 15, 15).unwrap();
    assert_eq!(data, vec![0xAA, 0xBB, 0xCC, 0xDD]);
}

#[test]
fn decode_words_round_trip_values() {
    // the payload the scenario write builds, read back
    let payload: Vec<u8> = vec![0xFF, 0x7F, 0x00, 0x80, 0xEB, 0x7D, 0xB0, 0x01];
    assert_eq!(
        decode_words(&payload, 4).unwrap(),
        vec![32767, -32768, 32235, 432]
    );
    assert_eq!(
        decode_words_raw(&payload, 4).unwrap(),
        vec![0x7FFF, 0x8000, 0x7DEB, 0x01B0]
    );
}

#[test]
fn decode_words_checks_length() {
    let payload: Vec<u8> = vec![0x01, 0x02, 0x03];
    assert_eq!(
        decode_words_raw(&payload, 2).unwrap_err(),
        McError::UnexpectedResponseLength { expected: 4, actual: 3, end_code: 0 }
    );
    assert_eq!(
        decode_words(&payload, 2).unwrap_err(),
        McError::UnexpectedResponseLength { expected: 4, actual: 3, end_code: 0 }
    );
}

#[test]
fn bit_pack_layout() {
    let bits: Vec<u8> = vec![1, 0, 1];
    // pairs (1,0) and (1, padded 0): high nibble first
    assert_eq!(pack_bits(&bits), vec![0x10, 0x10]);
}

#[test]
fn bit_round_trip_even() {
    let bits: Vec<u8> = vec![1, 1, 0, 0, 0, 1];
    let packed = pack_bits(&bits);
    assert_eq!(packed, vec![0x11, 0x00, 0x01]);
    assert_eq!(decode_bits(&packed, 6).unwrap(), bits);
}

#[test]
fn bit_round_trip_odd() {
    let bits: Vec<u8> = vec![0, 1, 1, 0, 1];
    let packed = pack_bits(&bits);
    assert_eq!(packed, vec![0x01, 0x10, 0x10]);
    assert_eq!(decode_bits(&packed, 5).unwrap(), bits);
}

#[test]
fn decode_bits_checks_length() {
    let data: Vec<u8> = vec![0x11];
    assert_eq!(
        decode_bits(&data, 7).unwrap_err(),
        McError::UnexpectedResponseLength { expected: 4, actual: 1, end_code: 0 }
    );
}

#[test]
fn write_response_with_end_code_is_device_error() {
    // an exactly 11-byte answer whose end code is non-zero is the
    // controller's refusal, not success
    let mut response: Vec<u8> = vec![0; 21];
    response[9] = 0x59;
    response[10] = 0xC0;
    assert_eq!(
        unpack_write_response(&response, 11, 11).unwrap_err(),
        McError::DeviceError(0xC059)
    );
}

#[test]
fn write_response_with_payload_is_device_error() {
    let mut response: Vec<u8> = vec![0; 23];
    response[11] = 0xC0;
    response[12] = 0x59;
    assert_eq!(
        unpack_write_response(&response, 13, 13).unwrap_err(),
        McError::DeviceError(0xC059)
    );
    let mut one: Vec<u8> = vec![0; 22];
    one[11] = 0xAB;
    assert_eq!(
        unpack_write_response(&one, 12, 12).unwrap_err(),
        McError::DeviceError(0xAB00)
    );
}

#[test]
fn write_response_length_mismatch_is_reported() {
    let mut response: Vec<u8> = vec![0; 21];
    response[9] = 0x59;
    response[10] = 0xC0;
    assert_eq!(
        unpack_write_response(&response, 12, 11).unwrap_err(),
        McError::UnexpectedResponseLength { expected: 11, actual: 12, end_code: 0xC059 }
    );
}

#[test]
fn write_size_is_checked_before_device() {
    // an out-of-bounds count is invalid even when the device string is too
    let cfg = test_config();
    let empty_words: Vec<i16> = vec![];
    assert_eq!(
        write_words_request(&cfg, "Q1", &empty_words).unwrap_err(),
        McError::InvalidSize
    );
    let empty_bits: Vec<u8> = vec![];
    assert_eq!(
        write_bits_request(&cfg, "Q1", &empty_bits).unwrap_err(),
        McError::InvalidSize
    );
    let too_many: Vec<i16> = vec![0; 961];
    assert_eq!(
        write_words_request(&cfg, "Q1", &too_many).unwrap_err(),
        McError::InvalidSize
    );
}

#[test]
fn short_expected_response_strips_to_empty() {
    // a matched count below the prefix length yields an empty payload
    let buffer: Vec<u8> = vec![0; 15];
    assert_eq!(unpack_response(&buffer, 5, 5).unwrap(), Vec::<u8>::new());
}

#[test]
fn connection_string_format() {
    assert_eq!(connection_string((192, 168, 8, 11), 1025), "192.168.8.11:1025");
    assert_eq!(connection_string((0, 0, 0, 0), 0), "0.0.0.0:0");
    assert_eq!(
        connection_string((255, 255, 255, 255), 65535),
        "255.255.255.255:65535"
    );
}
