use ws2812b_driver::command::Command;

fn frame(text: &str) -> Vec<u8> {
    text.as_bytes().to_vec()
}

#[test]
fn decode_accepts_pixel_one() {
    // strip and pixel are each four hex digits, big-endian
    let c = Command::from_serial(&frame("0000000100000000\n")).expect("frame is valid");
    assert_eq!(c, Command { strip: 0, pixel: 1, rgb: (0, 0, 0) });
    let c = Command::from_serial(&frame("0001000000000000\n")).expect("frame is valid");
    assert_eq!(c, Command { strip: 1, pixel: 0, rgb: (0, 0, 0) });
}

#[test]
fn decode_reads_fields_in_both_cases() {
    let c = Command::from_serial(&frame("000301FFabCDeF00\n")).expect("frame is valid");
    assert_eq!(c.strip, 3);
    assert_eq!(c.pixel, 511);
    assert_eq!(c.rgb, (0xab, 0xcd, 0xef));
}

#[test]
fn decode_rejects_reserved_byte() {
    assert_eq!(Command::from_serial(&frame("0001000000000001\n")), None);
}

#[test]
fn decode_rejects_missing_newline() {
    assert_eq!(Command::from_serial(&frame("0001000000000000\r")), None);
    assert_eq!(Command::from_serial(&frame("0001000000000000")), None);
    assert_eq!(Command::from_serial(&frame("")), None);
}

#[test]
fn decode_rejects_non_hex() {
    assert_eq!(Command::from_serial(&frame("000100000000000g\n")), None);
    assert_eq!(Command::from_serial(&frame("x001000000000000\n")), None);
    assert_eq!(Command::from_serial(&frame("0001 00000000000\n")), None);
}

#[test]
fn decode_rejects_strip_out_of_range() {
    assert_eq!(Command::from_serial(&frame("0004000000000000\n")), None);
    assert_eq!(Command::from_serial(&frame("0100000000000000\n")), None);
}

#[test]
fn decode_rejects_pixel_out_of_range() {
    assert_eq!(Command::from_serial(&frame("0000020000000000\n")), None);
    assert!(Command::from_serial(&frame("000001ff00000000\n")).is_some());
}

#[test]
fn decode_ignores_bytes_after_the_newline() {
    let c = Command::from_serial(&frame("0002000a10203000\nzz")).expect("frame is valid");
    assert_eq!(c, Command { strip: 2, pixel: 10, rgb: (0x10, 0x20, 0x30) });
}

#[test]
fn pack_exact_word() {
    let c = Command { strip: 1, pixel: 2, rgb: (0x80, 0x40, 0x02) };
    assert_eq!(c.to_u32(), 0x4050_1001);
}

#[test]
fn unpack_exact_command() {
    assert_eq!(Command::from_u32(0xFFFF_FFFF), Command { strip: 3, pixel: 511, rgb: (254, 254, 254) });
    assert_eq!(Command::from_u32(0x4050_1001), Command { strip: 1, pixel: 2, rgb: (0x80, 0x40, 0x02) });
}

#[test]
fn round_trip_on_valid_range() {
    for &(strip, pixel, rgb) in &[(0, 0, (0, 0, 0)), (3, 511, (254, 254, 254)), (2, 300, (100, 2, 68))] {
        let c = Command { strip, pixel, rgb };
        assert_eq!(Command::from_u32(c.to_u32()), c);
    }
}

#[test]
fn round_trip_clears_odd_channel_bit() {
    let c = Command { strip: 1, pixel: 7, rgb: (255, 13, 1) };
    let back = Command::from_u32(c.to_u32());
    assert_eq!(back.rgb, (255 & 0xFE, 13 & 0xFE, 1 & 0xFE));
    assert_eq!(back.rgb, (254, 12, 0));
}

#[test]
fn pack_truncates_out_of_range_fields() {
    let word = Command { strip: 7, pixel: 1000, rgb: (0, 0, 0) }.to_u32();
    assert_eq!(word >> 30, 3);
    assert_eq!((word >> 21) & 0x1FF, 488);
    assert_eq!(word, 0xFD00_0000);
}

#[test]
fn pack_is_idempotent_once_packed() {
    let word = Command { strip: 2, pixel: 99, rgb: (77, 78, 79) }.to_u32();
    assert_eq!(Command::from_u32(word).to_u32(), word);
}

#[test]
fn serial_len_is_seventeen() {
    assert_eq!(Command::SERIAL_LEN, 17);
}
