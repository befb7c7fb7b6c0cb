use widget_kit::color::{parse_hex, to_hex, Rgba8};

const PALETTE: [u32; 30] = [
    0xe5534b, 0xee8446, 0xe2a93b, 0xc9c24a, 0x7cc05a, 0x2db5ac, 0x4c9be8, 0x6f7fe8, 0x9d86f0,
    0xe3689b, 0x9c2f28, 0xa8531f, 0x9a6b10, 0x7d7a1c, 0x3f7f30, 0x13766f, 0x1b5fa8, 0x3d4bb0,
    0x6547cf, 0xa33b6b, 0x000000, 0x1f2328, 0x3a3f46, 0x5b626b, 0x7d858f, 0xa1a8b0, 0xc3c8ce,
    0xe1e4e8, 0xf3f4f6, 0xffffff,
];

fn rgb(value: u32) -> Rgba8 {
    Rgba8 { r: (value >> 16) as u8, g: (value >> 8) as u8, b: value as u8, a: 255 }
}

#[test]
fn colors_round_trip_through_hsv_and_hex() {
    for value in PALETTE {
        let color = rgb(value);
        assert_eq!(parse_hex(&to_hex(color)), Some(color), "{value:06x}");
    }

    assert_eq!(to_hex(Rgba8 { r: 255, g: 0, b: 0, a: 128 }), "#FF000080");
    assert_eq!(parse_hex("#f80").expect("renk"), rgb(0xff8800));
    assert_eq!(parse_hex("e2a93b").expect("renk"), rgb(0xe2a93b));
    assert_eq!(parse_hex("#12345"), None);
    assert_eq!(parse_hex("#GG0000"), None);
}

#[test]
fn codes_are_trimmed_and_written_in_upper_case() {
    assert_eq!(parse_hex("  ##0a0B0c\t"), Some(rgb(0x0a0b0c)));
    assert_eq!(parse_hex("#0A0B0C7F"), Some(Rgba8 { r: 10, g: 11, b: 12, a: 127 }));
    assert_eq!(parse_hex(""), None);
    assert_eq!(parse_hex("#"), None);
    assert_eq!(parse_hex("# fff"), None);
    assert_eq!(to_hex(rgb(0x0a0b0c)), "#0A0B0C");
}
