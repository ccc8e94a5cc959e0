use dan_core_n::color::{ColorHex, ColorRgb};

#[test]
fn hex_splits_into_channels() {
    let rgb = ColorHex(0x12_34_56).to_rgb();
    assert_eq!(rgb, ColorRgb { r: 0x12, g: 0x34, b: 0x56 });
}

#[test]
fn channels_pack_into_hex() {
    let hex = ColorRgb { r: 0xFF, g: 0x00, b: 0x80 }.to_hex();
    assert_eq!(hex, ColorHex(0xFF_00_80));
}

#[test]
fn hex_round_trip_keeps_24_bits() {
    for value in [0, 1, 0xFF, 0x100, 0xABCDEF, 0xFFFFFF] {
        assert_eq!(ColorHex(value).to_rgb().to_hex(), ColorHex(value));
    }
}

#[test]
fn bits_above_the_24th_are_ignored() {
    assert_eq!(ColorHex(0x7F_12_34_56).to_rgb(), ColorRgb { r: 0x12, g: 0x34, b: 0x56 });
    assert_eq!(ColorHex(-1).to_rgb(), ColorRgb { r: 0xFF, g: 0xFF, b: 0xFF });
}
