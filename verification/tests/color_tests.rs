use damage_sync::color::{color_to_bytes, pack_rgb565, unpack_rgb565, COLOR_BLACK, COLOR_WHITE};

#[test]
fn pack_full_channels_is_white() {
    assert_eq!(pack_rgb565(31, 63, 31), COLOR_WHITE);
}

#[test]
fn pack_zero_channels_is_black() {
    assert_eq!(pack_rgb565(0, 0, 0), COLOR_BLACK);
}

#[test]
fn pack_exact_value() {
    // red in the top 5 bits, green in the middle 6, blue in the low 5
    assert_eq!(pack_rgb565(12, 24, 12), 12 * 2048 + 24 * 32 + 12);
    assert_eq!(pack_rgb565(1, 0, 0), 0x0800);
    assert_eq!(pack_rgb565(0, 1, 0), 0x0020);
    assert_eq!(pack_rgb565(0, 0, 1), 0x0001);
}

#[test]
fn unpack_inverts_pack() {
    for &(r, g, b) in &[(0u8, 0u8, 0u8), (31, 63, 31), (12, 24, 12), (1, 2, 3)] {
        assert_eq!(unpack_rgb565(pack_rgb565(r, g, b)), (r, g, b));
    }
}

#[test]
fn color_bytes_are_big_endian() {
    assert_eq!(color_to_bytes(0x1234), (0x12, 0x34));
    assert_eq!(color_to_bytes(COLOR_WHITE), (0xFF, 0xFF));
    assert_eq!(color_to_bytes(0x00FF), (0x00, 0xFF));
}
