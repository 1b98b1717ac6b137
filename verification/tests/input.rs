use otty_surface::ui::input::{byte_range_to_utf16, utf16_offset_to_byte, utf16_range_to_byte};

#[test]
fn converts_utf16_ranges_without_splitting_unicode_scalars() {
    let text = "a😀b";

    assert_eq!(utf16_range_to_byte(text, 1..3), 1..5);
    assert_eq!(byte_range_to_utf16(text, 1..5), 1..3);
}

#[test]
fn clamps_out_of_bounds_ime_ranges() {
    let text = "abc";
    let reversed_start = 99;
    let reversed_end = 1;

    assert_eq!(utf16_range_to_byte(text, 2..99), 2..3);
    assert_eq!(utf16_range_to_byte(text, reversed_start..reversed_end), 1..3);
}

#[test]
fn utf16_offset_inside_a_surrogate_pair_moves_back_to_the_scalar_start() {
    let text = "a😀b";

    assert_eq!(utf16_offset_to_byte(text, 0), 0);
    assert_eq!(utf16_offset_to_byte(text, 2), 1);
    assert_eq!(utf16_offset_to_byte(text, 4), 6);
    assert_eq!(utf16_offset_to_byte(text, 40), 6);
}

#[test]
fn byte_offsets_inside_a_scalar_move_back_to_its_boundary() {
    let text = "é😀";

    assert_eq!(byte_range_to_utf16(text, 1..3), 0..1);
    assert_eq!(byte_range_to_utf16(text, 6..2), 1..3);
    assert_eq!(byte_range_to_utf16(text, 0..100), 0..3);
}

#[test]
fn empty_text_maps_every_offset_to_zero() {
    assert_eq!(utf16_range_to_byte("", 3..7), 0..0);
    assert_eq!(byte_range_to_utf16("", 3..7), 0..0);
}

#[test]
fn aligned_ranges_round_trip() {
    let text = "a😀b";
    let units = 1..3;
    let bytes = utf16_range_to_byte(text, units.clone());
    assert_eq!(bytes, 1..5);
    assert_eq!(byte_range_to_utf16(text, bytes.clone()), units);
    assert_eq!(utf16_range_to_byte(text, byte_range_to_utf16(text, 0..6)), 0..6);
}
