use qoi::{apply_diff, apply_luma, low_six_bits, Hash64, Opcode, Pixel, PixelCache};

#[test]
fn hash_is_the_weighted_sum_modulo_64() {
    assert_eq!(Pixel::new(10, 20, 30, 255).hash64(), 9);
    assert_eq!(Pixel::new(10, 20, 30, 254).hash64(), 62);
    assert_eq!(Pixel::new(0, 0, 0, 0).hash64(), 0);
    assert_eq!(Pixel::new(0, 0, 0, 255).hash64(), 53);
    assert_eq!(Pixel::new(1, 2, 3, 255).hash64(), 23);
    assert_eq!(Pixel::new(255, 255, 255, 255).hash64(), 38);
}

#[test]
fn hash_weights_are_3_5_7_11() {
    assert_eq!(Pixel::new(1, 0, 0, 0).hash64(), 3);
    assert_eq!(Pixel::new(0, 1, 0, 0).hash64(), 5);
    assert_eq!(Pixel::new(0, 0, 1, 0).hash64(), 7);
    assert_eq!(Pixel::new(0, 0, 0, 1).hash64(), 11);
}

#[test]
fn hash_is_below_64_for_every_gray() {
    for v in 0..=255u8 {
        assert!(Pixel::new(v, v, v, v).hash64() < 64);
        assert_eq!(Pixel::new(v, v, v, v).hash64() as u32, (v as u32 * 26) % 64);
    }
}

#[test]
fn pixel_keeps_its_samples() {
    let p = Pixel::new(1, 2, 3, 4);
    assert_eq!((p.r, p.g, p.b, p.a), (1, 2, 3, 4));
    assert_eq!(p, Pixel { r: 1, g: 2, b: 3, a: 4 });
}

#[test]
fn tags_select_their_opcodes() {
    assert_eq!(Opcode::of_tag(0xfe), Opcode::Rgb);
    assert_eq!(Opcode::of_tag(0xff), Opcode::Rgba);
    assert_eq!(Opcode::of_tag(0x00), Opcode::Index);
    assert_eq!(Opcode::of_tag(0x3f), Opcode::Index);
    assert_eq!(Opcode::of_tag(0x40), Opcode::Diff);
    assert_eq!(Opcode::of_tag(0x7f), Opcode::Diff);
    assert_eq!(Opcode::of_tag(0x80), Opcode::Luma);
    assert_eq!(Opcode::of_tag(0xbf), Opcode::Luma);
    assert_eq!(Opcode::of_tag(0xc0), Opcode::Run);
    assert_eq!(Opcode::of_tag(0xfd), Opcode::Run);
}

#[test]
fn every_tag_goes_by_its_top_two_bits() {
    for tag in 0..=0xfdu8 {
        let expected = match tag >> 6 {
            0 => Opcode::Index,
            1 => Opcode::Diff,
            2 => Opcode::Luma,
            _ => Opcode::Run,
        };
        assert_eq!(Opcode::of_tag(tag), expected);
    }
}

#[test]
fn low_six_bits_drop_the_top_two() {
    assert_eq!(low_six_bits(0x00), 0);
    assert_eq!(low_six_bits(0x3f), 63);
    assert_eq!(low_six_bits(0xc0), 0);
    assert_eq!(low_six_bits(0xc2), 2);
    assert_eq!(low_six_bits(0xfd), 61);
    assert_eq!(low_six_bits(0x7f), 63);
}

#[test]
fn diff_wraps_below_zero() {
    let prev = Pixel::new(0, 5, 255, 77);
    // red field 0 (-2), green field 2 (0), blue field 3 (+1)
    assert_eq!(apply_diff(prev, 0x4b), Pixel::new(254, 5, 0, 77));
    assert_eq!(apply_diff(Pixel::new(0, 0, 0, 255), 0x40), Pixel::new(254, 254, 254, 255));
}

#[test]
fn diff_wraps_above_255() {
    assert_eq!(apply_diff(Pixel::new(255, 255, 255, 9), 0x7f), Pixel::new(0, 0, 0, 9));
}

#[test]
fn diff_with_middle_fields_changes_nothing() {
    let prev = Pixel::new(100, 100, 100, 100);
    assert_eq!(apply_diff(prev, 0x6a), prev);
}

#[test]
fn diff_fields_are_red_green_blue_from_the_top()
{
    let prev = Pixel::new(10, 10, 10, 1);
    assert_eq!(apply_diff(prev, 0b0111_1010), Pixel::new(11, 10, 10, 1));
    assert_eq!(apply_diff(prev, 0b0110_1110), Pixel::new(10, 11, 10, 1));
    assert_eq!(apply_diff(prev, 0b0110_1011), Pixel::new(10, 10, 11, 1));
    assert_eq!(apply_diff(prev, 0b0100_0000), Pixel::new(8, 8, 8, 1));
    assert_eq!(apply_diff(prev, 0b0101_0101), Pixel::new(9, 9, 9, 1));
}

#[test]
fn luma_moves_green_then_red_and_blue_relative_to_it() {
    assert_eq!(apply_luma(Pixel::new(100, 110, 120, 255), 0x90, 0x3c), Pixel::new(79, 94, 108, 255));
}

#[test]
fn luma_wraps_below_zero() {
    assert_eq!(apply_luma(Pixel::new(10, 0, 20, 9), 0x9f, 0x88), Pixel::new(9, 255, 19, 9));
    assert_eq!(apply_luma(Pixel::new(0, 0, 0, 1), 0x80, 0xf0), Pixel::new(231, 224, 216, 1));
}

#[test]
fn luma_wraps_above_255() {
    assert_eq!(apply_luma(Pixel::new(250, 250, 250, 3), 0xbf, 0xff), Pixel::new(0, 249, 0, 3));
}

#[test]
fn luma_green_field_is_the_low_five_bits() {
    let prev = Pixel::new(0, 0, 0, 1);
    for byte in [0x00u8, 0x88, 0xf0, 0x0f] {
        assert_eq!(apply_luma(prev, 0xa0, byte), apply_luma(prev, 0x80, byte));
        assert_eq!(apply_luma(prev, 0xbf, byte), apply_luma(prev, 0x9f, byte));
    }
    assert_eq!(apply_luma(prev, 0x80, 0x88).g, 224);
    assert_eq!(apply_luma(prev, 0x9f, 0x88).g, 255);
}

#[test]
fn fresh_cache_is_all_zero() {
    let cache = PixelCache::new();
    for slot in 0..64u8 {
        assert_eq!(cache.get(slot), Pixel::new(0, 0, 0, 0));
    }
}

#[test]
fn stored_pixel_is_found_at_its_hash() {
    let mut cache = PixelCache::new();
    let p = Pixel::new(10, 20, 30, 255);
    cache.store(p);
    assert_eq!(cache.get(9), p);
    for slot in (0..64u8).filter(|s| *s != 9) {
        assert_eq!(cache.get(slot), Pixel::new(0, 0, 0, 0));
    }
}

#[test]
fn last_write_wins_a_shared_slot() {
    let first = Pixel::new(1, 0, 0, 0);
    let second = Pixel::new(0, 0, 0, 41);
    assert_eq!(first.hash64(), 3);
    assert_eq!(second.hash64(), 3);
    let mut cache = PixelCache::new();
    cache.store(first);
    assert_eq!(cache.get(3), first);
    cache.store(second);
    assert_eq!(cache.get(3), second);
    cache.store(first);
    assert_eq!(cache.get(3), first);
}

#[test]
fn pixels_in_different_slots_do_not_disturb_each_other() {
    let mut cache = PixelCache::new();
    let p = Pixel::new(10, 20, 30, 255);
    let q = Pixel::new(10, 20, 30, 254);
    cache.store(p);
    cache.store(q);
    assert_eq!(cache.get(9), p);
    assert_eq!(cache.get(62), q);
}
