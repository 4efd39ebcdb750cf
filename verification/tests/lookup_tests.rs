use atlas_baker::lookup::encode_lookup;
use atlas_baker::lookup::DictEntry;
use atlas_baker::lookup::GlyphEntry;
use atlas_baker::lookup::GlyphRec;
use atlas_baker::metrics::build_chars;
use atlas_baker::metrics::RawMeasure;
use atlas_baker::serialize::alpha_channel;
use atlas_baker::estimate::optimal_width;
use atlas_baker::metrics::GlyphMetrics;

fn rec(tag: u8) -> GlyphRec {
    GlyphRec { x: tag as u32, y: 0, w: tag, h: tag, off_x: 0, off_y: 0 }
}

fn entry(seq: Vec<u16>, tag: u8) -> GlyphEntry {
    GlyphEntry { seq, rec: rec(tag) }
}

#[test]
fn single_unit_sequences_fill_tier_one() {
    let entries = vec![entry(vec![0x41], 1), entry(vec![0x7532], 2)];
    let (map16, dict32) = encode_lookup(&entries);
    assert_eq!(map16.len(), 65536);
    assert_eq!(map16[0x41], rec(1));
    assert_eq!(map16[0x7532], rec(2));
    assert!(dict32.is_empty());
}

#[test]
fn absent_slots_hold_the_zero_sized_sentinel() {
    let entries = vec![entry(vec![0x41], 1)];
    let (map16, _) = encode_lookup(&entries);
    let zero = GlyphRec { x: 0, y: 0, w: 0, h: 0, off_x: 0, off_y: 0 };
    assert_eq!(map16[0x42], zero);
    assert_eq!(map16[0], zero);
    assert_eq!(map16[65535], zero);
    assert_eq!(map16[0x42].w, 0);
    assert_eq!(map16[0x42].h, 0);
}

#[test]
fn two_unit_sequence_keys_on_first_unit_only() {
    // A two-code-unit sequence is under the four-unit threshold, so it is
    // filed in tier 1 by its first unit alone; the second unit is discarded.
    // That is the format's literal behavior, kept as-is.
    let entries = vec![entry(vec![0x41, 0x42], 7)];
    let (map16, dict32) = encode_lookup(&entries);
    assert_eq!(map16[0x41], rec(7));
    assert_eq!(map16[0x42].w, 0);
    assert!(dict32.is_empty());
}

#[test]
fn three_unit_sequence_stays_in_tier_one() {
    let entries = vec![entry(vec![0x300, 0x301, 0x302], 9)];
    let (map16, dict32) = encode_lookup(&entries);
    assert_eq!(map16[0x300], rec(9));
    assert!(dict32.is_empty());
}

#[test]
fn long_sequences_fill_tier_two_sorted() {
    let entries = vec![
        entry(vec![0xD83D, 0xDE03, 0, 0], 3),
        entry(vec![0xD83D, 0xDE01, 0, 0], 1),
        entry(vec![0x1234, 0x5678, 0x9ABC, 0xDEF0], 2),
    ];
    let (map16, dict32) = encode_lookup(&entries);
    assert_eq!(map16[0xD83D].w, 0);
    assert_eq!(
        dict32,
        vec![
            DictEntry { k0: 0x1234, k1: 0x5678, rec: rec(2) },
            DictEntry { k0: 0xD83D, k1: 0xDE01, rec: rec(1) },
            DictEntry { k0: 0xD83D, k1: 0xDE03, rec: rec(3) },
        ]
    );
}

#[test]
fn later_entry_with_same_key_overwrites() {
    let entries = vec![
        entry(vec![0x41], 1),
        entry(vec![0x41], 2),
        entry(vec![1, 2, 3, 4], 3),
        entry(vec![1, 2, 9, 9], 4),
    ];
    let (map16, dict32) = encode_lookup(&entries);
    assert_eq!(map16[0x41], rec(2));
    assert_eq!(dict32, vec![DictEntry { k0: 1, k1: 2, rec: rec(4) }]);
}

#[test]
fn alpha_channel_takes_every_fourth_byte() {
    let rgba = vec![1u8, 2, 3, 4, 5, 6, 7, 8, 9, 10, 11, 12, 13, 14];
    assert_eq!(alpha_channel(&rgba), vec![4, 8, 12]);
    assert_eq!(alpha_channel(&Vec::new()), Vec::<u8>::new());
}

#[test]
fn metrics_apply_padding_symmetrically() {
    let ms = vec![RawMeasure { seq: vec![0x2603], advance: 9, ink_x: -3, ink_y: -7, ink_h: 11 }];
    let chars = build_chars(ms, 3);
    assert_eq!(chars.len(), 1);
    assert_eq!(chars[0].seq, vec![0x2603]);
    assert_eq!(chars[0].size, (15, 17));
    assert_eq!(chars[0].offset, (-6, -10));
}

#[test]
fn target_width_is_ceil_of_max_width_times_root_count() {
    let g = |w: u32| GlyphMetrics { seq: vec![0x41], size: (w, 1), offset: (0, 0) };
    // One glyph: width is the glyph's own width.
    assert_eq!(optimal_width(&vec![g(10)]), 10);
    // Three glyphs, widest 10: ceil(10 * sqrt(3)) = 18.
    assert_eq!(optimal_width(&vec![g(10), g(4), g(7)]), 18);
    // Four glyphs, widest 10: exactly 10 * 2.
    assert_eq!(optimal_width(&vec![g(10), g(1), g(2), g(3)]), 20);
}
