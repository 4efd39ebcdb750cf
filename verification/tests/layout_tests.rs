use atlas_baker::bake::draw_origin;
use atlas_baker::errors::AtlasError;
use atlas_baker::layout::atlas_height;
use atlas_baker::layout::build_layout;
use atlas_baker::layout::flatten_layout;
use atlas_baker::metrics::GlyphMetrics;

fn glyph(w: u32, h: u32) -> GlyphMetrics {
    GlyphMetrics { seq: vec![0x41], size: (w, h), offset: (0, 0) }
}

#[test]
fn flatten_matches_input_count() {
    let chars = vec![glyph(5, 5), glyph(6, 4), glyph(7, 3), glyph(8, 2), glyph(2, 9)];
    let rows = build_layout(&chars, 20, 1).unwrap();
    let flat = flatten_layout(&rows);
    assert_eq!(flat.len(), chars.len());
}

#[test]
fn rows_wrap_at_target_width() {
    // Width 20, padding 1: cursor starts at 1; 5 then 6 fit (cursor 15),
    // 7 would end at 23 > 20, so it wraps.
    let chars = vec![glyph(5, 5), glyph(6, 4), glyph(7, 3)];
    let rows = build_layout(&chars, 20, 1).unwrap();
    assert_eq!(rows.len(), 2);
    assert_eq!(rows[0].y, 1);
    assert_eq!(rows[0].xs, vec![1, 7]);
    // New row top: 1 + max(5+1, 4+1) = 7.
    assert_eq!(rows[1].y, 7);
    assert_eq!(rows[1].xs, vec![1]);
}

#[test]
fn oversized_glyph_sits_alone_and_overflows() {
    // A glyph wider than width - 2*padding is never split: it is placed
    // alone at the row start, overflowing the soft target width.
    let chars = vec![glyph(30, 5), glyph(4, 4)];
    let rows = build_layout(&chars, 20, 2).unwrap();
    assert_eq!(rows.len(), 3);
    // The first (still empty) row is closed immediately and kept.
    assert_eq!(rows[0].xs, Vec::<u32>::new());
    assert_eq!(rows[1].xs, vec![2]);
    assert_eq!(rows[2].xs, vec![2]);
}

#[test]
fn height_is_last_row_top_plus_max_padded_height() {
    let chars = vec![glyph(5, 5), glyph(6, 4), glyph(7, 3)];
    let rows = build_layout(&chars, 20, 1).unwrap();
    let h = atlas_height(&rows, &chars, 1);
    // Last row holds the third glyph: top 7 plus (3 + 1).
    assert_eq!(h, 11);
}

#[test]
fn coordinates_beyond_u32_are_rejected() {
    // Every glyph wraps to its own row; the row tops outgrow u32.
    let tall = 0xFFFF_0000u32;
    let chars = vec![glyph(100, tall), glyph(100, tall), glyph(100, tall)];
    let e = build_layout(&chars, 50, 0).unwrap_err();
    assert_eq!(e, AtlasError::CoordinateOverflow);
}

#[test]
fn zero_width_glyphs_share_one_row() {
    let chars = vec![glyph(0, 1), glyph(0, 2), glyph(0, 3)];
    let rows = build_layout(&chars, 10, 0).unwrap();
    assert_eq!(rows.len(), 1);
    assert_eq!(rows[0].y, 0);
    assert_eq!(rows[0].xs, vec![0, 0, 0]);
    assert_eq!(atlas_height(&rows, &chars, 0), 3);
}

#[test]
fn draw_origin_subtracts_ink_offset() {
    let g = GlyphMetrics { seq: vec![0x41], size: (14, 14), offset: (-1, -10) };
    assert_eq!(draw_origin(2, 20, &g), (3, 30));
    let g2 = GlyphMetrics { seq: vec![0x42], size: (5, 5), offset: (4, 7) };
    assert_eq!(draw_origin(0, 0, &g2), (-4, -7));
}
