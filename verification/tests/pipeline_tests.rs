use atlas_baker::bake::plan_atlas;
use atlas_baker::errors::AtlasError;
use atlas_baker::layout::flatten_layout;
use atlas_baker::lookup::build_glyphs;
use atlas_baker::lookup::encode_lookup;
use atlas_baker::metrics::build_chars;
use atlas_baker::metrics::RawMeasure;
use atlas_baker::serialize::serialize_font;

type Rec = ((u32, u32), (u8, u8), (i8, i8));

fn measures_abc() -> Vec<RawMeasure> {
    vec![
        RawMeasure { seq: vec![0x41], advance: 10, ink_x: 1, ink_y: -8, ink_h: 10 },
        RawMeasure { seq: vec![0x42], advance: 12, ink_x: 1, ink_y: -9, ink_h: 12 },
        RawMeasure { seq: vec![0x41, 0x42], advance: 20, ink_x: 1, ink_y: -9, ink_h: 20 },
    ]
}

#[test]
fn example_three_sequences_metrics() {
    // Font size 32, padding 2: the Metrics Collector yields 3 records with
    // the padding folded into sizes and offsets.
    let chars = build_chars(measures_abc(), 2);
    assert_eq!(chars.len(), 3);
    assert_eq!(chars[0].size, (14, 14));
    assert_eq!(chars[0].offset, (-1, -10));
    assert_eq!(chars[1].size, (16, 16));
    assert_eq!(chars[2].size, (24, 24));
}

#[test]
fn example_three_sequences_layout() {
    // targetWidth = ceil(24 * sqrt(3)) = 42; rows wrap after the glyph that
    // would overflow: A and B share the first row, AB wraps to the second.
    let chars = build_chars(measures_abc(), 2);
    let plan = plan_atlas(&chars, 2).unwrap();
    assert_eq!(plan.width, 42);
    assert_eq!(plan.rows.len(), 2);
    assert_eq!(plan.rows[0].y, 2);
    assert_eq!(plan.rows[0].xs, vec![2, 18]);
    assert_eq!(plan.rows[1].y, 20);
    assert_eq!(plan.rows[1].xs, vec![2]);
    // Height: last row top (20) plus its largest height+padding (24+2).
    assert_eq!(plan.height, 46);
    let flat = flatten_layout(&plan.rows);
    assert_eq!(flat, vec![(2, 2), (18, 2), (2, 20)]);
}

#[test]
fn example_three_sequences_lookup() {
    // "A" and "B" land in tier 1 at 0x41 and 0x42. "AB" has two code units,
    // under the four-unit threshold, so it falls to tier 1 as well, indexed
    // by its first unit only: it overwrites the "A" slot. That is the
    // format's literal behavior for short multi-unit sequences.
    let chars = build_chars(measures_abc(), 2);
    let plan = plan_atlas(&chars, 2).unwrap();
    let flat = flatten_layout(&plan.rows);
    let entries = build_glyphs(&chars, &flat, 32).unwrap();
    assert_eq!(entries.len(), 3);
    let (map16, dict32) = encode_lookup(&entries);
    assert_eq!(map16.len(), 65536);
    assert_eq!(map16[0x41], entries[2].rec);
    assert_ne!(map16[0x41], entries[0].rec);
    assert_eq!(map16[0x42], entries[1].rec);
    assert!(dict32.is_empty());
    // Render offsets: (-inkOffset.x, fontSize - inkOffset.y), from the
    // padded ink offset (-1, -10) of "A".
    assert_eq!(entries[0].rec.off_x, 1);
    assert_eq!(entries[0].rec.off_y, 42);
    assert_eq!(entries[0].rec.w, 14);
    assert_eq!(entries[0].rec.h, 14);
    assert_eq!((entries[0].rec.x, entries[0].rec.y), (2, 2));
}

#[test]
fn serialized_output_round_trips() {
    let chars = build_chars(measures_abc(), 2);
    let plan = plan_atlas(&chars, 2).unwrap();
    let flat = flatten_layout(&plan.rows);
    let mut entries = build_glyphs(&chars, &flat, 32).unwrap();
    // Push one long sequence so tier 2 is exercised too.
    entries.push(atlas_baker::lookup::GlyphEntry {
        seq: vec![0xD83D, 0xDE00, 0x200D, 0x2764],
        rec: atlas_baker::lookup::GlyphRec { x: 7, y: 9, w: 3, h: 4, off_x: -1, off_y: 2 },
    });
    let (map16, dict32) = encode_lookup(&entries);
    let bitmap: Vec<u8> = (0..plan.width as usize * plan.height as usize)
        .map(|i| (i % 251) as u8)
        .collect();
    let blob = serialize_font(&bitmap, plan.width, &map16, &dict32);
    // The blob is compressed: it must not be the raw encoding itself.
    let raw = zstd::decode_all(&blob[..]).unwrap();
    assert_ne!(blob, raw);
    let decoded: (Vec<u8>, u32, Vec<Rec>, std::collections::BTreeMap<[u16; 2], Rec>) =
        postcard::from_bytes(&raw).unwrap();
    assert_eq!(decoded.0, bitmap);
    assert_eq!(decoded.1, 42);
    assert_eq!(decoded.2.len(), 65536);
    assert_eq!(decoded.2[0x42], ((18, 2), (16, 16), (1, 43)));
    assert_eq!(decoded.3.len(), 1);
    assert_eq!(decoded.3[&[0xD83D, 0xDE00]], ((7, 9), (3, 4), (-1, 2)));
}

#[test]
fn identical_inputs_identical_bytes() {
    // The whole pipeline is a function of its inputs: two runs over the same
    // measurements and bitmap give byte-identical compressed output.
    let run = || {
        let chars = build_chars(measures_abc(), 2);
        let plan = plan_atlas(&chars, 2).unwrap();
        let flat = flatten_layout(&plan.rows);
        let entries = build_glyphs(&chars, &flat, 32).unwrap();
        let (map16, dict32) = encode_lookup(&entries);
        let bitmap: Vec<u8> = vec![0xAB; plan.width as usize * plan.height as usize];
        serialize_font(&bitmap, plan.width, &map16, &dict32)
    };
    assert_eq!(run(), run());
}

#[test]
fn empty_input_is_rejected() {
    let chars = build_chars(Vec::new(), 2);
    assert_eq!(plan_atlas(&chars, 2).unwrap_err(), AtlasError::EmptyInput);
}

#[test]
fn empty_sequence_is_rejected() {
    let chars = build_chars(
        vec![RawMeasure { seq: vec![], advance: 10, ink_x: 0, ink_y: 0, ink_h: 10 }],
        0,
    );
    let offsets = vec![(0, 0)];
    assert_eq!(build_glyphs(&chars, &offsets, 32).unwrap_err(), AtlasError::EmptySequence);
}

#[test]
fn oversized_glyph_is_rejected() {
    let chars = build_chars(
        vec![RawMeasure { seq: vec![0x41], advance: 300, ink_x: 0, ink_y: 0, ink_h: 10 }],
        0,
    );
    let offsets = vec![(0, 0)];
    assert_eq!(build_glyphs(&chars, &offsets, 32).unwrap_err(), AtlasError::OversizedGlyph);
}
