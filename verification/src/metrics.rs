use vstd::prelude::*;

verus! {

/// What the rendering backend reports for one glyph sequence: the advance
/// width of the drawn text and the ink bounding box (its top-left corner and
/// its height; the box width is folded into the advance by the measurement).
/// The sequence itself is carried as UTF-16 code units, the unit of the
/// lookup encoding.
#[derive(Debug)]
pub struct RawMeasure {
    pub seq: Vec<u16>,
    pub advance: u32,
    pub ink_x: i32,
    pub ink_y: i32,
    pub ink_h: u32,
}

/// One glyph's padded box and draw offset, derived from a measurement.
/// `size` is the padded bounding box; `offset` is the ink box's top-left
/// corner relative to the backend's natural draw origin, shifted out by the
/// padding. Records keep the input order: layout depends on it.
#[derive(Debug)]
pub struct GlyphMetrics {
    pub seq: Vec<u16>,
    pub size: (u32, u32),
    pub offset: (i32, i32),
}

/// How one metrics record relates to the measurement it came from.
pub open spec fn metrics_from(g: GlyphMetrics, m: RawMeasure, padding: int) -> bool {
    &&& g.seq@ == m.seq@
    &&& g.size.0 == m.advance + 2 * padding
    &&& g.size.1 == m.ink_h + 2 * padding
    &&& g.offset.0 == m.ink_x - padding
    &&& g.offset.1 == m.ink_y - padding
}

/// The Metrics Collector yields exactly one record per measurement, with
/// every sequence preserved in input order: for any list of measurements, a
/// record list that relates to it as the collector ensures has the same
/// length and carries the same sequences at the same positions.
pub proof fn lemma_collector_preserves_order(
    measures: Seq<RawMeasure>,
    records: Seq<GlyphMetrics>,
    padding: int,
)
    requires
        records.len() == measures.len(),
        forall|i: int| 0 <= i < records.len() ==> metrics_from(#[trigger] records[i], measures[i], padding),
    ensures
        forall|i: int| 0 <= i < records.len() ==> (#[trigger] records[i]).seq@ == measures[i].seq@,
{
}

/// The Metrics Collector: turns each backend measurement into a per-sequence
/// size-and-offset record, applying the padding symmetrically around the box
/// and shifting the ink offset out by the same amount. Order is preserved.
pub fn build_chars(measures: Vec<RawMeasure>, padding: u32) -> (r: Vec<GlyphMetrics>)
    requires
        forall|i: int|
            0 <= i < measures@.len() ==> {
                &&& measures@[i].advance + 2 * padding <= u32::MAX
                &&& measures@[i].ink_h + 2 * padding <= u32::MAX
                &&& measures@[i].ink_x - padding >= i32::MIN
                &&& measures@[i].ink_y - padding >= i32::MIN
            },
    ensures
        r@.len() == measures@.len(),
        forall|i: int| 0 <= i < r@.len() ==> metrics_from(r@[i], measures@[i], padding as int),
{
    let ghost all = measures@;
    let mut rest = measures;
    let mut out: Vec<GlyphMetrics> = Vec::new();
    while rest.len() > 0
        invariant
            out@.len() + rest@.len() == all.len(),
            rest@ == all.skip(out@.len() as int),
            forall|i: int|
                0 <= i < all.len() ==> {
                    &&& all[i].advance + 2 * padding <= u32::MAX
                    &&& all[i].ink_h + 2 * padding <= u32::MAX
                    &&& all[i].ink_x - padding >= i32::MIN
                    &&& all[i].ink_y - padding >= i32::MIN
                },
            forall|i: int| 0 <= i < out@.len() ==> metrics_from(out@[i], all[i], padding as int),
        decreases rest@.len(),
    {
        let ghost k = out@.len() as int;
        assert(rest@[0] == all[k]);
        let m = rest.remove(0);
        let g = GlyphMetrics {
            seq: m.seq,
            size: (m.advance + 2 * padding, m.ink_h + 2 * padding),
            offset: (
                (m.ink_x as i64 - padding as i64) as i32,
                (m.ink_y as i64 - padding as i64) as i32,
            ),
        };
        out.push(g);
        proof {
            assert(rest@ =~= all.skip(k + 1));
        }
    }
    out
}

} // verus!
