use vstd::prelude::*;
use crate::errors::AtlasError;
use crate::estimate::is_target_width;
use crate::estimate::lemma_target_width_unique;
use crate::estimate::optimal_width;
use crate::layout::Row;
use crate::layout::atlas_height;
use crate::layout::build_layout;
use crate::layout::layout_fits;
use crate::layout::lemma_atlas_height_bounds;
use crate::layout::pack_rows;
use crate::layout::rows_model;
use crate::layout::sizes_of;
use crate::layout::sizes_ok;
use crate::layout::spec_atlas_height;
use crate::lookup::DictEntry;
use crate::lookup::GlyphRec;
use crate::metrics::GlyphMetrics;
use crate::serialize::serialized_font;

verus! {

/// Everything the layout stage decides: the target row width, the packed
/// rows, and the resulting atlas height.
#[derive(Debug)]
pub struct AtlasPlan {
    pub width: u32,
    pub rows: Vec<Row>,
    pub height: u64,
}

/// Sizes drawn from unsigned metrics are non-negative.
proof fn lemma_sizes_nonneg(ms: Seq<GlyphMetrics>)
    ensures
        sizes_ok(sizes_of(ms)),
        sizes_of(ms).len() == ms.len(),
{
    assert forall|j: int| 0 <= j < sizes_of(ms).len() implies (#[trigger] sizes_of(ms)[j]).0 >= 0
        && sizes_of(ms)[j].1 >= 0 by {
        assert(sizes_of(ms)[j] == (ms[j].size.0 as int, ms[j].size.1 as int));
    }
}

/// The layout stage of the pipeline: estimate the target width from the
/// metrics, pack the glyphs into rows, and size the atlas. An empty glyph
/// list is rejected, as is a layout whose coordinates or target width do not
/// fit the unsigned 32-bit fields of the output format.
pub fn plan_atlas(chars: &Vec<GlyphMetrics>, padding: u32) -> (r: Result<AtlasPlan, AtlasError>)
    ensures
        match r {
            Ok(plan) => {
                &&& chars@.len() > 0
                &&& is_target_width(chars@, plan.width as int)
                &&& rows_model(plan.rows@) == pack_rows(
                    sizes_of(chars@),
                    plan.width as int,
                    padding as int,
                )
                &&& layout_fits(sizes_of(chars@), plan.width as int, padding as int)
                &&& plan.height as int == spec_atlas_height(
                    rows_model(plan.rows@),
                    sizes_of(chars@),
                    padding as int,
                )
            },
            Err(e) => {
                ||| (e == AtlasError::EmptyInput && chars@.len() == 0)
                ||| (e == AtlasError::CoordinateOverflow && chars@.len() > 0 && exists|t: int|
                    is_target_width(chars@, t) && (t > u32::MAX || !layout_fits(
                        sizes_of(chars@),
                        t,
                        padding as int,
                    )))
            },
        },
{
    if chars.len() == 0 {
        return Err(AtlasError::EmptyInput);
    }
    let width64 = optimal_width(chars);
    if width64 > (u32::MAX as u64) {
        proof {
            assert(is_target_width(chars@, width64 as int) && (width64 as int > u32::MAX
                || !layout_fits(sizes_of(chars@), width64 as int, padding as int)));
        }
        return Err(AtlasError::CoordinateOverflow);
    }
    let width = width64 as u32;
    let rows = match build_layout(chars, width64, padding) {
        Ok(rows) => rows,
        Err(_) => {
            proof {
                assert(is_target_width(chars@, width64 as int) && (width64 as int > u32::MAX
                    || !layout_fits(sizes_of(chars@), width64 as int, padding as int)));
            }
            return Err(AtlasError::CoordinateOverflow);
        },
    };
    proof {
        lemma_sizes_nonneg(chars@);
        lemma_atlas_height_bounds(sizes_of(chars@), width64 as int, padding as int);
        assert(rows_model(rows@).len() == rows@.len());
        assert(rows_model(rows@).last() == rows@.last().model());
    }
    let height = atlas_height(&rows, chars, padding);
    Ok(AtlasPlan { width, rows, height })
}

/// The Atlas Renderer's one computation: the backend draw origin for a glyph
/// packed at `(x, y)` is the packed position minus the glyph's ink offset.
/// The backend's draw call itself lives with the caller.
pub fn draw_origin(x: u32, y: u32, glyph: &GlyphMetrics) -> (o: (i64, i64))
    ensures
        o.0 == x - glyph.offset.0,
        o.1 == y - glyph.offset.1,
{
    ((x as i64) - (glyph.offset.0 as i64), (y as i64) - (glyph.offset.1 as i64))
}

/// Baking is deterministic: run the pipeline twice on the same metrics list,
/// padding, rendered bitmap and lookup tiers, and every stage agrees — the
/// target width is unique, the packed layout is a function of sizes, width
/// and padding, and the serialized, compressed bytes are a function of the
/// assembled asset. Byte-identical inputs therefore give byte-identical
/// output.
pub proof fn lemma_bake_deterministic(
    ms1: Seq<GlyphMetrics>,
    ms2: Seq<GlyphMetrics>,
    padding: int,
    t1: int,
    t2: int,
    bitmap1: Seq<u8>,
    bitmap2: Seq<u8>,
    w1: u32,
    w2: u32,
    m1: Seq<GlyphRec>,
    m2: Seq<GlyphRec>,
    d1: Seq<DictEntry>,
    d2: Seq<DictEntry>,
)
    requires
        ms1 == ms2,
        is_target_width(ms1, t1),
        is_target_width(ms2, t2),
        bitmap1 == bitmap2,
        w1 == w2,
        m1 == m2,
        d1 == d2,
    ensures
        t1 == t2,
        pack_rows(sizes_of(ms1), t1, padding) == pack_rows(sizes_of(ms2), t2, padding),
        serialized_font(bitmap1, w1, m1, d1) == serialized_font(bitmap2, w2, m2, d2),
{
    lemma_target_width_unique(ms1, t1, t2);
}

} // verus!
