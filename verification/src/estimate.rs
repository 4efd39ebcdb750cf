use vstd::prelude::*;
use crate::metrics::GlyphMetrics;

verus! {

/// The widest padded glyph box in the list (zero for an empty list).
pub open spec fn max_glyph_width(ms: Seq<GlyphMetrics>) -> int
    decreases ms.len(),
{
    if ms.len() == 0 {
        0
    } else {
        let rest = max_glyph_width(ms.drop_last());
        if ms.last().size.0 > rest {
            ms.last().size.0 as int
        } else {
            rest
        }
    }
}

/// `t` is the target row width for this glyph list: the least integer at or
/// above `maxGlyphWidth * sqrt(glyphCount)`, characterized without square
/// roots as the least `t` with `t * t >= maxGlyphWidth^2 * glyphCount`.
pub open spec fn is_target_width(ms: Seq<GlyphMetrics>, t: int) -> bool {
    let m = max_glyph_width(ms) * max_glyph_width(ms) * ms.len();
    &&& t >= 0
    &&& t * t >= m
    &&& forall|s: int| 0 <= s < t ==> #[trigger] (s * s) < m
}

/// The target width is unique: two integers that both satisfy the least-
/// square characterization are equal.
pub proof fn lemma_target_width_unique(ms: Seq<GlyphMetrics>, t1: int, t2: int)
    requires
        is_target_width(ms, t1),
        is_target_width(ms, t2),
    ensures
        t1 == t2,
{
    let m = max_glyph_width(ms) * max_glyph_width(ms) * ms.len();
    if t1 < t2 {
        assert(t1 * t1 < m);
        assert(false);
    }
    if t2 < t1 {
        assert(t2 * t2 < m);
        assert(false);
    }
}

proof fn lemma_max_glyph_width_take(ms: Seq<GlyphMetrics>, i: int)
    requires
        0 <= i < ms.len(),
    ensures
        max_glyph_width(ms.take(i + 1)) == if ms[i].size.0 > max_glyph_width(ms.take(i)) {
            ms[i].size.0 as int
        } else {
            max_glyph_width(ms.take(i))
        },
{
    assert(ms.take(i + 1).drop_last() =~= ms.take(i));
    assert(ms.take(i + 1).last() == ms[i]);
}

proof fn lemma_max_glyph_width_nonneg(ms: Seq<GlyphMetrics>)
    ensures
        max_glyph_width(ms) >= 0,
    decreases ms.len(),
{
    if ms.len() > 0 {
        lemma_max_glyph_width_nonneg(ms.drop_last());
    }
}

/// The Width Estimator: picks the target atlas row width as
/// `ceil(maxGlyphWidth * sqrt(glyphCount))`, balancing a square-ish aspect
/// ratio against the glyph count. Undefined on an empty list; the caller
/// rejects that upstream.
pub fn optimal_width(chars: &Vec<GlyphMetrics>) -> (r: u64)
    requires
        chars@.len() > 0,
    ensures
        is_target_width(chars@, r as int),
{
    let ghost ms = chars@;
    let mut maxw: u32 = 0;
    let mut i: usize = 0;
    proof {
        assert(ms.take(0) =~= Seq::<GlyphMetrics>::empty());
    }
    while i < chars.len()
        invariant
            0 <= i <= ms.len(),
            chars@ == ms,
            maxw as int == max_glyph_width(ms.take(i as int)),
        decreases ms.len() - i,
    {
        proof {
            lemma_max_glyph_width_take(ms, i as int);
        }
        if chars[i].size.0 > maxw {
            maxw = chars[i].size.0;
        }
        i = i + 1;
    }
    proof {
        assert(ms.take(ms.len() as int) =~= ms);
    }
    proof {
        assert((maxw as int) * (maxw as int) < 0x1_0000_0000_0000_0000) by (nonlinear_arith)
            requires
                0 <= maxw < 0x1_0000_0000,
        ;
        assert((maxw as int) * (maxw as int) * (ms.len() as int) < 0x1_0000_0000_0000_0000
            * 0x1_0000_0000_0000_0000) by (nonlinear_arith)
            requires
                0 <= (maxw as int) * (maxw as int) < 0x1_0000_0000_0000_0000,
                0 <= ms.len() < 0x1_0000_0000_0000_0000,
        ;
    }
    let m: u128 = (maxw as u128) * (maxw as u128) * (chars.len() as u128);
    // Binary search for the integer square root: lo*lo <= m < hi*hi.
    let mut lo: u128 = 0;
    let mut hi: u128 = 0x1_0000_0000_0000_0000;
    proof {
        assert((hi as int) * (hi as int) > m) by (nonlinear_arith)
            requires
                hi == 0x1_0000_0000_0000_0000,
                m < 0x1_0000_0000_0000_0000 * 0x1_0000_0000_0000_0000,
        ;
    }
    while hi - lo > 1
        invariant
            0 <= lo < hi <= 0x1_0000_0000_0000_0000,
            (lo as int) * (lo as int) <= m,
            (hi as int) * (hi as int) > m,
        decreases hi - lo,
    {
        let mid: u128 = lo + (hi - lo) / 2;
        proof {
            assert((mid as int) * (mid as int) < 0x1_0000_0000_0000_0000
                * 0x1_0000_0000_0000_0000) by (nonlinear_arith)
                requires
                    0 <= mid < 0x1_0000_0000_0000_0000,
            ;
        }
        if mid * mid <= m {
            lo = mid;
        } else {
            hi = mid;
        }
    }
    // Now lo is the integer square root of m; round up unless exact.
    let r128: u128 = if lo * lo == m {
        lo
    } else {
        lo + 1
    };
    proof {
        // The result squares to at least m, and everything below it squares
        // to less than m.
        assert(hi == lo + 1);
        assert forall|s: int| 0 <= s < r128 implies #[trigger] (s * s) < m by {
            if lo * lo == m {
                assert(s * s < lo * lo) by (nonlinear_arith)
                    requires
                        0 <= s < lo,
                ;
            } else {
                assert(s * s <= lo * lo) by (nonlinear_arith)
                    requires
                        0 <= s <= lo,
                ;
            }
        }
        assert((r128 as int) * (r128 as int) >= m);
        // The result fits in u64: the width of the widest glyph times 2^32
        // squares to at least m, so the least such integer is no larger.
        lemma_max_glyph_width_nonneg(ms);
        let cap: int = 0xFFFF_FFFF_0000_0000;
        assert(cap * cap >= (maxw as int) * (maxw as int) * (ms.len() as int)) by (nonlinear_arith)
            requires
                cap == 0xFFFF_FFFF * 0x1_0000_0000,
                0 <= maxw <= 0xFFFF_FFFF,
                0 <= ms.len() < 0x1_0000_0000_0000_0000,
        ;
        if r128 > cap {
            assert(cap * cap < m);
            assert(false);
        }
    }
    let r: u64 = r128 as u64;
    proof {
        assert(is_target_width(ms, r as int));
    }
    r
}

} // verus!
