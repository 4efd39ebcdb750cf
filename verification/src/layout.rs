use vstd::prelude::*;
use crate::errors::AtlasError;
use crate::metrics::GlyphMetrics;

verus! {

/// One packed row of the atlas: its top Y coordinate and the X offset of
/// every glyph placed in it, in placement order.
#[derive(Debug)]
pub struct Row {
    pub y: u32,
    pub xs: Vec<u32>,
}

/// The mathematical image of a row.
#[verifier::ext_equal]
pub ghost struct RowModel {
    pub y: int,
    pub xs: Seq<int>,
}

pub open spec fn xs_model(xs: Seq<u32>) -> Seq<int> {
    xs.map(|i: int, x: u32| x as int)
}

impl Row {
    pub open spec fn model(self) -> RowModel {
        RowModel { y: self.y as int, xs: xs_model(self.xs@) }
    }
}

pub open spec fn rows_model(rows: Seq<Row>) -> Seq<RowModel> {
    rows.map(|i: int, r: Row| r.model())
}

/// The padded sizes (width, height) of each glyph, the packer's only input
/// besides the target width and the padding.
pub open spec fn sizes_of(ms: Seq<GlyphMetrics>) -> Seq<(int, int)> {
    ms.map(|i: int, g: GlyphMetrics| (g.size.0 as int, g.size.1 as int))
}

pub open spec fn sizes_ok(sizes: Seq<(int, int)>) -> bool {
    forall|j: int| 0 <= j < sizes.len() ==> (#[trigger] sizes[j]).0 >= 0 && sizes[j].1 >= 0
}

/// The packer's running state: the closed rows, the top Y and collected X
/// offsets of the row being filled, the horizontal cursor, and the largest
/// padded glyph height seen in the open row.
#[verifier::ext_equal]
pub ghost struct PackState {
    pub done: Seq<RowModel>,
    pub y: int,
    pub xs: Seq<int>,
    pub off: int,
    pub row_max: int,
}

pub open spec fn pack_init(padding: int) -> PackState {
    PackState { done: Seq::empty(), y: padding, xs: Seq::empty(), off: padding, row_max: 0 }
}

/// A glyph of width `w` wraps when it would not fit the open row.
pub open spec fn wraps(st: PackState, w: int, width: int, padding: int) -> bool {
    st.off + w + padding > width
}

/// One greedy packing step: close the open row and move below it when the
/// glyph would overflow, then place the glyph at the cursor and advance.
pub open spec fn pack_step(st: PackState, w: int, h: int, width: int, padding: int) -> PackState {
    let base = if wraps(st, w, width, padding) {
        PackState {
            done: st.done.push(RowModel { y: st.y, xs: st.xs }),
            y: st.y + st.row_max,
            xs: Seq::empty(),
            off: padding,
            row_max: 0,
        }
    } else {
        st
    };
    PackState {
        done: base.done,
        y: base.y,
        xs: base.xs.push(base.off),
        off: base.off + w + padding,
        row_max: if h + padding > base.row_max {
            h + padding
        } else {
            base.row_max
        },
    }
}

pub open spec fn pack_fold(sizes: Seq<(int, int)>, width: int, padding: int, n: int) -> PackState
    decreases n,
{
    if n <= 0 {
        pack_init(padding)
    } else {
        pack_step(
            pack_fold(sizes, width, padding, n - 1),
            sizes[n - 1].0,
            sizes[n - 1].1,
            width,
            padding,
        )
    }
}

/// Close the still-open row; an empty open row (only possible for an empty
/// input) is discarded.
pub open spec fn pack_finish(st: PackState) -> Seq<RowModel> {
    if st.xs.len() == 0 {
        st.done
    } else {
        st.done.push(RowModel { y: st.y, xs: st.xs })
    }
}

/// The full greedy layout of the glyph list.
pub open spec fn pack_rows(sizes: Seq<(int, int)>, width: int, padding: int) -> Seq<RowModel> {
    pack_finish(pack_fold(sizes, width, padding, sizes.len() as int))
}

/// The (x, y) placement pairs of one row, in placement order.
pub open spec fn row_pairs(y: int, xs: Seq<int>) -> Seq<(int, int)> {
    xs.map(|j: int, x: int| (x, y))
}

/// Row-major flattening of a layout back into one (x, y) pair per glyph.
pub open spec fn flat_offsets(rows: Seq<RowModel>) -> Seq<(int, int)>
    decreases rows.len(),
{
    if rows.len() == 0 {
        Seq::empty()
    } else {
        row_pairs(rows[0].y, rows[0].xs) + flat_offsets(rows.drop_first())
    }
}

pub open spec fn full_flat(st: PackState) -> Seq<(int, int)> {
    flat_offsets(st.done) + row_pairs(st.y, st.xs)
}

/// A glyph's right edge stays within the target width unless the glyph alone
/// is too wide for a padded row.
pub open spec fn right_edge_ok(x: int, w: int, width: int, padding: int) -> bool {
    x + w <= width || w + 2 * padding > width
}

/// The largest padded glyph height among `sizes[lo..hi]` (zero for an empty
/// range).
pub open spec fn row_max_of(sizes: Seq<(int, int)>, lo: int, hi: int, padding: int) -> int
    decreases hi - lo,
{
    if lo >= hi {
        0
    } else {
        let rest = row_max_of(sizes, lo, hi - 1, padding);
        if sizes[hi - 1].1 + padding > rest {
            sizes[hi - 1].1 + padding
        } else {
            rest
        }
    }
}

proof fn lemma_flat_push(rows: Seq<RowModel>, r: RowModel)
    ensures
        flat_offsets(rows.push(r)) == flat_offsets(rows) + row_pairs(r.y, r.xs),
    decreases rows.len(),
{
    let pushed = rows.push(r);
    if rows.len() == 0 {
        assert(pushed.drop_first() =~= Seq::<RowModel>::empty());
        assert(pushed[0] == r);
        assert(flat_offsets(pushed.drop_first()) == Seq::<(int, int)>::empty());
        assert(flat_offsets(pushed) == row_pairs(r.y, r.xs) + Seq::<(int, int)>::empty());
        assert(flat_offsets(rows) == Seq::<(int, int)>::empty());
        assert(row_pairs(r.y, r.xs) + Seq::<(int, int)>::empty() =~= Seq::<(int, int)>::empty()
            + row_pairs(r.y, r.xs));
    } else {
        assert(pushed.drop_first() =~= rows.drop_first().push(r));
        lemma_flat_push(rows.drop_first(), r);
        assert(pushed[0] == rows[0]);
        assert(flat_offsets(pushed) == row_pairs(rows[0].y, rows[0].xs) + (flat_offsets(
            rows.drop_first(),
        ) + row_pairs(r.y, r.xs)));
        assert(row_pairs(rows[0].y, rows[0].xs) + (flat_offsets(rows.drop_first()) + row_pairs(
            r.y,
            r.xs,
        )) =~= (row_pairs(rows[0].y, rows[0].xs) + flat_offsets(rows.drop_first())) + row_pairs(
            r.y,
            r.xs,
        ));
        assert(flat_offsets(rows) == row_pairs(rows[0].y, rows[0].xs) + flat_offsets(
            rows.drop_first(),
        ));
    }
}

/// After at least one glyph, the open row always holds a glyph.
pub proof fn lemma_open_row_nonempty(sizes: Seq<(int, int)>, width: int, padding: int, i: int)
    requires
        1 <= i,
    ensures
        pack_fold(sizes, width, padding, i).xs.len() >= 1,
{
}

/// The running invariants of the greedy packer, by induction over the glyphs
/// already placed: the flattened placements pair one-to-one with the glyphs
/// in input order; every placed glyph satisfies the right-edge rule; every
/// glyph in a closed row has its padded bottom at or above the open row's
/// top; the open row's glyphs sit at its top, and the running row maximum is
/// exactly the largest padded height among them.
pub proof fn lemma_pack_invariants(sizes: Seq<(int, int)>, width: int, padding: int, i: int)
    requires
        0 <= i <= sizes.len(),
        padding >= 0,
        sizes_ok(sizes),
    ensures
        ({
            let st = pack_fold(sizes, width, padding, i);
            &&& full_flat(st).len() == i
            &&& st.xs.len() <= i
            &&& flat_offsets(st.done).len() == i - st.xs.len()
            &&& st.row_max == row_max_of(sizes, i - st.xs.len(), i, padding)
            &&& st.row_max >= 0
            &&& forall|j: int|
                0 <= j < i ==> right_edge_ok(
                    (#[trigger] full_flat(st)[j]).0,
                    sizes[j].0,
                    width,
                    padding,
                )
            &&& forall|j: int|
                0 <= j < i - st.xs.len() ==> (#[trigger] full_flat(st)[j]).1 + sizes[j].1
                    + padding <= st.y
            &&& forall|j: int|
                i - st.xs.len() <= j < i ==> (#[trigger] full_flat(st)[j]).1 == st.y
            &&& forall|j: int|
                i - st.xs.len() <= j < i ==> sizes[j].1 + padding <= st.row_max
        }),
    decreases i,
{
    if i == 0 {
        let st = pack_fold(sizes, width, padding, 0);
        assert(row_pairs(st.y, st.xs) =~= Seq::<(int, int)>::empty());
        assert(full_flat(st) =~= Seq::<(int, int)>::empty());
    } else {
        lemma_pack_invariants(sizes, width, padding, i - 1);
        let st0 = pack_fold(sizes, width, padding, i - 1);
        let w = sizes[i - 1].0;
        let h = sizes[i - 1].1;
        let st = pack_fold(sizes, width, padding, i);
        assert(st == pack_step(st0, w, h, width, padding));
        assert(w >= 0 && h >= 0);
        if wraps(st0, w, width, padding) {
            let closed = RowModel { y: st0.y, xs: st0.xs };
            lemma_flat_push(st0.done, closed);
            assert(row_pairs(st.y, st.xs) =~= Seq::<(int, int)>::empty().push((padding, st.y)));
            assert(full_flat(st) =~= full_flat(st0).push((padding, st.y)));
            assert(flat_offsets(st.done) =~= full_flat(st0));
            // The fresh placement at x = padding satisfies the right-edge
            // rule whichever way the glyph compares to the padded width.
            assert(right_edge_ok(padding, w, width, padding));
            assert(row_max_of(sizes, i - 1, i - 1, padding) == 0);
            assert(st.row_max == row_max_of(sizes, i - 1, i, padding));
        } else {
            assert(row_pairs(st.y, st0.xs.push(st0.off)) =~= row_pairs(st0.y, st0.xs).push(
                (st0.off, st0.y),
            ));
            assert(full_flat(st) =~= full_flat(st0).push((st0.off, st0.y)));
            assert(st.off == st0.off + w + padding);
            assert(right_edge_ok(st0.off, w, width, padding));
            assert(st.row_max == row_max_of(sizes, (i - 1) - st0.xs.len(), i, padding));
        }
    }
}

/// Flattening the finished layout gives exactly the flattened running state.
pub proof fn lemma_pack_rows_flat(sizes: Seq<(int, int)>, width: int, padding: int)
    ensures
        flat_offsets(pack_rows(sizes, width, padding)) == full_flat(
            pack_fold(sizes, width, padding, sizes.len() as int),
        ),
{
    let st = pack_fold(sizes, width, padding, sizes.len() as int);
    if st.xs.len() == 0 {
        assert(row_pairs(st.y, st.xs) =~= Seq::<(int, int)>::empty());
        assert(full_flat(st) =~= flat_offsets(st.done));
    } else {
        lemma_flat_push(st.done, RowModel { y: st.y, xs: st.xs });
        assert(flat_offsets(pack_rows(sizes, width, padding)) =~= full_flat(st));
    }
}

/// The packed layout yields one flattened offset per input glyph, in input
/// order: `flatten(pack(metrics)).len() == metrics.len()`.
pub proof fn lemma_flatten_count(sizes: Seq<(int, int)>, width: int, padding: int)
    requires
        padding >= 0,
        sizes_ok(sizes),
    ensures
        flat_offsets(pack_rows(sizes, width, padding)).len() == sizes.len(),
{
    lemma_pack_invariants(sizes, width, padding, sizes.len() as int);
    lemma_pack_rows_flat(sizes, width, padding);
}

/// No packed glyph's right edge (`x + width`) exceeds the target width,
/// except a glyph that alone exceeds `width - 2 * padding`.
pub proof fn lemma_right_edges(sizes: Seq<(int, int)>, width: int, padding: int)
    requires
        padding >= 0,
        sizes_ok(sizes),
    ensures
        forall|j: int|
            0 <= j < sizes.len() ==> right_edge_ok(
                (#[trigger] flat_offsets(pack_rows(sizes, width, padding))[j]).0,
                sizes[j].0,
                width,
                padding,
            ),
{
    lemma_pack_invariants(sizes, width, padding, sizes.len() as int);
    lemma_pack_rows_flat(sizes, width, padding);
}

/// The height of the finished atlas: the last row's top Y plus the largest
/// padded glyph height among that row's glyphs.
pub open spec fn spec_atlas_height(
    rows: Seq<RowModel>,
    sizes: Seq<(int, int)>,
    padding: int,
) -> int {
    rows.last().y + row_max_of(
        sizes,
        sizes.len() - rows.last().xs.len(),
        sizes.len() as int,
        padding,
    )
}

/// The atlas height is exactly the last row's top Y plus the largest padded
/// glyph height in that row, and no glyph's padded bottom edge exceeds it.
pub proof fn lemma_atlas_height_bounds(sizes: Seq<(int, int)>, width: int, padding: int)
    requires
        sizes.len() > 0,
        padding >= 0,
        sizes_ok(sizes),
    ensures
        ({
            let rows = pack_rows(sizes, width, padding);
            let hgt = spec_atlas_height(rows, sizes, padding);
            &&& rows.len() > 0
            &&& 1 <= rows.last().xs.len() <= sizes.len()
            &&& forall|j: int|
                0 <= j < sizes.len() ==> (#[trigger] flat_offsets(rows)[j]).1 + sizes[j].1
                    + padding <= hgt
        }),
{
    let n = sizes.len() as int;
    lemma_pack_invariants(sizes, width, padding, n);
    lemma_pack_rows_flat(sizes, width, padding);
    lemma_open_row_nonempty(sizes, width, padding, n);
    let st = pack_fold(sizes, width, padding, n);
    let rows = pack_rows(sizes, width, padding);
    assert(rows.last() == RowModel { y: st.y, xs: st.xs });
}

/// Every coordinate the layout stores fits the unsigned 32-bit coordinate
/// space of the output format.
pub open spec fn row_fits(r: RowModel) -> bool {
    &&& 0 <= r.y <= u32::MAX
    &&& forall|j: int| 0 <= j < r.xs.len() ==> 0 <= #[trigger] r.xs[j] <= u32::MAX
}

pub open spec fn layout_fits(sizes: Seq<(int, int)>, width: int, padding: int) -> bool {
    let rows = pack_rows(sizes, width, padding);
    forall|i: int| 0 <= i < rows.len() ==> row_fits(#[trigger] rows[i])
}

spec fn state_fits(st: PackState) -> bool {
    &&& (forall|i: int| 0 <= i < st.done.len() ==> row_fits(#[trigger] st.done[i]))
    &&& 0 <= st.y <= u32::MAX
    &&& forall|j: int| 0 <= j < st.xs.len() ==> 0 <= #[trigger] st.xs[j] <= u32::MAX
}

/// Once some stored coordinate has outgrown the 32-bit space, the finished
/// layout keeps a row that does not fit.
proof fn lemma_violation_persists(sizes: Seq<(int, int)>, width: int, padding: int, i: int)
    requires
        0 <= i <= sizes.len(),
        0 <= padding <= u32::MAX,
        !state_fits(pack_fold(sizes, width, padding, i)),
    ensures
        !layout_fits(sizes, width, padding),
    decreases sizes.len() - i,
{
    let st = pack_fold(sizes, width, padding, i);
    if i == sizes.len() {
        let rows = pack_rows(sizes, width, padding);
        if st.xs.len() == 0 {
            if i == 0 {
                assert(state_fits(st));
            } else {
                lemma_open_row_nonempty(sizes, width, padding, i);
            }
            assert(false);
        } else {
            let last = RowModel { y: st.y, xs: st.xs };
            if !(forall|k: int| 0 <= k < st.done.len() ==> row_fits(#[trigger] st.done[k])) {
                let k = choose|k: int| 0 <= k < st.done.len() && !row_fits(#[trigger] st.done[k]);
                assert(rows[k] == st.done[k]);
                assert(!row_fits(rows[k]));
            } else if !(0 <= st.y <= u32::MAX) {
                assert(!row_fits(last));
                assert(rows[rows.len() - 1] == last);
            } else {
                let j = choose|j: int|
                    0 <= j < st.xs.len() && !(0 <= #[trigger] st.xs[j] <= u32::MAX);
                assert(last.xs[j] == st.xs[j]);
                assert(!row_fits(last));
                assert(rows[rows.len() - 1] == last);
            }
        }
    } else {
        let st1 = pack_fold(sizes, width, padding, i + 1);
        let w = sizes[i].0;
        if wraps(st, w, width, padding) {
            let closed = RowModel { y: st.y, xs: st.xs };
            if !(forall|k: int| 0 <= k < st.done.len() ==> row_fits(#[trigger] st.done[k])) {
                let k = choose|k: int| 0 <= k < st.done.len() && !row_fits(#[trigger] st.done[k]);
                assert(st1.done[k] == st.done[k]);
                assert(!state_fits(st1));
            } else if !(0 <= st.y <= u32::MAX) {
                assert(!row_fits(closed));
                assert(st1.done[st1.done.len() - 1] == closed);
                assert(!state_fits(st1));
            } else {
                let j = choose|j: int|
                    0 <= j < st.xs.len() && !(0 <= #[trigger] st.xs[j] <= u32::MAX);
                assert(closed.xs[j] == st.xs[j]);
                assert(!row_fits(closed));
                assert(st1.done[st1.done.len() - 1] == closed);
                assert(!state_fits(st1));
            }
        } else {
            assert(st1.done == st.done);
            assert(st1.y == st.y);
            if !(forall|j: int| 0 <= j < st.xs.len() ==> 0 <= #[trigger] st.xs[j] <= u32::MAX) {
                let j = choose|j: int|
                    0 <= j < st.xs.len() && !(0 <= #[trigger] st.xs[j] <= u32::MAX);
                assert(st1.xs[j] == st.xs[j]);
                assert(!state_fits(st1));
            } else {
                assert(!state_fits(st1));
            }
        }
        lemma_violation_persists(sizes, width, padding, i + 1);
    }
}

/// The Line Packer: greedy left-to-right, top-to-bottom row packing of the
/// glyph boxes into rows of at most `line_width`, with `padding` between
/// boxes and around them. Succeeds exactly when every stored coordinate fits
/// the unsigned 32-bit space of the output format.
pub fn build_layout(chars: &Vec<GlyphMetrics>, line_width: u64, padding: u32) -> (r: Result<
    Vec<Row>,
    AtlasError,
>)
    ensures
        match r {
            Ok(rows) => {
                &&& rows_model(rows@) == pack_rows(
                    sizes_of(chars@),
                    line_width as int,
                    padding as int,
                )
                &&& layout_fits(sizes_of(chars@), line_width as int, padding as int)
            },
            Err(e) => {
                &&& e == AtlasError::CoordinateOverflow
                &&& !layout_fits(sizes_of(chars@), line_width as int, padding as int)
            },
        },
{
    let ghost sizes = sizes_of(chars@);
    let ghost w_int = line_width as int;
    let ghost p_int = padding as int;
    let mut done: Vec<Row> = Vec::new();
    let mut y: u32 = padding;
    let mut xs: Vec<u32> = Vec::new();
    let mut off: u64 = padding as u64;
    let mut row_max: u64 = 0;
    let mut i: usize = 0;
    proof {
        assert(rows_model(done@) =~= pack_fold(sizes, w_int, p_int, 0).done);
        assert(xs_model(xs@) =~= pack_fold(sizes, w_int, p_int, 0).xs);
    }
    while i < chars.len()
        invariant
            0 <= i <= chars@.len(),
            sizes == sizes_of(chars@),
            sizes.len() == chars@.len(),
            w_int == line_width as int,
            p_int == padding as int,
            off <= 3 * 0xFFFF_FFFFu64,
            row_max <= 2 * 0xFFFF_FFFFu64,
            ({
                let st = pack_fold(sizes, w_int, p_int, i as int);
                &&& rows_model(done@) == st.done
                &&& y as int == st.y
                &&& xs_model(xs@) == st.xs
                &&& off as int == st.off
                &&& row_max as int == st.row_max
            }),
        decreases chars@.len() - i,
    {
        let ghost st0 = pack_fold(sizes, w_int, p_int, i as int);
        let w = chars[i].size.0;
        let h = chars[i].size.1;
        proof {
            assert(sizes[i as int] == (w as int, h as int));
        }
        if off + (w as u64) + (padding as u64) > line_width {
            // Close the current row and open a new one below it.
            let wide_y: u64 = (y as u64) + row_max;
            if wide_y > (u32::MAX as u64) {
                proof {
                    let st1 = pack_fold(sizes, w_int, p_int, i as int + 1);
                    assert(st1.done[st1.done.len() - 1] == RowModel { y: st0.y, xs: st0.xs });
                    assert(st1.y > u32::MAX);
                    assert(st1.xs.len() > 0);
                    assert(!state_fits(st1));
                    lemma_violation_persists(sizes, w_int, p_int, i as int + 1);
                }
                return Err(AtlasError::CoordinateOverflow);
            }
            let row = Row { y, xs };
            done.push(row);
            y = wide_y as u32;
            xs = Vec::new();
            off = padding as u64;
            row_max = 0;
            proof {
                assert(rows_model(done@) =~= st0.done.push(RowModel { y: st0.y, xs: st0.xs }));
                assert(xs_model(xs@) =~= Seq::<int>::empty());
            }
        }
        if off > (u32::MAX as u64) {
            proof {
                let st1 = pack_fold(sizes, w_int, p_int, i as int + 1);
                assert(!wraps(st0, w as int, w_int, p_int));
                assert(st1.xs[st1.xs.len() - 1] == st0.off);
                assert(!state_fits(st1));
                lemma_violation_persists(sizes, w_int, p_int, i as int + 1);
            }
            return Err(AtlasError::CoordinateOverflow);
        }
        let ghost xs_before = xs_model(xs@);
        xs.push(off as u32);
        off = off + (w as u64) + (padding as u64);
        let hp: u64 = (h as u64) + (padding as u64);
        if hp > row_max {
            row_max = hp;
        }
        i = i + 1;
        proof {
            assert(xs_model(xs@) =~= xs_before.push((off - w - padding) as int));
            let st1 = pack_fold(sizes, w_int, p_int, i as int);
            assert(rows_model(done@) == st1.done);
            assert(xs_model(xs@) =~= st1.xs);
        }
    }
    let rows = if xs.len() == 0 {
        proof {
            let st = pack_fold(sizes, w_int, p_int, i as int);
            if i > 0 {
                lemma_open_row_nonempty(sizes, w_int, p_int, i as int);
            }
            assert(rows_model(done@) == pack_rows(sizes, w_int, p_int));
        }
        done
    } else {
        let mut done = done;
        let row = Row { y, xs };
        done.push(row);
        proof {
            let st = pack_fold(sizes, w_int, p_int, i as int);
            assert(rows_model(done@) =~= st.done.push(RowModel { y: st.y, xs: st.xs }));
        }
        done
    };
    proof {
        let packed = pack_rows(sizes, w_int, p_int);
        assert forall|k: int| 0 <= k < packed.len() implies row_fits(#[trigger] packed[k]) by {
            assert(packed[k] == rows@[k].model());
            assert forall|j: int| 0 <= j < packed[k].xs.len() implies 0 <= #[trigger] packed[k].xs[j]
                <= u32::MAX by {
                assert(packed[k].xs[j] == rows@[k].xs@[j] as int);
            }
        }
    }
    Ok(rows)
}

/// Row-major flattening of the packed layout back into one (x, y) placement
/// per glyph, in the original glyph order.
pub fn flatten_layout(rows: &Vec<Row>) -> (r: Vec<(u32, u32)>)
    ensures
        pairs_model(r@) == flat_offsets(rows_model(rows@)),
{
    let ghost rm = rows_model(rows@);
    let mut out: Vec<(u32, u32)> = Vec::new();
    let mut i: usize = 0;
    proof {
        assert(rm.take(0) =~= Seq::<RowModel>::empty());
        assert(pairs_model(out@) =~= flat_offsets(rm.take(0)));
    }
    while i < rows.len()
        invariant
            0 <= i <= rows@.len(),
            rm == rows_model(rows@),
            rm.len() == rows@.len(),
            pairs_model(out@) == flat_offsets(rm.take(i as int)),
        decreases rows@.len() - i,
    {
        let ghost flat_before = pairs_model(out@);
        let y = rows[i].y;
        let mut j: usize = 0;
        proof {
            assert(xs_model(rows@[i as int].xs@).take(0) =~= Seq::<int>::empty());
            assert(row_pairs(y as int, xs_model(rows@[i as int].xs@).take(0)) =~= Seq::<
                (int, int),
            >::empty());
            assert(pairs_model(out@) =~= flat_before + row_pairs(
                y as int,
                xs_model(rows@[i as int].xs@).take(0),
            ));
        }
        while j < rows[i].xs.len()
            invariant
                0 <= i < rows@.len(),
                0 <= j <= rows@[i as int].xs@.len(),
                y == rows@[i as int].y,
                pairs_model(out@) == flat_before + row_pairs(
                    y as int,
                    xs_model(rows@[i as int].xs@).take(j as int),
                ),
            decreases rows@[i as int].xs@.len() - j,
        {
            let x = rows[i].xs[j];
            let ghost out_before = pairs_model(out@);
            out.push((x, y));
            j = j + 1;
            proof {
                assert(pairs_model(out@) =~= out_before.push((x as int, y as int)));
                let xm = xs_model(rows@[i as int].xs@);
                assert(xm[j as int - 1] == x as int);
                assert(xm.take(j as int) =~= xm.take(j as int - 1).push(x as int));
                assert(row_pairs(y as int, xm.take(j as int)) =~= row_pairs(
                    y as int,
                    xm.take(j as int - 1),
                ).push((x as int, y as int)));
                assert(pairs_model(out@) =~= flat_before + row_pairs(y as int, xm.take(j as int)));
            }
        }
        i = i + 1;
        proof {
            let xm = xs_model(rows@[(i - 1) as int].xs@);
            assert(xm.take(rows@[(i - 1) as int].xs@.len() as int) =~= xm);
            assert(rm.take(i as int) =~= rm.take(i as int - 1).push(rm[i as int - 1]));
            lemma_flat_push(rm.take(i as int - 1), rm[i as int - 1]);
            assert(pairs_model(out@) =~= flat_offsets(rm.take(i as int)));
        }
    }
    proof {
        assert(rm.take(rm.len() as int) =~= rm);
    }
    out
}

pub open spec fn pairs_model(s: Seq<(u32, u32)>) -> Seq<(int, int)> {
    s.map(|i: int, p: (u32, u32)| (p.0 as int, p.1 as int))
}

/// The finished atlas height: the last row's top Y plus the largest padded
/// glyph height among the glyphs of that row (the tail of the input list).
pub fn atlas_height(rows: &Vec<Row>, chars: &Vec<GlyphMetrics>, padding: u32) -> (h: u64)
    requires
        rows@.len() > 0,
        rows@.last().xs@.len() <= chars@.len(),
    ensures
        h as int == spec_atlas_height(rows_model(rows@), sizes_of(chars@), padding as int),
{
    let ghost sizes = sizes_of(chars@);
    let n = chars.len();
    let k = rows[rows.len() - 1].xs.len();
    let y = rows[rows.len() - 1].y;
    proof {
        assert(rows_model(rows@).last() == rows@.last().model());
        assert(rows_model(rows@).last().xs.len() == k as int);
        assert(rows_model(rows@).last().y == y as int);
    }
    let mut m: u64 = 0;
    let mut i: usize = n - k;
    while i < n
        invariant
            n - k <= i <= n,
            n == chars@.len(),
            k <= n,
            sizes == sizes_of(chars@),
            m <= 2 * 0xFFFF_FFFFu64,
            m as int == row_max_of(sizes, n - k, i as int, padding as int),
        decreases n - i,
    {
        let hp: u64 = (chars[i].size.1 as u64) + (padding as u64);
        proof {
            assert(sizes[i as int].1 == chars@[i as int].size.1 as int);
        }
        if hp > m {
            m = hp;
        }
        i = i + 1;
    }
    (y as u64) + m
}

} // verus!
