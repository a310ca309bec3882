//! The fair layout: every window gets approximately equal space.
//!
//! It is not always possible to give every window exactly equal space and
//! still tile the whole region, so the windows are arranged into rows of
//! near-equal size.  For each candidate number of full rows the resulting
//! arrangement is scored by how far its windows' aspect ratios stray from
//! the 16:9 target, and the best-scoring arrangement wins; ties go to the
//! candidate with fewer rows.  Scores are summed squared errors in integer
//! fixed point, so comparing candidates is deterministic integer
//! comparison throughout.

use vstd::prelude::*;

use crate::rect::{
    covers_exactly, lemma_columns_cover_exactly, lemma_partition_stack, lemma_rect_ratio_bounds,
    lemma_rows_span, ratio_dist, rect_valid, spec_columns, spec_rect_ratio, spec_rows,
    split_into_columns, split_into_rows, Rect, RATIO_DEGENERATE, RATIO_SCALE,
};

verus! {

/// The aspect ratio the fair layout steers every window towards, in
/// per-mille fixed point: 16:9.
pub const TARGET_ASPECT_RATIO: u64 = 16 * RATIO_SCALE / 9;

/// An upper bound on the squared fixed-point error of a single rectangle.
const SQ_ERR_BOUND: u128 = 0x400_0000_0000_0000_0000_0000;

/// The squared distance between a rectangle's aspect ratio and `target`.
pub open spec fn spec_sq_err(r: Rect, target: int) -> int {
    let d = ratio_dist(spec_rect_ratio(r), target);
    d * d
}

/// The sum over a layout of the squared aspect-ratio errors against
/// `target`.
pub open spec fn spec_sse(s: Seq<Rect>, target: int) -> int
    decreases s.len(),
{
    if s.len() == 0 {
        0
    } else {
        spec_sq_err(s[0], target) + spec_sse(s.subrange(1, s.len() as int), target)
    }
}

/// A single squared error is bounded by `SQ_ERR_BOUND`.
proof fn lemma_sq_err_bound(r: Rect, target: int)
    requires
        0 <= target <= RATIO_DEGENERATE,
    ensures
        0 <= spec_sq_err(r, target) <= SQ_ERR_BOUND,
{
    lemma_rect_ratio_bounds(r);
    let d = ratio_dist(spec_rect_ratio(r), target);
    vstd::arithmetic::mul::lemma_mul_nonnegative(d, d);
    vstd::arithmetic::mul::lemma_mul_upper_bound(
        d,
        RATIO_DEGENERATE as int,
        d,
        RATIO_DEGENERATE as int,
    );
}

/// The error sum of a layout is bounded by its length times
/// `SQ_ERR_BOUND`.
proof fn lemma_sse_bound(s: Seq<Rect>, target: int)
    requires
        0 <= target <= RATIO_DEGENERATE,
    ensures
        0 <= spec_sse(s, target) <= s.len() * SQ_ERR_BOUND,
    decreases s.len(),
{
    if s.len() == 0 {
    } else {
        lemma_sq_err_bound(s[0], target);
        lemma_sse_bound(s.subrange(1, s.len() as int), target);
    }
}

/// Peeling one rectangle off the front of an error sum.
proof fn lemma_sse_step(s: Seq<Rect>, target: int, i: int)
    requires
        0 <= i < s.len(),
    ensures
        spec_sse(s.subrange(i, s.len() as int), target) == spec_sq_err(s[i], target) + spec_sse(
            s.subrange(i + 1, s.len() as int),
            target,
        ),
{
    let t = s.subrange(i, s.len() as int);
    assert(t[0] == s[i]);
    assert(t.subrange(1, t.len() as int) =~= s.subrange(i + 1, s.len() as int));
}

/// Computes the sum of the squared errors of each rectangle's fixed-point
/// aspect ratio versus the 16:9 target ratio.
pub fn aspect_ratio_sse(layout: &Vec<Rect>) -> (e: u128)
    requires
        layout@.len() <= u32::MAX,
    ensures
        e == spec_sse(layout@, TARGET_ASPECT_RATIO as int),
{
    let target: u64 = TARGET_ASPECT_RATIO;
    let mut e: u128 = 0;
    let mut i: usize = 0;
    proof {
        assert(layout@.subrange(0, layout@.len() as int) =~= layout@);
    }
    while i < layout.len()
        invariant
            layout@.len() <= u32::MAX,
            0 <= i <= layout@.len(),
            target == TARGET_ASPECT_RATIO,
            e + spec_sse(layout@.subrange(i as int, layout@.len() as int), target as int)
                == spec_sse(layout@, target as int),
            e <= i * SQ_ERR_BOUND,
        decreases layout@.len() - i,
    {
        let r = layout[i];
        let q: u64 = if r.height == 0 {
            RATIO_DEGENERATE
        } else {
            (r.width as u64 * RATIO_SCALE) / (r.height as u64)
        };
        let d: u64 = if q >= target {
            q - target
        } else {
            target - q
        };
        proof {
            assert(q == spec_rect_ratio(r));
            assert(d == ratio_dist(spec_rect_ratio(r), target as int));
            lemma_sq_err_bound(r, target as int);
            lemma_sse_bound(
                layout@.subrange(i + 1, layout@.len() as int),
                target as int,
            );
            lemma_sse_step(layout@, target as int, i as int);
            assert(i * SQ_ERR_BOUND + SQ_ERR_BOUND == (i + 1) * SQ_ERR_BOUND) by {
                vstd::arithmetic::mul::lemma_mul_is_distributive_add_other_way(
                    SQ_ERR_BOUND as int,
                    i as int,
                    1,
                );
            }
        }
        e = e + (d as u128) * (d as u128);
        i = i + 1;
    }
    proof {
        assert(layout@.subrange(i as int, layout@.len() as int) =~= Seq::<Rect>::empty());
    }
    e
}

/// The concatenation of the equal column splits of a sequence of rows,
/// each row divided into `count` columns.
pub open spec fn concat_cols(rows: Seq<Rect>, count: int) -> Seq<Rect>
    decreases rows.len(),
{
    if rows.len() == 0 {
        Seq::empty()
    } else {
        spec_columns(rows[0], count) + concat_cols(rows.subrange(1, rows.len() as int), count)
    }
}

/// Peeling the column split of row `i` off the concatenation of the rows
/// from `i` on.
proof fn lemma_concat_cols_step(rows: Seq<Rect>, count: int, i: int)
    requires
        0 <= i < rows.len(),
    ensures
        concat_cols(rows.subrange(i, rows.len() as int), count) == spec_columns(rows[i], count)
            + concat_cols(rows.subrange(i + 1, rows.len() as int), count),
{
    let t = rows.subrange(i, rows.len() as int);
    assert(t[0] == rows[i]);
    assert(t.subrange(1, t.len() as int) =~= rows.subrange(i + 1, rows.len() as int));
}

/// The concatenated column splits hold `count` rectangles per row.
proof fn lemma_concat_cols_len(rows: Seq<Rect>, count: int)
    requires
        0 <= count,
    ensures
        concat_cols(rows, count).len() == rows.len() * count,
    decreases rows.len(),
{
    if rows.len() == 0 {
        assert(0 * count == 0);
    } else {
        lemma_concat_cols_len(rows.subrange(1, rows.len() as int), count);
        assert((rows.len() - 1) * count == rows.len() * count - count) by {
            vstd::arithmetic::mul::lemma_mul_is_distributive_sub_other_way(
                count,
                rows.len() as int,
                1,
            );
        }
    }
}

/// The arrangement of `n` windows into `k` full rows: each full row holds
/// `n / k` windows side by side, and when `k` does not divide `n` an
/// extra, partially filled first row holds the remaining `n % k` windows.
pub open spec fn spec_rows_layout(r: Rect, n: int, k: int) -> Seq<Rect>
    recommends
        1 <= k <= n,
{
    let col = n / k;
    let top = n % k;
    if top == 0 {
        concat_cols(spec_rows(r, k), col)
    } else {
        spec_columns(spec_rows(r, k + 1)[0], top) + concat_cols(
            spec_rows(r, k + 1).subrange(1, k + 1),
            col,
        )
    }
}

/// Division facts about distributing `n` windows over `k` full rows.
proof fn lemma_row_counts(n: int, k: int)
    requires
        1 <= k <= n,
    ensures
        1 <= n / k <= n,
        0 <= n % k < k,
        n % k == n - k * (n / k),
        n % k != 0 ==> k < n,
{
    vstd::arithmetic::div_mod::lemma_fundamental_div_mod(n, k);
    vstd::arithmetic::div_mod::lemma_mod_division_less_than_divisor(n, k);
    vstd::arithmetic::div_mod::lemma_div_nonincreasing(n, k);
    assert(1 <= n / k) by {
        vstd::arithmetic::div_mod::lemma_div_is_ordered(k, n, k);
        vstd::arithmetic::div_mod::lemma_div_by_self(k);
    }
    if k == n {
        vstd::arithmetic::div_mod::lemma_mod_self_0(k);
    }
}

/// A row arrangement of `n` windows holds exactly `n` rectangles.
pub proof fn lemma_rows_layout_len(r: Rect, n: int, k: int)
    requires
        1 <= k <= n,
    ensures
        spec_rows_layout(r, n, k).len() == n,
{
    let col = n / k;
    let top = n % k;
    lemma_row_counts(n, k);
    if top == 0 {
        lemma_concat_cols_len(spec_rows(r, k), col);
        vstd::arithmetic::mul::lemma_mul_is_commutative(k, col);
    } else {
        lemma_concat_cols_len(spec_rows(r, k + 1).subrange(1, k + 1), col);
        vstd::arithmetic::mul::lemma_mul_is_commutative(k, col);
    }
}

/// Arranges `window_count` windows in `full_row_count` rows of near-equal
/// size: rows are stacked top to bottom and each row is divided evenly
/// among the windows it holds, with any remainder windows in an extra
/// first row.
pub fn layout_region_in_rows(to_fill: &Rect, window_count: u32, full_row_count: u32) -> (layout:
    Vec<Rect>)
    requires
        rect_valid(*to_fill),
        1 <= full_row_count <= window_count,
    ensures
        layout@ == spec_rows_layout(*to_fill, window_count as int, full_row_count as int),
{
    let n = window_count;
    let k = full_row_count;
    let ghost goal = spec_rows_layout(*to_fill, n as int, k as int);
    proof {
        lemma_row_counts(n as int, k as int);
    }
    let col_count = n / k;
    proof {
        vstd::arithmetic::mul::lemma_mul_is_commutative(col_count as int, k as int);
        assert(col_count as int * k as int <= n);
    }
    let top_count = n - col_count * k;
    let row_count = if top_count == 0 {
        k
    } else {
        k + 1
    };
    let rows = split_into_rows(to_fill, row_count);
    proof {
        lemma_rows_span(*to_fill, row_count as int);
    }
    let mut layout: Vec<Rect> = Vec::new();
    let mut i: usize = 0;
    if top_count > 0 {
        let first = rows[0];
        let mut top_cols = split_into_columns(&first, top_count);
        layout.append(&mut top_cols);
        i = 1;
        proof {
            assert(rows@.subrange(1, rows@.len() as int) =~= spec_rows(
                *to_fill,
                k as int + 1,
            ).subrange(1, k as int + 1));
        }
    } else {
        proof {
            assert(rows@.subrange(0, rows@.len() as int) =~= rows@);
        }
    }
    assert(layout@ + concat_cols(rows@.subrange(i as int, rows@.len() as int), col_count as int)
        == goal);
    while i < rows.len()
        invariant
            rect_valid(*to_fill),
            rows@ == spec_rows(*to_fill, row_count as int),
            rows@.len() == row_count,
            1 <= col_count,
            i <= rows@.len(),
            layout@ + concat_cols(
                rows@.subrange(i as int, rows@.len() as int),
                col_count as int,
            ) == goal,
        decreases rows@.len() - i,
    {
        proof {
            lemma_rows_span(*to_fill, row_count as int);
            lemma_concat_cols_step(rows@, col_count as int, i as int);
        }
        let row = rows[i];
        let mut cols = split_into_columns(&row, col_count);
        let ghost before = layout@;
        layout.append(&mut cols);
        i = i + 1;
        proof {
            assert(layout@ + concat_cols(
                rows@.subrange(i as int, rows@.len() as int),
                col_count as int,
            ) =~= before + concat_cols(
                rows@.subrange(i - 1, rows@.len() as int),
                col_count as int,
            ));
        }
    }
    proof {
        assert(concat_cols(
            rows@.subrange(rows@.len() as int, rows@.len() as int),
            col_count as int,
        ) == Seq::<Rect>::empty());
        assert(layout@ =~= goal);
    }
    layout
}

/// The number of full rows whose arrangement scores best among the
/// candidates `1..=upto`: candidates are compared by their error sum
/// against the 16:9 target, in increasing order, and ties go to the
/// earlier (smaller) candidate.
pub open spec fn spec_best_k(r: Rect, n: int, upto: int) -> int
    recommends
        1 <= upto <= n,
    decreases upto,
{
    if upto <= 1 {
        1
    } else {
        let prev = spec_best_k(r, n, upto - 1);
        if spec_sse(spec_rows_layout(r, n, upto), TARGET_ASPECT_RATIO as int) < spec_sse(
            spec_rows_layout(r, n, prev),
            TARGET_ASPECT_RATIO as int,
        ) {
            upto
        } else {
            prev
        }
    }
}

/// The winning candidate is one of the candidates considered.
pub proof fn lemma_best_k_in_range(r: Rect, n: int, upto: int)
    requires
        1 <= upto,
    ensures
        1 <= spec_best_k(r, n, upto) <= upto,
    decreases upto,
{
    if upto > 1 {
        lemma_best_k_in_range(r, n, upto - 1);
    }
}

/// Law: the winning candidate's error sum is minimal among all candidates
/// considered, and every earlier candidate scores strictly worse, so the
/// first minimum wins.
pub proof fn lemma_best_k_minimal(r: Rect, n: int, upto: int, j: int)
    requires
        1 <= j <= upto,
    ensures
        spec_sse(spec_rows_layout(r, n, spec_best_k(r, n, upto)), TARGET_ASPECT_RATIO as int)
            <= spec_sse(spec_rows_layout(r, n, j), TARGET_ASPECT_RATIO as int),
        j < spec_best_k(r, n, upto) ==> spec_sse(
            spec_rows_layout(r, n, j),
            TARGET_ASPECT_RATIO as int,
        ) > spec_sse(spec_rows_layout(r, n, spec_best_k(r, n, upto)), TARGET_ASPECT_RATIO as int),
    decreases upto,
{
    lemma_best_k_in_range(r, n, upto);
    if upto > 1 {
        lemma_best_k_in_range(r, n, upto - 1);
        if j <= upto - 1 {
            lemma_best_k_minimal(r, n, upto - 1, j);
        }
    }
}

/// The fair arrangement of `n` windows in `r`: the best-scoring row
/// arrangement over all candidate numbers of full rows; no windows, no
/// rectangles.
pub open spec fn spec_fair_layout(r: Rect, n: int) -> Seq<Rect> {
    if n <= 0 {
        Seq::empty()
    } else {
        spec_rows_layout(r, n, spec_best_k(r, n, n))
    }
}

/// The fair arrangement of `n` windows holds exactly `n` rectangles.
pub proof fn lemma_fair_layout_len(r: Rect, n: int)
    requires
        0 <= n,
    ensures
        spec_fair_layout(r, n).len() == n,
{
    if n > 0 {
        lemma_best_k_in_range(r, n, n);
        lemma_rows_layout_len(r, n, spec_best_k(r, n, n));
    }
}

/// Divides the region into `window_count` rectangles of approximately
/// even size, each as close as possible to 16:9: every candidate number
/// of full rows is tried and the arrangement with the least error sum
/// wins, ties going to fewer rows.
pub fn layout_region_fairly(to_fill: &Rect, window_count: u32) -> (layout: Vec<Rect>)
    requires
        rect_valid(*to_fill),
    ensures
        layout@ == spec_fair_layout(*to_fill, window_count as int),
{
    if window_count == 0 {
        let layout: Vec<Rect> = Vec::new();
        return layout;
    }
    let n = window_count;
    let mut best = layout_region_in_rows(to_fill, n, 1);
    proof {
        lemma_rows_layout_len(*to_fill, n as int, 1);
    }
    let mut best_score = aspect_ratio_sse(&best);
    let mut k: u64 = 2;
    while k <= n as u64
        invariant
            rect_valid(*to_fill),
            1 <= n,
            2 <= k <= n as u64 + 1,
            1 <= spec_best_k(*to_fill, n as int, k - 1) <= k - 1,
            best@ == spec_rows_layout(*to_fill, n as int, spec_best_k(*to_fill, n as int, k - 1)),
            best_score == spec_sse(best@, TARGET_ASPECT_RATIO as int),
        decreases n as int + 1 - k,
    {
        let cand = layout_region_in_rows(to_fill, n, k as u32);
        proof {
            lemma_rows_layout_len(*to_fill, n as int, k as int);
        }
        let cand_score = aspect_ratio_sse(&cand);
        if cand_score < best_score {
            best = cand;
            best_score = cand_score;
        }
        proof {
            lemma_best_k_in_range(*to_fill, n as int, k as int);
        }
        k = k + 1;
    }
    best
}

/// Column splits of stacked rows concatenate to an exact partition of the
/// box the rows span.
proof fn lemma_concat_cols_cover(
    rows: Seq<Rect>,
    count: int,
    xlo: int,
    xhi: int,
    ylo: int,
    yhi: int,
)
    requires
        0 < count,
        crate::rect::y_span(rows, ylo, yhi),
        forall|i: int|
            0 <= i < rows.len() ==> (#[trigger] rows[i]).x == xlo && rows[i].x + rows[i].width
                == xhi,
        xhi <= u32::MAX,
        ylo <= yhi,
    ensures
        covers_exactly(concat_cols(rows, count), xlo, xhi, ylo, yhi),
    decreases rows.len(),
{
    if rows.len() == 0 {
        // the spanned box is empty, so there is nothing to cover
    } else {
        let first = spec_columns(rows[0], count);
        let rest = rows.subrange(1, rows.len() as int);
        let ymid = rows[0].y + rows[0].height;
        crate::rect::lemma_y_span_within(rows, ylo, yhi, 0);
        lemma_columns_cover_exactly(rows[0], count);
        assert(rest.len() == rows.len() - 1);
        if rest.len() > 0 {
            assert(rest[0] == rows[1]);
            assert(rest[rest.len() - 1] == rows[rows.len() - 1]);
            assert(forall|i: int| 0 <= i < rest.len() - 1 ==> (#[trigger] rest[i + 1]) == rows[i + 2]);
        }
        assert(crate::rect::y_span(rest, ymid, yhi));
        lemma_concat_cols_cover(rest, count, xlo, xhi, ymid, yhi);
        lemma_partition_stack(first, concat_cols(rest, count), xlo, xhi, ylo, ymid, yhi);
    }
}

/// A row arrangement exactly partitions the region's pixel box.
pub proof fn lemma_rows_layout_partition(r: Rect, n: int, k: int)
    requires
        rect_valid(r),
        1 <= k <= n,
    ensures
        covers_exactly(
            spec_rows_layout(r, n, k),
            r.x as int,
            r.x + r.width,
            r.y as int,
            r.y + r.height,
        ),
{
    let col = n / k;
    let top = n % k;
    let xlo = r.x as int;
    let xhi = r.x + r.width;
    let ylo = r.y as int;
    let yhi = r.y + r.height;
    lemma_row_counts(n, k);
    if top == 0 {
        let rows = spec_rows(r, k);
        lemma_rows_span(r, k);
        lemma_concat_cols_cover(rows, col, xlo, xhi, ylo, yhi);
    } else {
        let rows = spec_rows(r, k + 1);
        lemma_rows_span(r, k + 1);
        let rest = rows.subrange(1, k + 1);
        let ymid = rows[0].y + rows[0].height;
        crate::rect::lemma_y_span_within(rows, ylo, yhi, 0);
        lemma_columns_cover_exactly(rows[0], top);
        assert(rest[0] == rows[1]);
        assert(rest[rest.len() - 1] == rows[rows.len() - 1]);
        assert(forall|i: int| 0 <= i < rest.len() - 1 ==> (#[trigger] rest[i + 1]) == rows[i + 2]);
        assert(crate::rect::y_span(rest, ymid, yhi));
        lemma_concat_cols_cover(rest, col, xlo, xhi, ymid, yhi);
        lemma_partition_stack(
            spec_columns(rows[0], top),
            concat_cols(rest, col),
            xlo,
            xhi,
            ylo,
            ymid,
            yhi,
        );
    }
}

/// Law: for `n >= 1` windows in a valid region, the fair layout returns
/// exactly `n` rectangles that cover the region with no gaps and no
/// overlaps.
pub proof fn lemma_fair_layout_partition(r: Rect, n: int)
    requires
        rect_valid(r),
        1 <= n,
    ensures
        spec_fair_layout(r, n).len() == n,
        covers_exactly(
            spec_fair_layout(r, n),
            r.x as int,
            r.x + r.width,
            r.y as int,
            r.y + r.height,
        ),
{
    lemma_best_k_in_range(r, n, n);
    lemma_fair_layout_len(r, n);
    lemma_rows_layout_partition(r, n, spec_best_k(r, n, n));
}

/// Law: a single window is laid out as the whole region, so its aspect
/// ratio equals the region's aspect ratio exactly.
pub proof fn lemma_single_window_aspect(r: Rect)
    requires
        rect_valid(r),
    ensures
        spec_fair_layout(r, 1) == seq![r],
        spec_rect_ratio(spec_fair_layout(r, 1)[0]) == spec_rect_ratio(r),
{
    assert(spec_best_k(r, 1, 1) == 1);
    let rows = spec_rows(r, 1);
    assert(0 * (r.height as int / 1) == 0);
    assert(rows.len() == 1 && rows[0] == crate::rect::spec_row(r, 1, 0));
    assert(rows[0] == r);
    assert(0 * (r.width as int / 1) == 0);
    assert(spec_columns(r, 1).len() == 1 && spec_columns(r, 1)[0] == crate::rect::spec_col(
        r,
        1,
        0,
    ));
    assert(spec_columns(r, 1)[0] == r);
    assert(rows.subrange(1, 1).len() == 0);
    assert(concat_cols(rows.subrange(1, 1), 1) =~= Seq::<Rect>::empty());
    assert(concat_cols(rows, 1) =~= spec_columns(rows[0], 1) + concat_cols(rows.subrange(1, 1), 1));
    assert(spec_rows_layout(r, 1, 1) =~= seq![r]);
}

/// Pairs each window identifier with the rectangle at the same position.
pub open spec fn spec_zip_ids(ids: Seq<u32>, rs: Seq<Rect>) -> Seq<(u32, Rect)>
    recommends
        ids.len() == rs.len(),
{
    Seq::new(ids.len(), |i: int| (ids[i], rs[i]))
}

/// Lays out the region fairly among the given windows and pairs each
/// window identifier with its rectangle, in the order the windows were
/// supplied.
pub fn do_fair_layout(ids: &Vec<u32>, to_fill: &Rect) -> (actions: Vec<(u32, Rect)>)
    requires
        rect_valid(*to_fill),
        ids@.len() <= u32::MAX,
    ensures
        actions@ == spec_zip_ids(ids@, spec_fair_layout(*to_fill, ids@.len() as int)),
{
    let count: u32 = ids.len() as u32;
    let layout = layout_region_fairly(to_fill, count);
    proof {
        lemma_fair_layout_len(*to_fill, count as int);
    }
    zip_with_ids(ids, &layout)
}

/// Pairs window identifiers with rectangles, position by position.
pub(crate) fn zip_with_ids(ids: &Vec<u32>, rs: &Vec<Rect>) -> (out: Vec<(u32, Rect)>)
    requires
        ids@.len() == rs@.len(),
    ensures
        out@ == spec_zip_ids(ids@, rs@),
{
    let mut out: Vec<(u32, Rect)> = Vec::new();
    let mut i: usize = 0;
    while i < ids.len()
        invariant
            ids@.len() == rs@.len(),
            i <= ids@.len(),
            out@ =~= spec_zip_ids(ids@, rs@).subrange(0, i as int),
        decreases ids@.len() - i,
    {
        out.push((ids[i], rs[i]));
        proof {
            assert(out@ =~= spec_zip_ids(ids@, rs@).subrange(0, i + 1));
        }
        i = i + 1;
    }
    proof {
        assert(out@ =~= spec_zip_ids(ids@, rs@));
    }
    out
}

} // verus!
