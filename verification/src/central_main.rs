//! The horizontal central-main layout: a large central area for the most
//! important window(s), flanked by equally sized side areas for the rest.
//!
//! The region's width is divided by a configurable main-area fraction,
//! rounded so the remaining width is even and can be halved into two equal
//! side columns.  Depending on how the configured main window count
//! relates to the total window count, the region is used whole, split in
//! two, or split in three; each area is then tiled internally, the main
//! area by a rule special-cased for small counts (a lone main window fills
//! the area; a pair is split by whichever of two asymmetric cuts leaves
//! the first piece closest to a 4:3 aspect ratio) and every other area by
//! the fair row arrangement.  Results are ordered left to right: side
//! windows before main windows in the three-way split, main windows
//! before the secondary window in the two-way split.

use vstd::prelude::*;

use crate::fair::{
    lemma_fair_layout_len, layout_region_fairly, spec_fair_layout, spec_zip_ids,
};
use crate::rect::{
    ratio_dist, rect_valid, spec_bottom_at, spec_left_at, spec_rect_ratio, spec_right_at,
    spec_top_at, split_at_height, split_at_width, Rect, RATIO_SCALE,
};

verus! {

/// The aspect ratio the main area's pair heuristic steers towards, in
/// per-mille fixed point: 4:3.
pub const MAIN_TARGET_ASPECT_RATIO: u64 = 4 * RATIO_SCALE / 3;

/// The width of the main area before halving the rest: the ceiling of
/// `w * num / den`, lowered by one if that would leave an odd remainder,
/// so that the remaining width always splits into two equal side columns.
pub open spec fn spec_main_width(w: int, num: int, den: int) -> int
    recommends
        0 < den,
{
    let m0 = (w * num + den - 1) / den;
    if (w - m0) % 2 == 1 {
        m0 - 1
    } else {
        m0
    }
}

/// The width of each of the two side columns left over beside the main
/// area.
pub open spec fn spec_side_width(w: int, num: int, den: int) -> int
    recommends
        0 < den,
{
    (w - spec_main_width(w, num, den)) / 2
}

/// Bounds on the computed main width: it never exceeds the region's
/// width, and what remains is even.
pub proof fn lemma_main_width_bounds(w: int, num: int, den: int)
    requires
        1 <= w,
        0 < num < den,
    ensures
        1 <= (w * num + den - 1) / den <= w,
        0 <= spec_main_width(w, num, den) <= w,
        (w - spec_main_width(w, num, den)) % 2 == 0,
        2 * spec_side_width(w, num, den) == w - spec_main_width(w, num, den),
        0 <= spec_side_width(w, num, den),
{
    let a = w * num + den - 1;
    let m0 = a / den;
    assert(1 <= m0) by {
        assert(1 <= w * num) by {
            vstd::arithmetic::mul::lemma_mul_strictly_positive(w, num);
        }
        vstd::arithmetic::div_mod::lemma_div_is_ordered(den, a, den);
        vstd::arithmetic::div_mod::lemma_div_by_self(den);
    }
    assert(m0 <= w) by {
        assert(w * num <= w * (den - 1)) by {
            vstd::arithmetic::mul::lemma_mul_left_inequality(w, num, den - 1);
        }
        assert(w * (den - 1) == w * den - w) by {
            vstd::arithmetic::mul::lemma_mul_is_distributive_sub(w, den, 1);
        }
        assert(a < den * (w + 1)) by {
            vstd::arithmetic::mul::lemma_mul_is_distributive_add(den, w, 1);
            vstd::arithmetic::mul::lemma_mul_is_commutative(w, den);
        }
        vstd::arithmetic::div_mod::lemma_multiply_divide_lt(a, den, w + 1);
    }
}

/// Computes the main-area width and the side-column width for a region,
/// from the fraction `ratio_num / ratio_den` of the width the main area
/// should occupy.  The remaining width is kept even, so the two side
/// columns are always equally wide.
pub fn region_widths(to_fill: &Rect, ratio_num: u64, ratio_den: u64) -> (ws: (u32, u32))
    requires
        rect_valid(*to_fill),
        0 < ratio_num < ratio_den,
        ratio_den <= 100000,
    ensures
        ws.0 == spec_main_width(to_fill.width as int, ratio_num as int, ratio_den as int),
        ws.1 == spec_side_width(to_fill.width as int, ratio_num as int, ratio_den as int),
        ws.0 <= to_fill.width,
        2 * ws.1 == to_fill.width - ws.0,
{
    proof {
        lemma_main_width_bounds(to_fill.width as int, ratio_num as int, ratio_den as int);
        assert(to_fill.width as int * ratio_num as int <= 0xFFFF_FFFF * 100000int) by {
            vstd::arithmetic::mul::lemma_mul_upper_bound(
                to_fill.width as int,
                0xFFFF_FFFF,
                ratio_num as int,
                100000,
            );
        }
    }
    let w = to_fill.width as u64;
    let m0 = (w * ratio_num + (ratio_den - 1)) / ratio_den;
    let m = if (w - m0) % 2 == 1 {
        m0 - 1
    } else {
        m0
    };
    (m as u32, ((w - m) / 2) as u32)
}

/// The arrangement of the main area's own windows: none yields nothing, a
/// lone window fills the area, a pair is split by whichever of a
/// three-quarter-height cut or a two-thirds-width cut leaves its first
/// piece closer to the 4:3 target, and any larger count falls back to the
/// fair row arrangement.
pub open spec fn spec_layout_main(r: Rect, n: int) -> Seq<Rect> {
    if n <= 0 {
        Seq::empty()
    } else if n == 1 {
        seq![r]
    } else if n == 2 {
        let fl = r.height as int * 3 / 4;
        let wall = r.width as int * 2 / 3;
        let row_a = spec_top_at(r, fl);
        let row_b = spec_bottom_at(r, fl);
        let col_a = spec_left_at(r, wall);
        let col_b = spec_right_at(r, wall);
        if ratio_dist(spec_rect_ratio(row_a), MAIN_TARGET_ASPECT_RATIO as int) < ratio_dist(
            spec_rect_ratio(col_a),
            MAIN_TARGET_ASPECT_RATIO as int,
        ) {
            seq![row_a, row_b]
        } else {
            seq![col_a, col_b]
        }
    } else {
        spec_fair_layout(r, n)
    }
}

/// The main-area arrangement of `n` windows holds exactly `n` rectangles.
pub proof fn lemma_layout_main_len(r: Rect, n: int)
    requires
        0 <= n,
    ensures
        spec_layout_main(r, n).len() == n,
{
    if n > 2 {
        lemma_fair_layout_len(r, n);
    }
}

/// Whether the main area is large enough for its own arrangement: the
/// pair heuristic needs at least two pixels each way to cut.
pub open spec fn main_area_ok(r: Rect, n: int) -> bool {
    n == 2 ==> r.width >= 2 && r.height >= 2
}

/// Lays out the main area's own windows, special-cased by count for
/// visual quality; see `spec_layout_main`.
pub fn layout_main(to_fill: &Rect, window_count: u32) -> (layout: Vec<Rect>)
    requires
        rect_valid(*to_fill),
        main_area_ok(*to_fill, window_count as int),
    ensures
        layout@ == spec_layout_main(*to_fill, window_count as int),
{
    if window_count == 0 {
        Vec::new()
    } else if window_count == 1 {
        let mut layout: Vec<Rect> = Vec::new();
        layout.push(*to_fill);
        proof {
            assert(layout@ =~= seq![*to_fill]);
        }
        layout
    } else if window_count == 2 {
        let fl = (to_fill.height as u64 * 3 / 4) as u32;
        let wall = (to_fill.width as u64 * 2 / 3) as u32;
        let (row_a, row_b) = split_at_height(to_fill, fl);
        let (col_a, col_b) = split_at_width(to_fill, wall);
        let row_ratio = crate::rect::aspect_ratio(&row_a);
        let col_ratio = crate::rect::aspect_ratio(&col_a);
        let target = MAIN_TARGET_ASPECT_RATIO;
        let row_dist = if row_ratio >= target {
            row_ratio - target
        } else {
            target - row_ratio
        };
        let col_dist = if col_ratio >= target {
            col_ratio - target
        } else {
            target - col_ratio
        };
        let mut layout: Vec<Rect> = Vec::new();
        if row_dist < col_dist {
            layout.push(row_a);
            layout.push(row_b);
            proof {
                assert(layout@ =~= seq![row_a, row_b]);
            }
        } else {
            layout.push(col_a);
            layout.push(col_b);
            proof {
                assert(layout@ =~= seq![col_a, col_b]);
            }
        }
        layout
    } else {
        layout_region_fairly(to_fill, window_count)
    }
}

/// Lays out all windows in the main-area style over the whole region and
/// pairs them with their identifiers: used when the configured main
/// window count covers every window present.
pub fn do_all_main_layout(ids: &Vec<u32>, to_fill: &Rect) -> (actions: Vec<(u32, Rect)>)
    requires
        rect_valid(*to_fill),
        ids@.len() <= u32::MAX,
        main_area_ok(*to_fill, ids@.len() as int),
    ensures
        actions@ == spec_zip_ids(ids@, spec_layout_main(*to_fill, ids@.len() as int)),
{
    let count: u32 = ids.len() as u32;
    let layout = layout_main(to_fill, count);
    proof {
        lemma_layout_main_len(*to_fill, count as int);
    }
    crate::fair::zip_with_ids(ids, &layout)
}

/// The two-way arrangement used when exactly one window is secondary: the
/// main area (widened to absorb the left side column) comes first, the
/// secondary column last.
pub open spec fn spec_two_region_layout(r: Rect, n: int, mwc: int, pm: int) -> Seq<Rect>
    recommends
        mwc + 1 == n,
{
    let m = spec_main_width(r.width as int, 2 * pm, 3 * RATIO_SCALE as int);
    let s = spec_side_width(r.width as int, 2 * pm, 3 * RATIO_SCALE as int);
    let main = spec_left_at(r, m + s);
    let secondary = spec_right_at(r, m + s);
    spec_layout_main(main, mwc) + spec_fair_layout(secondary, n - mwc)
}

/// Whether the two-way split is geometrically possible: the cut must fall
/// strictly inside the region and leave the main area large enough for
/// its arrangement.
pub open spec fn two_region_ok(r: Rect, mwc: int, pm: int) -> bool {
    let m = spec_main_width(r.width as int, 2 * pm, 3 * RATIO_SCALE as int);
    let s = spec_side_width(r.width as int, 2 * pm, 3 * RATIO_SCALE as int);
    &&& 0 < m + s < r.width
    &&& main_area_ok(spec_left_at(r, m + s), mwc)
}

/// Splits the region into a main area and one secondary column and lays
/// out the first `main_region_window_count` windows in the main area and
/// the one remaining window in the secondary column.
pub fn do_two_region_layout(
    ids: &Vec<u32>,
    to_fill: &Rect,
    main_region_window_count: u32,
    main_region_ratio: u32,
) -> (actions: Vec<(u32, Rect)>)
    requires
        rect_valid(*to_fill),
        0 < main_region_ratio < RATIO_SCALE,
        ids@.len() <= u32::MAX,
        ids@.len() == main_region_window_count + 1,
        two_region_ok(*to_fill, main_region_window_count as int, main_region_ratio as int),
    ensures
        actions@ == spec_zip_ids(
            ids@,
            spec_two_region_layout(
                *to_fill,
                ids@.len() as int,
                main_region_window_count as int,
                main_region_ratio as int,
            ),
        ),
{
    // the ratio is lowered to two thirds of the configured one, because
    // the main area also absorbs the left side column
    let (m, s) = region_widths(to_fill, 2 * main_region_ratio as u64, 3 * RATIO_SCALE);
    let (main, secondary) = split_at_width(to_fill, m + s);
    let mut layout = layout_main(&main, main_region_window_count);
    let secondary_count = ids.len() as u32 - main_region_window_count;
    let mut secondary_layout = layout_region_fairly(&secondary, secondary_count);
    proof {
        lemma_layout_main_len(main, main_region_window_count as int);
        crate::fair::lemma_fair_layout_len(secondary, secondary_count as int);
    }
    layout.append(&mut secondary_layout);
    crate::fair::zip_with_ids(ids, &layout)
}

/// The three-way arrangement: a left side column, the main area, and a
/// right side column, in that order; the windows not in the main area are
/// split as evenly as possible between the sides, with the right side
/// taking the odd one.
pub open spec fn spec_three_region_layout(r: Rect, n: int, mwc: int, pm: int) -> Seq<Rect>
    recommends
        0 <= mwc,
        mwc + 1 < n,
{
    let m = spec_main_width(r.width as int, pm, RATIO_SCALE as int);
    let s = spec_side_width(r.width as int, pm, RATIO_SCALE as int);
    let left = spec_left_at(r, s);
    let rem = spec_right_at(r, s);
    let main = spec_left_at(rem, m);
    let right = spec_right_at(rem, m);
    let lc = (n - mwc) / 2;
    spec_fair_layout(left, lc) + spec_layout_main(main, mwc) + spec_fair_layout(
        right,
        n - lc - mwc,
    )
}

/// Whether the three-way split is geometrically possible: both cuts must
/// fall strictly inside the region and the main area must be large enough
/// for its arrangement.
pub open spec fn three_region_ok(r: Rect, mwc: int, pm: int) -> bool {
    let m = spec_main_width(r.width as int, pm, RATIO_SCALE as int);
    let s = spec_side_width(r.width as int, pm, RATIO_SCALE as int);
    &&& 1 <= s
    &&& 1 <= m
    &&& main_area_ok(spec_left_at(spec_right_at(r, s), m), mwc)
}

/// Splits the region into left, main and right areas, gives the first
/// windows of the left area, then the main windows, then the right
/// windows their rectangles, left to right.
pub fn do_three_region_layout(
    ids: &Vec<u32>,
    to_fill: &Rect,
    main_region_window_count: u32,
    main_region_ratio: u32,
) -> (actions: Vec<(u32, Rect)>)
    requires
        rect_valid(*to_fill),
        0 < main_region_ratio < RATIO_SCALE,
        ids@.len() <= u32::MAX,
        main_region_window_count + 1 < ids@.len(),
        three_region_ok(*to_fill, main_region_window_count as int, main_region_ratio as int),
    ensures
        actions@ == spec_zip_ids(
            ids@,
            spec_three_region_layout(
                *to_fill,
                ids@.len() as int,
                main_region_window_count as int,
                main_region_ratio as int,
            ),
        ),
{
    let (m, s) = region_widths(to_fill, main_region_ratio as u64, RATIO_SCALE);
    let (left, remainder) = split_at_width(to_fill, s);
    let (main, right) = split_at_width(&remainder, m);
    let n = ids.len() as u32;
    let left_count = (n - main_region_window_count) / 2;
    let right_count = n - left_count - main_region_window_count;
    let mut layout = layout_region_fairly(&left, left_count);
    let mut main_layout = layout_main(&main, main_region_window_count);
    let mut right_layout = layout_region_fairly(&right, right_count);
    proof {
        crate::fair::lemma_fair_layout_len(left, left_count as int);
        lemma_layout_main_len(main, main_region_window_count as int);
        crate::fair::lemma_fair_layout_len(right, right_count as int);
    }
    layout.append(&mut main_layout);
    layout.append(&mut right_layout);
    crate::fair::zip_with_ids(ids, &layout)
}

/// The central-main arrangement of `n` windows, dispatched on how the
/// configured main window count relates to `n`: all windows in the main
/// style, a two-way split with one secondary window, or a three-way split
/// with side columns.
pub open spec fn spec_central_main_layout(r: Rect, n: int, mwc: int, pm: int) -> Seq<Rect> {
    if mwc >= n {
        spec_layout_main(r, n)
    } else if mwc + 1 == n {
        spec_two_region_layout(r, n, mwc, pm)
    } else {
        spec_three_region_layout(r, n, mwc, pm)
    }
}

/// Whether the central-main arrangement is geometrically possible for the
/// dispatched branch.
pub open spec fn central_main_ok(r: Rect, n: int, mwc: int, pm: int) -> bool {
    if mwc >= n {
        main_area_ok(r, n)
    } else if mwc + 1 == n {
        two_region_ok(r, mwc, pm)
    } else {
        three_region_ok(r, mwc, pm)
    }
}

/// The central-main arrangement of `n` windows holds exactly `n`
/// rectangles.
pub proof fn lemma_central_main_len(r: Rect, n: int, mwc: int, pm: int)
    requires
        0 <= n,
        0 <= mwc,
    ensures
        spec_central_main_layout(r, n, mwc, pm).len() == n,
{
    if mwc >= n {
        lemma_layout_main_len(r, n);
    } else if mwc + 1 == n {
        let m = spec_main_width(r.width as int, 2 * pm, 3 * RATIO_SCALE as int);
        let s = spec_side_width(r.width as int, 2 * pm, 3 * RATIO_SCALE as int);
        lemma_layout_main_len(spec_left_at(r, m + s), mwc);
        lemma_fair_layout_len(spec_right_at(r, m + s), n - mwc);
    } else {
        let m = spec_main_width(r.width as int, pm, RATIO_SCALE as int);
        let s = spec_side_width(r.width as int, pm, RATIO_SCALE as int);
        let rem = spec_right_at(r, s);
        let lc = (n - mwc) / 2;
        vstd::arithmetic::div_mod::lemma_div_pos_is_pos(n - mwc, 2);
        vstd::arithmetic::div_mod::lemma_div_nonincreasing(n - mwc, 2);
        lemma_fair_layout_len(spec_left_at(r, s), lc);
        lemma_layout_main_len(spec_left_at(rem, m), mwc);
        lemma_fair_layout_len(spec_right_at(rem, m), n - lc - mwc);
    }
}

/// The main-area arrangement of one or more windows exactly partitions
/// the area's pixel box.
pub proof fn lemma_layout_main_partition(r: Rect, n: int)
    requires
        rect_valid(r),
        1 <= n,
        main_area_ok(r, n),
    ensures
        crate::rect::covers_exactly(
            spec_layout_main(r, n),
            r.x as int,
            r.x + r.width,
            r.y as int,
            r.y + r.height,
        ),
{
    if n == 1 {
        crate::rect::lemma_single_partition(r);
    } else if n == 2 {
        let fl = r.height as int * 3 / 4;
        let wall = r.width as int * 2 / 3;
        let row_a = spec_top_at(r, fl);
        let row_b = spec_bottom_at(r, fl);
        let col_a = spec_left_at(r, wall);
        let col_b = spec_right_at(r, wall);
        assert(1 <= fl < r.height);
        assert(1 <= wall < r.width);
        crate::rect::lemma_single_partition(row_a);
        crate::rect::lemma_single_partition(row_b);
        crate::rect::lemma_single_partition(col_a);
        crate::rect::lemma_single_partition(col_b);
        assert(seq![row_a, row_b] =~= seq![row_a] + seq![row_b]);
        assert(seq![col_a, col_b] =~= seq![col_a] + seq![col_b]);
        crate::rect::lemma_partition_stack(
            seq![row_a],
            seq![row_b],
            r.x as int,
            r.x + r.width,
            r.y as int,
            r.y + fl,
            r.y + r.height,
        );
        crate::rect::lemma_partition_beside(
            seq![col_a],
            seq![col_b],
            r.x as int,
            r.x + wall,
            r.x + r.width,
            r.y as int,
            r.y + r.height,
        );
    } else {
        crate::fair::lemma_fair_layout_partition(r, n);
    }
}

/// Law: when every area is populated (`n >= 1` windows in all and at
/// least one of them in the main area), the central-main layout returns
/// exactly `n` rectangles that cover the region with no gaps and no
/// overlaps.
pub proof fn lemma_central_main_partition(r: Rect, n: int, mwc: int, pm: int)
    requires
        rect_valid(r),
        1 <= n,
        1 <= mwc,
        0 < pm < RATIO_SCALE as int,
        central_main_ok(r, n, mwc, pm),
    ensures
        spec_central_main_layout(r, n, mwc, pm).len() == n,
        crate::rect::covers_exactly(
            spec_central_main_layout(r, n, mwc, pm),
            r.x as int,
            r.x + r.width,
            r.y as int,
            r.y + r.height,
        ),
{
    lemma_central_main_len(r, n, mwc, pm);
    let xlo = r.x as int;
    let xhi = r.x + r.width;
    let ylo = r.y as int;
    let yhi = r.y + r.height;
    if mwc >= n {
        lemma_layout_main_partition(r, n);
    } else if mwc + 1 == n {
        let m = spec_main_width(r.width as int, 2 * pm, 3 * RATIO_SCALE as int);
        let s = spec_side_width(r.width as int, 2 * pm, 3 * RATIO_SCALE as int);
        let main = spec_left_at(r, m + s);
        let secondary = spec_right_at(r, m + s);
        lemma_layout_main_partition(main, mwc);
        crate::fair::lemma_fair_layout_partition(secondary, n - mwc);
        crate::rect::lemma_partition_beside(
            spec_layout_main(main, mwc),
            spec_fair_layout(secondary, n - mwc),
            xlo,
            xlo + (m + s),
            xhi,
            ylo,
            yhi,
        );
    } else {
        let m = spec_main_width(r.width as int, pm, RATIO_SCALE as int);
        let s = spec_side_width(r.width as int, pm, RATIO_SCALE as int);
        let left = spec_left_at(r, s);
        let rem = spec_right_at(r, s);
        let main = spec_left_at(rem, m);
        let right = spec_right_at(rem, m);
        let lc = (n - mwc) / 2;
        let rc = n - lc - mwc;
        assert(1 <= lc && 1 <= rc) by {
            vstd::arithmetic::div_mod::lemma_div_pos_is_pos(n - mwc, 2);
            vstd::arithmetic::div_mod::lemma_div_is_ordered(2, n - mwc, 2);
            vstd::arithmetic::div_mod::lemma_div_by_self(2);
            assert(lc <= (n - mwc) - lc) by {
                vstd::arithmetic::div_mod::lemma_remainder_lower(n - mwc, 2);
            }
        }
        assert(m + 2 * s == r.width) by {
            lemma_main_width_bounds(r.width as int, pm, RATIO_SCALE as int);
        }
        crate::fair::lemma_fair_layout_partition(left, lc);
        lemma_layout_main_partition(main, mwc);
        crate::fair::lemma_fair_layout_partition(right, rc);
        crate::rect::lemma_partition_beside(
            spec_fair_layout(left, lc),
            spec_layout_main(main, mwc),
            xlo,
            xlo + s,
            xlo + s + m,
            ylo,
            yhi,
        );
        crate::rect::lemma_partition_beside(
            spec_fair_layout(left, lc) + spec_layout_main(main, mwc),
            spec_fair_layout(right, rc),
            xlo,
            xlo + s + m,
            xhi,
            ylo,
            yhi,
        );
    }
}

/// Computes the central-main layout for the given windows: the first
/// `main_region_window_count` of them occupy the main area (in the
/// three-way split they follow the left side column's windows), and every
/// window is paired with its rectangle in the order the windows were
/// supplied.
pub fn do_horizontal_central_main_layout(
    ids: &Vec<u32>,
    to_fill: &Rect,
    main_region_window_count: u32,
    main_region_ratio: u32,
) -> (actions: Vec<(u32, Rect)>)
    requires
        rect_valid(*to_fill),
        0 < main_region_ratio < RATIO_SCALE,
        ids@.len() <= u32::MAX,
        central_main_ok(
            *to_fill,
            ids@.len() as int,
            main_region_window_count as int,
            main_region_ratio as int,
        ),
    ensures
        actions@ == spec_zip_ids(
            ids@,
            spec_central_main_layout(
                *to_fill,
                ids@.len() as int,
                main_region_window_count as int,
                main_region_ratio as int,
            ),
        ),
{
    let n = ids.len() as u32;
    if main_region_window_count >= n {
        do_all_main_layout(ids, to_fill)
    } else if main_region_window_count + 1 == n {
        do_two_region_layout(ids, to_fill, main_region_window_count, main_region_ratio)
    } else {
        do_three_region_layout(ids, to_fill, main_region_window_count, main_region_ratio)
    }
}

} // verus!
