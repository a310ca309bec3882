//! The rectangle type and the primitive region algebra: aspect ratio,
//! splitting at an exact offset, and splitting into equal columns or rows.
//!
//! A rectangle is an axis-aligned integer-pixel area `{x, y, width, height}`,
//! with `x`/`y` the top-left offset within the display.  Every split
//! operation produces rectangles that exactly partition the source: the
//! first parts all get the rounded-down share and the last part absorbs the
//! remainder, so earlier parts are favored with exactly equal sizes and all
//! of the rounding error lands in the trailing part.

use vstd::prelude::*;

verus! {

/// How many fixed-point units make up a ratio of 1 (per-mille scaling).
pub const RATIO_SCALE: u64 = 1000;

/// An axis-aligned rectangle in integer pixel units.
#[derive(Clone, Copy, PartialEq, Eq, Structural, Debug)]
pub struct Rect {
    /// Horizontal offset of the left edge within the display.
    pub x: u32,
    /// Vertical offset of the top edge within the display.
    pub y: u32,
    /// Width in pixels.
    pub width: u32,
    /// Height in pixels.
    pub height: u32,
}

/// A rectangle is valid when both dimensions are positive and its far edges
/// stay within the `u32` coordinate plane.
pub open spec fn rect_valid(r: Rect) -> bool {
    &&& 0 < r.width
    &&& 0 < r.height
    &&& r.x + r.width <= u32::MAX
    &&& r.y + r.height <= u32::MAX
}

impl Rect {
    /// Builds a rectangle from its offset and dimensions.
    pub fn new(x: u32, y: u32, width: u32, height: u32) -> (r: Rect)
        ensures
            r == (Rect { x, y, width, height }),
    {
        Rect { x, y, width, height }
    }
}

/// The aspect ratio `width / height` in per-mille fixed point, rounded down.
pub open spec fn spec_ratio(w: int, h: int) -> int
    recommends
        h > 0,
{
    w * RATIO_SCALE / h
}

/// The distance between two fixed-point ratios.
pub open spec fn ratio_dist(a: int, b: int) -> int {
    if a >= b {
        a - b
    } else {
        b - a
    }
}

/// Fixed-point stand-in for the aspect ratio of a rectangle with no
/// height.  It is far larger than any ratio a real rectangle can have, so
/// a layout containing such a degenerate rectangle scores as badly as
/// possible.
pub const RATIO_DEGENERATE: u64 = 0x2000_0000_0000;

/// The aspect ratio of a rectangle in per-mille fixed point; a rectangle
/// with no height rates as `RATIO_DEGENERATE`.
pub open spec fn spec_rect_ratio(r: Rect) -> int {
    if r.height == 0 {
        RATIO_DEGENERATE as int
    } else {
        spec_ratio(r.width as int, r.height as int)
    }
}

/// The fixed-point aspect ratio of any rectangle lies between 0 and
/// `RATIO_DEGENERATE`.
pub proof fn lemma_rect_ratio_bounds(r: Rect)
    ensures
        0 <= spec_rect_ratio(r) <= RATIO_DEGENERATE,
{
    if r.height != 0 {
        let num = r.width as int * RATIO_SCALE as int;
        vstd::arithmetic::div_mod::lemma_div_pos_is_pos(num, r.height as int);
        vstd::arithmetic::div_mod::lemma_div_nonincreasing(num, r.height as int);
    }
}

/// Computes the aspect ratio of a rectangle in per-mille fixed point.
pub fn aspect_ratio(r: &Rect) -> (q: u64)
    requires
        rect_valid(*r),
    ensures
        q == spec_ratio(r.width as int, r.height as int),
{
    (r.width as u64 * RATIO_SCALE) / (r.height as u64)
}

/// The left part of a cut at width `w`: the first `w` columns of pixels.
pub open spec fn spec_left_at(r: Rect, w: int) -> Rect {
    Rect { x: r.x, y: r.y, width: w as u32, height: r.height }
}

/// The right part of a cut at width `w`: the remaining columns of pixels.
pub open spec fn spec_right_at(r: Rect, w: int) -> Rect {
    Rect { x: (r.x + w) as u32, y: r.y, width: (r.width - w) as u32, height: r.height }
}

/// The top part of a cut at height `h`: the first `h` rows of pixels.
pub open spec fn spec_top_at(r: Rect, h: int) -> Rect {
    Rect { x: r.x, y: r.y, width: r.width, height: h as u32 }
}

/// The bottom part of a cut at height `h`: the remaining rows of pixels.
pub open spec fn spec_bottom_at(r: Rect, h: int) -> Rect {
    Rect { x: r.x, y: (r.y + h) as u32, width: r.width, height: (r.height - h) as u32 }
}

/// Cuts a rectangle into `(left, right)` at exactly `w` pixels of width.
pub fn split_at_width(r: &Rect, w: u32) -> (parts: (Rect, Rect))
    requires
        rect_valid(*r),
        0 < w < r.width,
    ensures
        parts.0 == spec_left_at(*r, w as int),
        parts.1 == spec_right_at(*r, w as int),
        rect_valid(parts.0),
        rect_valid(parts.1),
{
    (
        Rect { x: r.x, y: r.y, width: w, height: r.height },
        Rect { x: r.x + w, y: r.y, width: r.width - w, height: r.height },
    )
}

/// Column `i` of an equal split of `r` into `count` columns: the first
/// `count - 1` columns are `width / count` wide and the last column absorbs
/// the division remainder.
pub open spec fn spec_col(r: Rect, count: int, i: int) -> Rect
    recommends
        0 < count,
        0 <= i < count,
{
    let cw = r.width as int / count;
    if i < count - 1 {
        Rect { x: (r.x + i * cw) as u32, y: r.y, width: cw as u32, height: r.height }
    } else {
        Rect {
            x: (r.x + (count - 1) * cw) as u32,
            y: r.y,
            width: (r.width - (count - 1) * cw) as u32,
            height: r.height,
        }
    }
}

/// The equal split of `r` into `count` columns, left to right.
pub open spec fn spec_columns(r: Rect, count: int) -> Seq<Rect>
    recommends
        0 < count,
{
    Seq::new(count as nat, |i: int| spec_col(r, count, i))
}

/// Row `i` of an equal split of `r` into `count` rows: the first `count - 1`
/// rows are `height / count` tall and the last row absorbs the remainder.
pub open spec fn spec_row(r: Rect, count: int, i: int) -> Rect
    recommends
        0 < count,
        0 <= i < count,
{
    let rh = r.height as int / count;
    if i < count - 1 {
        Rect { x: r.x, y: (r.y + i * rh) as u32, width: r.width, height: rh as u32 }
    } else {
        Rect {
            x: r.x,
            y: (r.y + (count - 1) * rh) as u32,
            width: r.width,
            height: (r.height - (count - 1) * rh) as u32,
        }
    }
}

/// The equal split of `r` into `count` rows, top to bottom.
pub open spec fn spec_rows(r: Rect, count: int) -> Seq<Rect>
    recommends
        0 < count,
{
    Seq::new(count as nat, |i: int| spec_row(r, count, i))
}

/// Cuts a rectangle into `(top, bottom)` at exactly `h` pixels of height.
pub fn split_at_height(r: &Rect, h: u32) -> (parts: (Rect, Rect))
    requires
        rect_valid(*r),
        0 < h < r.height,
    ensures
        parts.0 == spec_top_at(*r, h as int),
        parts.1 == spec_bottom_at(*r, h as int),
        rect_valid(parts.0),
        rect_valid(parts.1),
{
    (
        Rect { x: r.x, y: r.y, width: r.width, height: h },
        Rect { x: r.x, y: r.y + h, width: r.width, height: r.height - h },
    )
}

/// Facts about the rounded-down equal share `w / count` that the split
/// operations rely on.
proof fn lemma_share_bounds(w: int, count: int)
    requires
        0 <= w,
        0 < count,
    ensures
        0 <= w / count,
        count * (w / count) <= w,
        forall|i: int| 0 <= i <= count - 1 ==> 0 <= #[trigger] (i * (w / count)) <= w - (w / count),
        count <= w ==> 1 <= w / count,
{
    let cw = w / count;
    vstd::arithmetic::div_mod::lemma_div_pos_is_pos(w, count);
    vstd::arithmetic::div_mod::lemma_remainder_lower(w, count);
    vstd::arithmetic::mul::lemma_mul_is_commutative(cw, count);
    assert forall|i: int| 0 <= i <= count - 1 implies 0 <= #[trigger] (i * cw) <= w - cw by {
        vstd::arithmetic::mul::lemma_mul_nonnegative(i, cw);
        vstd::arithmetic::mul::lemma_mul_inequality(i, count - 1, cw);
        vstd::arithmetic::mul::lemma_mul_is_distributive_sub_other_way(cw, count, 1);
    }
    if count <= w {
        assert(1 <= w / count) by {
            vstd::arithmetic::div_mod::lemma_div_is_ordered(count, w, count);
            vstd::arithmetic::div_mod::lemma_div_by_self(count);
        }
    }
}

/// The equal column split has `count` parts that lie side by side across
/// the full width of `r`, all sharing its vertical extent; when the width
/// can accommodate them, every part is at least one pixel wide.
pub proof fn lemma_columns_span(r: Rect, count: int)
    requires
        0 < count,
        r.x + r.width <= u32::MAX,
    ensures
        spec_columns(r, count).len() == count,
        x_span(spec_columns(r, count), r.x as int, r.x + r.width),
        forall|i: int|
            0 <= i < count ==> (#[trigger] spec_columns(r, count)[i]).y == r.y
                && spec_columns(r, count)[i].height == r.height,
        count <= r.width ==> forall|i: int|
            0 <= i < count ==> (#[trigger] spec_columns(r, count)[i]).width >= 1,
{
    let s = spec_columns(r, count);
    let w = r.width as int;
    let cw = w / count;
    lemma_share_bounds(w, count);
    assert(forall|i: int| 0 <= i < count ==> #[trigger] s[i] == spec_col(r, count, i));
    assert forall|i: int| 0 <= i < count - 1 implies (#[trigger] s[i + 1]).x == s[i].x + s[i].width by {
        vstd::arithmetic::mul::lemma_mul_is_distributive_add_other_way(cw, i, 1);
        assert((i + 1) * cw == i * cw + cw);
    }
    assert(0 * cw == 0);
    assert(s[0].x == r.x);
    assert(s[s.len() - 1].x + s[s.len() - 1].width == r.x + r.width);
}

/// The equal row split has `count` parts stacked down the full height of
/// `r`, all sharing its horizontal extent; when the height can accommodate
/// them, every part is at least one pixel tall.
pub proof fn lemma_rows_span(r: Rect, count: int)
    requires
        0 < count,
        r.y + r.height <= u32::MAX,
    ensures
        spec_rows(r, count).len() == count,
        y_span(spec_rows(r, count), r.y as int, r.y + r.height),
        forall|i: int|
            0 <= i < count ==> (#[trigger] spec_rows(r, count)[i]).x == r.x
                && spec_rows(r, count)[i].width == r.width,
        count <= r.height ==> forall|i: int|
            0 <= i < count ==> (#[trigger] spec_rows(r, count)[i]).height >= 1,
{
    let s = spec_rows(r, count);
    let h = r.height as int;
    let rh = h / count;
    lemma_share_bounds(h, count);
    assert(forall|i: int| 0 <= i < count ==> #[trigger] s[i] == spec_row(r, count, i));
    assert forall|i: int| 0 <= i < count - 1 implies (#[trigger] s[i + 1]).y == s[i].y + s[i].height by {
        vstd::arithmetic::mul::lemma_mul_is_distributive_add_other_way(rh, i, 1);
        assert((i + 1) * rh == i * rh + rh);
    }
    assert(0 * rh == 0);
    assert(s[0].y == r.y);
    assert(s[s.len() - 1].y + s[s.len() - 1].height == r.y + r.height);
}

/// Divides `r` into `count` equal columns; the last column absorbs the
/// division remainder, so the columns exactly cover `r`.
pub fn split_into_columns(r: &Rect, count: u32) -> (cols: Vec<Rect>)
    requires
        0 < count,
        r.x + r.width <= u32::MAX,
    ensures
        cols@ == spec_columns(*r, count as int),
{
    proof {
        lemma_share_bounds(r.width as int, count as int);
    }
    let cw = r.width / count;
    let mut cols: Vec<Rect> = Vec::new();
    let mut i: u32 = 0;
    while i < count - 1
        invariant
            0 < count,
            r.x + r.width <= u32::MAX,
            cw == r.width as int / count as int,
            i <= count - 1,
            forall|k: int|
                0 <= k <= count - 1 ==> 0 <= #[trigger] (k * (cw as int)) <= r.width - cw,
            cols@ =~= spec_columns(*r, count as int).subrange(0, i as int),
        decreases count - 1 - i,
    {
        assert(i * (cw as int) <= r.width - cw);
        cols.push(Rect { x: r.x + i * cw, y: r.y, width: cw, height: r.height });
        proof {
            assert(cols@ =~= spec_columns(*r, count as int).subrange(0, i + 1));
        }
        i = i + 1;
    }
    assert((count - 1) * (cw as int) <= r.width - cw);
    let accounted = (count - 1) * cw;
    cols.push(Rect { x: r.x + accounted, y: r.y, width: r.width - accounted, height: r.height });
    proof {
        assert(cols@ =~= spec_columns(*r, count as int));
    }
    cols
}

/// Divides `r` into `count` equal rows; the last row absorbs the division
/// remainder, so the rows exactly cover `r`.
pub fn split_into_rows(r: &Rect, count: u32) -> (rows: Vec<Rect>)
    requires
        0 < count,
        r.y + r.height <= u32::MAX,
    ensures
        rows@ == spec_rows(*r, count as int),
{
    proof {
        lemma_share_bounds(r.height as int, count as int);
    }
    let rh = r.height / count;
    let mut rows: Vec<Rect> = Vec::new();
    let mut i: u32 = 0;
    while i < count - 1
        invariant
            0 < count,
            r.y + r.height <= u32::MAX,
            rh == r.height as int / count as int,
            i <= count - 1,
            forall|k: int|
                0 <= k <= count - 1 ==> 0 <= #[trigger] (k * (rh as int)) <= r.height - rh,
            rows@ =~= spec_rows(*r, count as int).subrange(0, i as int),
        decreases count - 1 - i,
    {
        assert(i * (rh as int) <= r.height - rh);
        rows.push(Rect { x: r.x, y: r.y + i * rh, width: r.width, height: rh });
        proof {
            assert(rows@ =~= spec_rows(*r, count as int).subrange(0, i + 1));
        }
        i = i + 1;
    }
    assert((count - 1) * (rh as int) <= r.height - rh);
    let accounted = (count - 1) * rh;
    rows.push(Rect { x: r.x, y: r.y + accounted, width: r.width, height: r.height - accounted });
    proof {
        assert(rows@ =~= spec_rows(*r, count as int));
    }
    rows
}

/// The rectangles of `s` lie side by side: the first starts at `lo`, each
/// next one starts where the previous one ends, and the last ends at `hi`.
pub open spec fn x_span(s: Seq<Rect>, lo: int, hi: int) -> bool {
    &&& (s.len() == 0 ==> lo == hi)
    &&& (s.len() > 0 ==> s[0].x == lo && s[s.len() - 1].x + s[s.len() - 1].width == hi)
    &&& forall|i: int|
        0 <= i < s.len() - 1 ==> (#[trigger] s[i + 1]).x == s[i].x + s[i].width
}

/// The rectangles of `s` lie stacked: the first starts at `lo`, each next
/// one starts where the previous one ends, and the last ends at `hi`.
pub open spec fn y_span(s: Seq<Rect>, lo: int, hi: int) -> bool {
    &&& (s.len() == 0 ==> lo == hi)
    &&& (s.len() > 0 ==> s[0].y == lo && s[s.len() - 1].y + s[s.len() - 1].height == hi)
    &&& forall|i: int|
        0 <= i < s.len() - 1 ==> (#[trigger] s[i + 1]).y == s[i].y + s[i].height
}

/// The widths of the rectangles of `s`, added up.
pub open spec fn sum_widths(s: Seq<Rect>) -> int
    decreases s.len(),
{
    if s.len() == 0 {
        0
    } else {
        s[0].width + sum_widths(s.subrange(1, s.len() as int))
    }
}

/// The heights of the rectangles of `s`, added up.
pub open spec fn sum_heights(s: Seq<Rect>) -> int
    decreases s.len(),
{
    if s.len() == 0 {
        0
    } else {
        s[0].height + sum_heights(s.subrange(1, s.len() as int))
    }
}

/// Side-by-side rectangles have widths that add up to the spanned width.
pub proof fn lemma_x_span_sum(s: Seq<Rect>, lo: int, hi: int)
    requires
        x_span(s, lo, hi),
    ensures
        sum_widths(s) == hi - lo,
    decreases s.len(),
{
    if s.len() > 0 {
        let rest = s.subrange(1, s.len() as int);
        if s.len() == 1 {
            assert(x_span(rest, lo + s[0].width, hi));
        } else {
            assert(rest[0] == s[1]);
            assert(rest[rest.len() - 1] == s[s.len() - 1]);
            assert(forall|i: int|
                0 <= i < rest.len() - 1 ==> (#[trigger] rest[i + 1]) == s[i + 2]);
            assert(x_span(rest, lo + s[0].width, hi));
        }
        lemma_x_span_sum(rest, lo + s[0].width, hi);
    }
}

/// Stacked rectangles have heights that add up to the spanned height.
pub proof fn lemma_y_span_sum(s: Seq<Rect>, lo: int, hi: int)
    requires
        y_span(s, lo, hi),
    ensures
        sum_heights(s) == hi - lo,
    decreases s.len(),
{
    if s.len() > 0 {
        let rest = s.subrange(1, s.len() as int);
        if s.len() == 1 {
            assert(y_span(rest, lo + s[0].height, hi));
        } else {
            assert(rest[0] == s[1]);
            assert(rest[rest.len() - 1] == s[s.len() - 1]);
            assert(forall|i: int|
                0 <= i < rest.len() - 1 ==> (#[trigger] rest[i + 1]) == s[i + 2]);
            assert(y_span(rest, lo + s[0].height, hi));
        }
        lemma_y_span_sum(rest, lo + s[0].height, hi);
    }
}

/// Of two side-by-side rectangles, the earlier one ends before the later
/// one starts.
pub proof fn lemma_x_span_ordered(s: Seq<Rect>, lo: int, hi: int, i: int, j: int)
    requires
        x_span(s, lo, hi),
        0 <= i < j < s.len(),
    ensures
        s[i].x + s[i].width <= s[j].x,
    decreases j - i,
{
    assert(s[(j - 1) + 1].x == s[j - 1].x + s[j - 1].width);
    if j > i + 1 {
        lemma_x_span_ordered(s, lo, hi, i, j - 1);
    }
}

/// Of two stacked rectangles, the earlier one ends before the later one
/// starts.
pub proof fn lemma_y_span_ordered(s: Seq<Rect>, lo: int, hi: int, i: int, j: int)
    requires
        y_span(s, lo, hi),
        0 <= i < j < s.len(),
    ensures
        s[i].y + s[i].height <= s[j].y,
    decreases j - i,
{
    assert(s[(j - 1) + 1].y == s[j - 1].y + s[j - 1].height);
    if j > i + 1 {
        lemma_y_span_ordered(s, lo, hi, i, j - 1);
    }
}

/// Every rectangle of a side-by-side sequence lies within the spanned
/// horizontal interval.
pub proof fn lemma_x_span_within(s: Seq<Rect>, lo: int, hi: int, i: int)
    requires
        x_span(s, lo, hi),
        0 <= i < s.len(),
    ensures
        lo <= s[i].x,
        s[i].x + s[i].width <= hi,
{
    if i > 0 {
        lemma_x_span_ordered(s, lo, hi, 0, i);
    }
    if i < s.len() - 1 {
        lemma_x_span_ordered(s, lo, hi, i, s.len() - 1);
    }
}

/// Every rectangle of a stacked sequence lies within the spanned vertical
/// interval.
pub proof fn lemma_y_span_within(s: Seq<Rect>, lo: int, hi: int, i: int)
    requires
        y_span(s, lo, hi),
        0 <= i < s.len(),
    ensures
        lo <= s[i].y,
        s[i].y + s[i].height <= hi,
{
    if i > 0 {
        lemma_y_span_ordered(s, lo, hi, 0, i);
    }
    if i < s.len() - 1 {
        lemma_y_span_ordered(s, lo, hi, i, s.len() - 1);
    }
}

/// Law: for every valid rectangle and every `count > 0`, the column split
/// returns exactly `count` rectangles whose widths add up to the source's
/// width, each sharing the source's vertical offset and height; and when
/// the width can accommodate them, each is at least one pixel wide.
pub proof fn lemma_split_into_columns_law(r: Rect, count: int)
    requires
        rect_valid(r),
        0 < count,
    ensures
        spec_columns(r, count).len() == count,
        sum_widths(spec_columns(r, count)) == r.width,
        forall|i: int|
            0 <= i < count ==> (#[trigger] spec_columns(r, count)[i]).y == r.y
                && spec_columns(r, count)[i].height == r.height,
        count <= r.width ==> forall|i: int|
            0 <= i < count ==> (#[trigger] spec_columns(r, count)[i]).width >= 1,
{
    lemma_columns_span(r, count);
    lemma_x_span_sum(spec_columns(r, count), r.x as int, r.x + r.width);
}

/// Law: for every valid rectangle and every `count > 0`, the row split
/// returns exactly `count` rectangles whose heights add up to the source's
/// height, each sharing the source's horizontal offset and width; and when
/// the height can accommodate them, each is at least one pixel tall.
pub proof fn lemma_split_into_rows_law(r: Rect, count: int)
    requires
        rect_valid(r),
        0 < count,
    ensures
        spec_rows(r, count).len() == count,
        sum_heights(spec_rows(r, count)) == r.height,
        forall|i: int|
            0 <= i < count ==> (#[trigger] spec_rows(r, count)[i]).x == r.x
                && spec_rows(r, count)[i].width == r.width,
        count <= r.height ==> forall|i: int|
            0 <= i < count ==> (#[trigger] spec_rows(r, count)[i]).height >= 1,
{
    lemma_rows_span(r, count);
    lemma_y_span_sum(spec_rows(r, count), r.y as int, r.y + r.height);
}

/// Every horizontal position in the spanned interval falls inside one of a
/// sequence of side-by-side rectangles.
pub proof fn lemma_x_span_cover(s: Seq<Rect>, lo: int, hi: int, px: int)
    requires
        x_span(s, lo, hi),
        lo <= px < hi,
    ensures
        exists|i: int|
            0 <= i < s.len() && (#[trigger] s[i]).x <= px < s[i].x + s[i].width,
    decreases s.len(),
{
    if px < s[0].x + s[0].width {
        assert(s[0].x <= px < s[0].x + s[0].width);
    } else {
        let rest = s.subrange(1, s.len() as int);
        assert(rest[0] == s[1]);
        assert(rest[rest.len() - 1] == s[s.len() - 1]);
        assert(forall|i: int| 0 <= i < rest.len() - 1 ==> (#[trigger] rest[i + 1]) == s[i + 2]);
        assert(x_span(rest, lo + s[0].width, hi));
        lemma_x_span_cover(rest, lo + s[0].width, hi, px);
        let w = choose|i: int|
            0 <= i < rest.len() && (#[trigger] rest[i]).x <= px < rest[i].x + rest[i].width;
        assert(s[w + 1].x <= px < s[w + 1].x + s[w + 1].width);
    }
}

/// Every vertical position in the spanned interval falls inside one of a
/// sequence of stacked rectangles.
pub proof fn lemma_y_span_cover(s: Seq<Rect>, lo: int, hi: int, py: int)
    requires
        y_span(s, lo, hi),
        lo <= py < hi,
    ensures
        exists|i: int|
            0 <= i < s.len() && (#[trigger] s[i]).y <= py < s[i].y + s[i].height,
    decreases s.len(),
{
    if py < s[0].y + s[0].height {
        assert(s[0].y <= py < s[0].y + s[0].height);
    } else {
        let rest = s.subrange(1, s.len() as int);
        assert(rest[0] == s[1]);
        assert(rest[rest.len() - 1] == s[s.len() - 1]);
        assert(forall|i: int| 0 <= i < rest.len() - 1 ==> (#[trigger] rest[i + 1]) == s[i + 2]);
        assert(y_span(rest, lo + s[0].height, hi));
        lemma_y_span_cover(rest, lo + s[0].height, hi, py);
        let w = choose|i: int|
            0 <= i < rest.len() && (#[trigger] rest[i]).y <= py < rest[i].y + rest[i].height;
        assert(s[w + 1].y <= py < s[w + 1].y + s[w + 1].height);
    }
}

/// Whether the pixel at `(px, py)` lies inside `r`.
pub open spec fn rect_contains_point(r: Rect, px: int, py: int) -> bool {
    &&& r.x <= px < r.x + r.width
    &&& r.y <= py < r.y + r.height
}

/// Whether two rectangles share no pixel: they are separated along at
/// least one axis.
pub open spec fn rects_disjoint(a: Rect, b: Rect) -> bool {
    ||| a.x + a.width <= b.x
    ||| b.x + b.width <= a.x
    ||| a.y + a.height <= b.y
    ||| b.y + b.height <= a.y
}

/// Whether some rectangle of `s` holds the pixel at `(px, py)`.
pub open spec fn covered(s: Seq<Rect>, px: int, py: int) -> bool {
    exists|t: int| 0 <= t < s.len() && rect_contains_point(#[trigger] s[t], px, py)
}

/// The rectangles of `s` exactly partition the pixel box
/// `[xlo, xhi) x [ylo, yhi)`: each lies within it, no two overlap, and
/// together they cover every pixel of it.
pub open spec fn covers_exactly(s: Seq<Rect>, xlo: int, xhi: int, ylo: int, yhi: int) -> bool {
    &&& forall|t: int|
        0 <= t < s.len() ==> xlo <= (#[trigger] s[t]).x && s[t].x + s[t].width <= xhi
            && ylo <= s[t].y && s[t].y + s[t].height <= yhi
    &&& forall|t1: int, t2: int|
        0 <= t1 < s.len() && 0 <= t2 < s.len() && t1 != t2 ==> rects_disjoint(
            #[trigger] s[t1],
            #[trigger] s[t2],
        )
    &&& forall|px: int, py: int|
        xlo <= px < xhi && ylo <= py < yhi ==> #[trigger] covered(s, px, py)
}

/// The equal column split of a rectangle exactly partitions its pixel box.
pub proof fn lemma_columns_cover_exactly(r: Rect, count: int)
    requires
        0 < count,
        r.x + r.width <= u32::MAX,
    ensures
        covers_exactly(
            spec_columns(r, count),
            r.x as int,
            r.x + r.width,
            r.y as int,
            r.y + r.height,
        ),
{
    let s = spec_columns(r, count);
    let xlo = r.x as int;
    let xhi = r.x + r.width;
    let ylo = r.y as int;
    let yhi = r.y + r.height;
    lemma_columns_span(r, count);
    assert forall|t: int| 0 <= t < s.len() implies xlo <= (#[trigger] s[t]).x
        && s[t].x + s[t].width <= xhi && ylo <= s[t].y && s[t].y + s[t].height <= yhi by {
        lemma_x_span_within(s, xlo, xhi, t);
    }
    assert forall|t1: int, t2: int|
        0 <= t1 < s.len() && 0 <= t2 < s.len() && t1 != t2 implies rects_disjoint(
        #[trigger] s[t1],
        #[trigger] s[t2],
    ) by {
        if t1 < t2 {
            lemma_x_span_ordered(s, xlo, xhi, t1, t2);
        } else {
            lemma_x_span_ordered(s, xlo, xhi, t2, t1);
        }
    }
    assert forall|px: int, py: int|
        xlo <= px < xhi && ylo <= py < yhi implies #[trigger] covered(s, px, py) by {
        lemma_x_span_cover(s, xlo, xhi, px);
        let t = choose|t: int| 0 <= t < s.len() && (#[trigger] s[t]).x <= px < s[t].x + s[t].width;
        assert(rect_contains_point(s[t], px, py));
    }
}

/// A rectangle on its own exactly partitions its pixel box.
pub proof fn lemma_single_partition(r: Rect)
    ensures
        covers_exactly(seq![r], r.x as int, r.x + r.width, r.y as int, r.y + r.height),
{
    let s = seq![r];
    assert forall|px: int, py: int|
        r.x <= px < r.x + r.width && r.y <= py < r.y + r.height implies #[trigger] covered(
        s,
        px,
        py,
    ) by {
        assert(rect_contains_point(s[0], px, py));
    }
}

/// Two exact partitions of horizontally adjacent boxes concatenate to an
/// exact partition of the combined box.
pub proof fn lemma_partition_beside(
    a: Seq<Rect>,
    b: Seq<Rect>,
    xlo: int,
    xmid: int,
    xhi: int,
    ylo: int,
    yhi: int,
)
    requires
        covers_exactly(a, xlo, xmid, ylo, yhi),
        covers_exactly(b, xmid, xhi, ylo, yhi),
        xlo <= xmid <= xhi,
    ensures
        covers_exactly(a + b, xlo, xhi, ylo, yhi),
{
    let s = a + b;
    assert(forall|t: int| 0 <= t < a.len() ==> #[trigger] s[t] == a[t]);
    assert(forall|t: int| a.len() <= t < s.len() ==> #[trigger] s[t] == b[t - a.len()]);
    assert forall|t1: int, t2: int|
        0 <= t1 < s.len() && 0 <= t2 < s.len() && t1 != t2 implies rects_disjoint(
        #[trigger] s[t1],
        #[trigger] s[t2],
    ) by {
        if t1 < a.len() && t2 < a.len() {
            assert(rects_disjoint(a[t1], a[t2]));
        } else if t1 >= a.len() && t2 >= a.len() {
            assert(rects_disjoint(b[t1 - a.len()], b[t2 - a.len()]));
        } else {
            // one rectangle lies in the left band, the other in the right
        }
    }
    assert forall|px: int, py: int|
        xlo <= px < xhi && ylo <= py < yhi implies #[trigger] covered(s, px, py) by {
        if px < xmid {
            assert(covered(a, px, py));
            let t = choose|t: int| 0 <= t < a.len() && rect_contains_point(#[trigger] a[t], px, py);
            assert(rect_contains_point(s[t], px, py));
        } else {
            assert(covered(b, px, py));
            let t = choose|t: int| 0 <= t < b.len() && rect_contains_point(#[trigger] b[t], px, py);
            assert(rect_contains_point(s[t + a.len()], px, py));
        }
    }
}

/// Two exact partitions of vertically adjacent boxes concatenate to an
/// exact partition of the combined box.
pub proof fn lemma_partition_stack(
    a: Seq<Rect>,
    b: Seq<Rect>,
    xlo: int,
    xhi: int,
    ylo: int,
    ymid: int,
    yhi: int,
)
    requires
        covers_exactly(a, xlo, xhi, ylo, ymid),
        covers_exactly(b, xlo, xhi, ymid, yhi),
        ylo <= ymid <= yhi,
    ensures
        covers_exactly(a + b, xlo, xhi, ylo, yhi),
{
    let s = a + b;
    assert(forall|t: int| 0 <= t < a.len() ==> #[trigger] s[t] == a[t]);
    assert(forall|t: int| a.len() <= t < s.len() ==> #[trigger] s[t] == b[t - a.len()]);
    assert forall|t1: int, t2: int|
        0 <= t1 < s.len() && 0 <= t2 < s.len() && t1 != t2 implies rects_disjoint(
        #[trigger] s[t1],
        #[trigger] s[t2],
    ) by {
        if t1 < a.len() && t2 < a.len() {
            assert(rects_disjoint(a[t1], a[t2]));
        } else if t1 >= a.len() && t2 >= a.len() {
            assert(rects_disjoint(b[t1 - a.len()], b[t2 - a.len()]));
        } else {
            // one rectangle lies in the upper band, the other in the lower
        }
    }
    assert forall|px: int, py: int|
        xlo <= px < xhi && ylo <= py < yhi implies #[trigger] covered(s, px, py) by {
        if py < ymid {
            assert(covered(a, px, py));
            let t = choose|t: int| 0 <= t < a.len() && rect_contains_point(#[trigger] a[t], px, py);
            assert(rect_contains_point(s[t], px, py));
        } else {
            assert(covered(b, px, py));
            let t = choose|t: int| 0 <= t < b.len() && rect_contains_point(#[trigger] b[t], px, py);
            assert(rect_contains_point(s[t + a.len()], px, py));
        }
    }
}

} // verus!
