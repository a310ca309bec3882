//! Selecting a layout policy by value.
//!
//! The window-manager side picks a policy, hands it the identifiers of the
//! windows currently visible and the screen region to fill, and gets back
//! one rectangle per window, in window order.  Inputs the geometry cannot
//! serve (an empty region, a ratio outside the open unit interval, a
//! main-area fraction that leaves some area without a single pixel) are
//! rejected with a distinct error rather than silently producing wrong
//! geometry.

use vstd::prelude::*;

use crate::central_main::{
    central_main_ok, do_horizontal_central_main_layout, region_widths, spec_central_main_layout,
};
use crate::fair::{do_fair_layout, spec_fair_layout, spec_zip_ids};
use crate::rect::{rect_valid, Rect, RATIO_SCALE};

verus! {

/// A layout policy, selectable by value.
#[derive(Clone, Copy, PartialEq, Eq, Structural, Debug)]
pub enum LayoutStrategy {
    /// Give every window approximately equal space, aspect-ratio aware.
    Fair,
    /// Reserve a central main area for the first windows.
    CentralMain {
        /// How many windows occupy the main area.
        main_window_count: u32,
        /// The fraction of the width the main area occupies, in per-mille
        /// fixed point; must lie strictly between 0 and `RATIO_SCALE`.
        main_ratio: u32,
    },
}

/// Why a layout request was rejected.
#[derive(Clone, Copy, PartialEq, Eq, Structural, Debug)]
pub enum LayoutError {
    /// The region has a zero dimension or runs off the coordinate plane.
    EmptyRegion,
    /// More windows than the layout arithmetic can count.
    TooManyWindows,
    /// The main-area ratio lies outside the open unit interval.
    RatioOutOfRange,
    /// The configured ratio leaves some area without a single pixel to
    /// cut, or the main area too small for its pair arrangement.
    DegenerateMainArea,
}

/// The error a layout request is rejected with, if any: requests are
/// checked for a usable region first, then for a countable window list,
/// then for policy-specific geometry.
pub open spec fn spec_layout_check(st: LayoutStrategy, n: int, region: Rect) -> Option<
    LayoutError,
> {
    if !rect_valid(region) {
        Some(LayoutError::EmptyRegion)
    } else if n > u32::MAX {
        Some(LayoutError::TooManyWindows)
    } else {
        match st {
            LayoutStrategy::Fair => None,
            LayoutStrategy::CentralMain { main_window_count, main_ratio } => {
                if !(0 < main_ratio < RATIO_SCALE) {
                    Some(LayoutError::RatioOutOfRange)
                } else if !central_main_ok(region, n, main_window_count as int, main_ratio as int) {
                    Some(LayoutError::DegenerateMainArea)
                } else {
                    None
                }
            },
        }
    }
}

/// The layout a strategy assigns to the given windows in the given
/// region, one `(identifier, rectangle)` pair per window, in window
/// order.
pub open spec fn spec_strategy_layout(st: LayoutStrategy, ids: Seq<u32>, region: Rect) -> Seq<
    (u32, Rect),
> {
    match st {
        LayoutStrategy::Fair => spec_zip_ids(ids, spec_fair_layout(region, ids.len() as int)),
        LayoutStrategy::CentralMain { main_window_count, main_ratio } => spec_zip_ids(
            ids,
            spec_central_main_layout(
                region,
                ids.len() as int,
                main_window_count as int,
                main_ratio as int,
            ),
        ),
    }
}

/// Law: the layout is a function of the strategy, the windows and the
/// region alone; two computations on identical inputs yield identical
/// pair sequences.
pub proof fn lemma_layout_deterministic(
    st: LayoutStrategy,
    ids: Seq<u32>,
    region: Rect,
    a: Seq<(u32, Rect)>,
    b: Seq<(u32, Rect)>,
)
    requires
        a == spec_strategy_layout(st, ids, region),
        b == spec_strategy_layout(st, ids, region),
    ensures
        a == b,
{
}

impl LayoutStrategy {
    /// Computes this strategy's layout for the given windows and region:
    /// one rectangle per window, paired with the window's identifier, in
    /// the order the windows were supplied.  Returns an error exactly on
    /// the requests `spec_layout_check` rejects.
    pub fn compute(&self, ids: &Vec<u32>, region: &Rect) -> (out: Result<
        Vec<(u32, Rect)>,
        LayoutError,
    >)
        ensures
            match out {
                Ok(actions) => spec_layout_check(*self, ids@.len() as int, *region) is None
                    && actions@ == spec_strategy_layout(*self, ids@, *region),
                Err(e) => spec_layout_check(*self, ids@.len() as int, *region) == Some(e),
            },
    {
        if region.width == 0 || region.height == 0 || region.width > u32::MAX - region.x
            || region.height > u32::MAX - region.y {
            return Err(LayoutError::EmptyRegion);
        }
        if ids.len() > u32::MAX as usize {
            return Err(LayoutError::TooManyWindows);
        }
        match self {
            LayoutStrategy::Fair => Ok(do_fair_layout(ids, region)),
            LayoutStrategy::CentralMain { main_window_count, main_ratio } => {
                let mwc = *main_window_count;
                let ratio = *main_ratio;
                if !(0 < ratio && (ratio as u64) < RATIO_SCALE) {
                    return Err(LayoutError::RatioOutOfRange);
                }
                let n = ids.len() as u32;
                if mwc >= n {
                    if n == 2 && (region.width < 2 || region.height < 2) {
                        return Err(LayoutError::DegenerateMainArea);
                    }
                } else if mwc + 1 == n {
                    let (m, s) = region_widths(region, 2 * ratio as u64, 3 * RATIO_SCALE);
                    let cut = m + s;
                    if !(0 < cut && cut < region.width) {
                        return Err(LayoutError::DegenerateMainArea);
                    }
                    if mwc == 2 && (cut < 2 || region.height < 2) {
                        return Err(LayoutError::DegenerateMainArea);
                    }
                } else {
                    let (m, s) = region_widths(region, ratio as u64, RATIO_SCALE);
                    if s < 1 || m < 1 {
                        return Err(LayoutError::DegenerateMainArea);
                    }
                    if mwc == 2 && (m < 2 || region.height < 2) {
                        return Err(LayoutError::DegenerateMainArea);
                    }
                }
                Ok(do_horizontal_central_main_layout(ids, region, mwc, ratio))
            },
        }
    }
}

/// The central-main policy with the defaults the window manager
/// registers: two main windows and half the width for the main area.
pub fn make_horizontal_central_main_layout() -> (st: LayoutStrategy)
    ensures
        st == (LayoutStrategy::CentralMain { main_window_count: 2, main_ratio: 500 }),
{
    LayoutStrategy::CentralMain { main_window_count: 2, main_ratio: 500 }
}

/// The fair policy.
pub fn make_fair_layout() -> (st: LayoutStrategy)
    ensures
        st == LayoutStrategy::Fair,
{
    LayoutStrategy::Fair
}

} // verus!
