//! Aspect-ratio-aware tiling layouts for a window manager.
//!
//! Given a count of windows and a rectangular screen region, the library
//! computes a list of non-overlapping integer-pixel rectangles, one per
//! window, that exactly cover the region.  Two layout policies are offered:
//! a "fair" policy that gives every window approximately equal space while
//! keeping each window close to a 16:9 aspect ratio, and a "central main"
//! policy that reserves a large central column for a few privileged windows
//! and tiles the rest into equally wide side columns.
//!
//! All aspect ratios are handled in per-mille fixed point (a ratio of 16:9
//! is the integer 1777) so that candidate layouts can be scored and compared
//! deterministically with integer arithmetic.

pub mod central_main;
pub mod fair;
pub mod rect;
pub mod strategy;
