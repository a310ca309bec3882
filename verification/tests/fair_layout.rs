use thecat::fair::{aspect_ratio_sse, do_fair_layout, layout_region_fairly};
use thecat::rect::{aspect_ratio, Rect};

/// Checks that `layout` exactly partitions `region`: every rectangle lies
/// inside it, no two overlap, and the areas add up to the region's.
fn assert_exact_partition(layout: &[Rect], region: &Rect) {
    let mut area: u64 = 0;
    for r in layout {
        assert!(r.x >= region.x && r.x + r.width <= region.x + region.width, "{:?}", r);
        assert!(r.y >= region.y && r.y + r.height <= region.y + region.height, "{:?}", r);
        area += r.width as u64 * r.height as u64;
    }
    assert_eq!(area, region.width as u64 * region.height as u64);
    for (i, a) in layout.iter().enumerate() {
        for b in layout.iter().skip(i + 1) {
            let apart_x = a.x + a.width <= b.x || b.x + b.width <= a.x;
            let apart_y = a.y + a.height <= b.y || b.y + b.height <= a.y;
            assert!(apart_x || apart_y, "{:?} overlaps {:?}", a, b);
        }
    }
}

#[test]
fn divides_columns_into_rows() {
    let screen = Rect::new(0, 0, 480, 1200);
    let results = layout_region_fairly(&screen, 2);
    println!("{:?}", results);
    assert_eq!(results.len(), 2);
    assert_eq!(results[0], Rect::new(0, 0, 480, 600));
    assert_eq!(results[1], Rect::new(0, 600, 480, 600));
}

#[test]
fn single_window_fills_region() {
    // region 1920x1200, one window: one rectangle, the whole region
    let screen = Rect::new(0, 0, 1920, 1200);
    let results = layout_region_fairly(&screen, 1);
    assert_eq!(results, vec![screen]);
}

#[test]
fn single_window_keeps_aspect_ratio() {
    // the lone window's aspect ratio equals the region's exactly
    let screen = Rect::new(13, 57, 1359, 763);
    let results = layout_region_fairly(&screen, 1);
    assert_eq!(results.len(), 1);
    assert_eq!(aspect_ratio(&results[0]), aspect_ratio(&screen));
}

#[test]
fn no_windows_no_rectangles() {
    let screen = Rect::new(0, 0, 1920, 1200);
    assert_eq!(layout_region_fairly(&screen, 0), vec![]);
}

#[test]
fn three_windows_prefer_columns_on_wide_region() {
    // on 1920x1200 three equal columns are much closer to 16:9 than any
    // row arrangement
    let screen = Rect::new(0, 0, 1920, 1200);
    let results = layout_region_fairly(&screen, 3);
    assert_eq!(
        results,
        vec![
            Rect::new(0, 0, 640, 1200),
            Rect::new(640, 0, 640, 1200),
            Rect::new(1280, 0, 640, 1200),
        ]
    );
}

#[test]
fn fair_layout_partitions_region_for_many_counts() {
    // for all n >= 1: exactly n rectangles covering the region with no
    // gaps and no overlaps
    let screen = Rect::new(0, 0, 1920, 1200);
    for n in 1..=40u32 {
        let results = layout_region_fairly(&screen, n);
        assert_eq!(results.len(), n as usize);
        assert_exact_partition(&results, &screen);
    }
    // an offset, odd-sized region partitions exactly too
    let odd = Rect::new(17, 31, 1237, 829);
    for n in 1..=15u32 {
        let results = layout_region_fairly(&odd, n);
        assert_eq!(results.len(), n as usize);
        assert_exact_partition(&results, &odd);
    }
}

#[test]
fn sse_has_exact_fixed_point_values() {
    // a single 1920x1200 rectangle: ratio 1600, target 1777,
    // error (1777 - 1600)^2
    let v = vec![Rect::new(0, 0, 1920, 1200)];
    assert_eq!(aspect_ratio_sse(&v), 177 * 177);
    // two of them double the sum
    let v2 = vec![Rect::new(0, 0, 1920, 1200), Rect::new(0, 0, 1920, 1200)];
    assert_eq!(aspect_ratio_sse(&v2), 2 * 177 * 177);
    // an empty layout scores zero
    assert_eq!(aspect_ratio_sse(&vec![]), 0);
}

#[test]
fn fair_layout_pairs_windows_in_order() {
    let screen = Rect::new(0, 0, 480, 1200);
    let ids = vec![31u32, 17];
    let actions = do_fair_layout(&ids, &screen);
    assert_eq!(
        actions,
        vec![(31, Rect::new(0, 0, 480, 600)), (17, Rect::new(0, 600, 480, 600))]
    );
}
