use thecat::central_main::{do_horizontal_central_main_layout, region_widths};
use thecat::rect::Rect;
use thecat::strategy::{make_fair_layout, make_horizontal_central_main_layout, LayoutError, LayoutStrategy};

/// Checks that the rectangles exactly partition `region`: each lies
/// inside it, no two overlap, and the areas add up to the region's.
fn assert_actions_partition(actions: &[(u32, Rect)], region: &Rect) {
    let mut area: u64 = 0;
    for (_, r) in actions {
        assert!(r.x >= region.x && r.x + r.width <= region.x + region.width, "{:?}", r);
        assert!(r.y >= region.y && r.y + r.height <= region.y + region.height, "{:?}", r);
        area += r.width as u64 * r.height as u64;
    }
    assert_eq!(area, region.width as u64 * region.height as u64);
    for (i, (_, a)) in actions.iter().enumerate() {
        for (_, b) in actions.iter().skip(i + 1) {
            let apart_x = a.x + a.width <= b.x || b.x + b.width <= a.x;
            let apart_y = a.y + a.height <= b.y || b.y + b.height <= a.y;
            assert!(apart_x || apart_y, "{:?} overlaps {:?}", a, b);
        }
    }
}

#[test]
fn central_main_partitions_region_when_main_is_populated() {
    // with at least one window in the main area, every branch of the
    // policy tiles the region exactly
    let screen = Rect::new(12, 34, 1893, 1041);
    for n in 1..=12u32 {
        for mwc in 1..=n + 2 {
            let ids: Vec<u32> = (0..n).collect();
            let results = do_horizontal_central_main_layout(&ids, &screen, mwc, 667);
            assert_eq!(results.len(), n as usize);
            assert_actions_partition(&results, &screen);
        }
    }
}

#[test]
fn fullscreens_single_client() {
    let screen = Rect::new(0, 0, 1920, 1200);
    let ids = vec![0u32];
    let results = do_horizontal_central_main_layout(&ids, &screen, 1, 667);

    println!("{:?}", results);
    assert_eq!(results.len(), 1);
    assert_eq!(results[0].1, screen);
}

#[test]
fn central_main_single_window_via_strategy() {
    // all-main branch: the one window gets the full region
    let screen = Rect::new(0, 0, 1920, 1200);
    let strategy = LayoutStrategy::CentralMain { main_window_count: 1, main_ratio: 667 };
    let results = strategy.compute(&vec![5u32], &screen).unwrap();
    assert_eq!(results, vec![(5, screen)]);
}

#[test]
fn side_widths_keep_remainder_even() {
    // the main width is lowered until what remains splits evenly in two
    let screen = Rect::new(0, 0, 1920, 1200);
    let (m, s) = region_widths(&screen, 667, 1000);
    assert_eq!((m, s), (1280, 320));
    assert_eq!((screen.width - m) % 2, 0);
    // the two-region arrangement lowers the ratio to two thirds first
    let (m2, s2) = region_widths(&screen, 2 * 667, 3 * 1000);
    assert_eq!((m2, s2), (854, 533));
    assert_eq!((screen.width - m2) % 2, 0);
}

#[test]
fn two_region_main_pair_and_secondary() {
    // main_window_count = 2, ratio 0.667, three windows: the first two
    // share the main area by the pair heuristic (the three-quarter-height
    // cut wins here), the third fills the secondary column
    let screen = Rect::new(0, 0, 1920, 1200);
    let ids = vec![1u32, 2, 3];
    let results = do_horizontal_central_main_layout(&ids, &screen, 2, 667);
    assert_eq!(
        results,
        vec![
            (1, Rect::new(0, 0, 1387, 900)),
            (2, Rect::new(0, 900, 1387, 300)),
            (3, Rect::new(1387, 0, 533, 1200)),
        ]
    );
    // the side widths obey the even-remainder rule
    let (m, s) = region_widths(&screen, 2 * 667, 3 * 1000);
    assert_eq!(m + s, 1387);
    assert_eq!((screen.width - m) % 2, 0);
    assert_eq!(screen.width - (m + s), s);
}

#[test]
fn all_main_pair_prefers_wider_cut_near_four_thirds() {
    // two windows over the whole 1920x1200 region: the two-thirds-width
    // cut leaves its first piece at ratio 1.066, much nearer 4:3 than the
    // 2.133 of the three-quarter-height cut
    let screen = Rect::new(0, 0, 1920, 1200);
    let ids = vec![8u32, 9];
    let results = do_horizontal_central_main_layout(&ids, &screen, 2, 500);
    assert_eq!(
        results,
        vec![(8, Rect::new(0, 0, 1280, 1200)), (9, Rect::new(1280, 0, 640, 1200))]
    );
}

#[test]
fn three_region_orders_left_main_right() {
    // five windows, one in the main area: two land in the left column,
    // one in the center, two in the right column, in that order
    let screen = Rect::new(0, 0, 1920, 1200);
    let ids = vec![10u32, 11, 12, 13, 14];
    let results = do_horizontal_central_main_layout(&ids, &screen, 1, 500);
    assert_eq!(
        results,
        vec![
            (10, Rect::new(0, 0, 480, 600)),
            (11, Rect::new(0, 600, 480, 600)),
            (12, Rect::new(480, 0, 960, 1200)),
            (13, Rect::new(1440, 0, 480, 600)),
            (14, Rect::new(1440, 600, 480, 600)),
        ]
    );
}

#[test]
fn fair_strategy_stacks_two_windows_on_narrow_region() {
    // region 480x1200: two rows of width 480 beat two columns of width
    // 240 against the 16:9 target, so the split is horizontal
    let screen = Rect::new(0, 0, 480, 1200);
    let results = make_fair_layout().compute(&vec![1u32, 2], &screen).unwrap();
    assert_eq!(
        results,
        vec![(1, Rect::new(0, 0, 480, 600)), (2, Rect::new(0, 600, 480, 600))]
    );
}

#[test]
fn empty_region_is_rejected() {
    let strategy = make_fair_layout();
    let flat = Rect::new(0, 0, 1920, 0);
    assert_eq!(strategy.compute(&vec![1u32], &flat), Err(LayoutError::EmptyRegion));
    let narrow = Rect::new(0, 0, 0, 1200);
    assert_eq!(strategy.compute(&vec![1u32], &narrow), Err(LayoutError::EmptyRegion));
}

#[test]
fn ratio_out_of_unit_interval_is_rejected() {
    let screen = Rect::new(0, 0, 1920, 1200);
    let zero = LayoutStrategy::CentralMain { main_window_count: 1, main_ratio: 0 };
    assert_eq!(zero.compute(&vec![1u32, 2, 3], &screen), Err(LayoutError::RatioOutOfRange));
    let whole = LayoutStrategy::CentralMain { main_window_count: 1, main_ratio: 1000 };
    assert_eq!(whole.compute(&vec![1u32, 2, 3], &screen), Err(LayoutError::RatioOutOfRange));
}

#[test]
fn degenerate_main_area_is_rejected() {
    // three windows in a two-pixel-wide region: no side column can get a
    // pixel
    let sliver = Rect::new(0, 0, 2, 100);
    let strategy = LayoutStrategy::CentralMain { main_window_count: 0, main_ratio: 500 };
    assert_eq!(
        strategy.compute(&vec![1u32, 2, 3], &sliver),
        Err(LayoutError::DegenerateMainArea)
    );
    // two-region cut with nothing left for the secondary column
    let narrow = Rect::new(0, 0, 1, 100);
    let two = LayoutStrategy::CentralMain { main_window_count: 1, main_ratio: 900 };
    assert_eq!(two.compute(&vec![1u32, 2], &narrow), Err(LayoutError::DegenerateMainArea));
}

#[test]
fn identical_inputs_give_identical_layouts() {
    // pure computation: byte-identical results on repeated calls
    let screen = Rect::new(0, 0, 1920, 1200);
    let ids = vec![3u32, 1, 4, 1, 5, 9, 2, 6];
    for strategy in [make_fair_layout(), make_horizontal_central_main_layout()] {
        let first = strategy.compute(&ids, &screen).unwrap();
        let second = strategy.compute(&ids, &screen).unwrap();
        assert_eq!(first, second);
    }
}

#[test]
fn default_strategies_carry_documented_parameters() {
    assert_eq!(make_fair_layout(), LayoutStrategy::Fair);
    assert_eq!(
        make_horizontal_central_main_layout(),
        LayoutStrategy::CentralMain { main_window_count: 2, main_ratio: 500 }
    );
}
