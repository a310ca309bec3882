use thecat::rect::{aspect_ratio, split_at_height, split_at_width, split_into_columns, split_into_rows, Rect};

#[test]
fn aspect_ratio_is_per_mille() {
    // 1920 / 1200 = 1.6 exactly
    assert_eq!(aspect_ratio(&Rect::new(0, 0, 1920, 1200)), 1600);
    // 16:9 rounds down to 1777
    assert_eq!(aspect_ratio(&Rect::new(0, 0, 1600, 900)), 1777);
    // a square is 1.0
    assert_eq!(aspect_ratio(&Rect::new(5, 9, 300, 300)), 1000);
}

#[test]
fn splits_region_into_columns() {
    let r = Rect::new(10, 20, 100, 50);
    let cols = split_into_columns(&r, 3);
    assert_eq!(cols.len(), 3);
    assert_eq!(cols[0], Rect::new(10, 20, 33, 50));
    assert_eq!(cols[1], Rect::new(43, 20, 33, 50));
    // the last column absorbs the remainder
    assert_eq!(cols[2], Rect::new(76, 20, 34, 50));
}

#[test]
fn splits_region_into_rows() {
    let r = Rect::new(10, 20, 100, 50);
    let rows = split_into_rows(&r, 4);
    assert_eq!(rows.len(), 4);
    assert_eq!(rows[0], Rect::new(10, 20, 100, 12));
    assert_eq!(rows[1], Rect::new(10, 32, 100, 12));
    assert_eq!(rows[2], Rect::new(10, 44, 100, 12));
    assert_eq!(rows[3], Rect::new(10, 56, 100, 14));
}

#[test]
fn split_into_one_part_is_whole_region() {
    let r = Rect::new(7, 3, 641, 483);
    assert_eq!(split_into_columns(&r, 1), vec![r]);
    assert_eq!(split_into_rows(&r, 1), vec![r]);
}

#[test]
fn split_counts_and_sums_hold_for_many_counts() {
    // for all count > 0: exactly `count` parts, dimensions sum to the
    // source's, each part at least one pixel when the source is wide
    // enough, and the other dimension shared with the source
    let r = Rect::new(3, 4, 157, 89);
    for count in 1..=157u32 {
        let cols = split_into_columns(&r, count);
        assert_eq!(cols.len(), count as usize);
        let total: u32 = cols.iter().map(|c| c.width).sum();
        assert_eq!(total, r.width);
        for c in &cols {
            assert!(c.width >= 1);
            assert_eq!(c.y, r.y);
            assert_eq!(c.height, r.height);
        }
    }
    for count in 1..=89u32 {
        let rows = split_into_rows(&r, count);
        assert_eq!(rows.len(), count as usize);
        let total: u32 = rows.iter().map(|c| c.height).sum();
        assert_eq!(total, r.height);
        for c in &rows {
            assert!(c.height >= 1);
            assert_eq!(c.x, r.x);
            assert_eq!(c.width, r.width);
        }
    }
}

#[test]
fn split_with_more_parts_than_pixels_still_covers() {
    // 5 columns out of 3 pixels: the first columns are empty, the last
    // absorbs everything, and the widths still sum to the source's
    let r = Rect::new(0, 0, 3, 10);
    let cols = split_into_columns(&r, 5);
    assert_eq!(cols.len(), 5);
    let total: u32 = cols.iter().map(|c| c.width).sum();
    assert_eq!(total, 3);
    assert_eq!(cols[4], Rect::new(0, 0, 3, 10));
}

#[test]
fn splits_at_exact_offsets() {
    let r = Rect::new(0, 0, 1920, 1200);
    let (left, right) = split_at_width(&r, 700);
    assert_eq!(left, Rect::new(0, 0, 700, 1200));
    assert_eq!(right, Rect::new(700, 0, 1220, 1200));
    let (top, bottom) = split_at_height(&r, 900);
    assert_eq!(top, Rect::new(0, 0, 1920, 900));
    assert_eq!(bottom, Rect::new(0, 900, 1920, 300));
}
