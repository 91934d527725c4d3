use kerbin::layout::{
    fixed, flexible, percent, range, resolve_constraints, Constraint, Layout, LayoutError, Rect,
};

/// A percentage constraint from a percentage given as a float.
fn pct(value: f32) -> Constraint {
    percent((value * 100.0).round() as u32)
}

#[test]
fn test_percent_plus_fixed_heights() {
    let layout_result = Layout::new()
        .row(pct(100.0), vec![pct(100.0)])
        .row(fixed(5), vec![pct(100.0)])
        .calculate(100, 100)
        .unwrap();
    assert_eq!(
        layout_result,
        vec![vec![Rect::new(0, 0, 100, 95)], vec![Rect::new(0, 95, 100, 5)]]
    );
}

#[test]
fn test_even_flexible_split() {
    let layout_result = Layout::new()
        .row(flexible(), vec![flexible(), flexible()])
        .row(flexible(), vec![flexible(), flexible()])
        .calculate(100, 100)
        .unwrap();
    assert_eq!(
        layout_result,
        vec![
            vec![Rect::new(0, 0, 50, 50), Rect::new(50, 0, 50, 50)],
            vec![Rect::new(0, 50, 50, 50), Rect::new(50, 50, 50, 50)]
        ]
    );
}

#[test]
fn test_mixed_height_fixed_width() {
    let layout_result = Layout::new()
        .row(pct(50.0), vec![fixed(25), fixed(25), flexible()])
        .row(flexible(), vec![fixed(25), fixed(25), flexible()])
        .calculate(100, 100)
        .unwrap();
    assert_eq!(
        layout_result,
        vec![
            vec![Rect::new(0, 0, 25, 50), Rect::new(25, 0, 25, 50), Rect::new(50, 0, 50, 50)],
            vec![Rect::new(0, 50, 25, 50), Rect::new(25, 50, 25, 50), Rect::new(50, 50, 50, 50)]
        ]
    );
}

#[test]
fn test_insufficient_space_fixed_width() {
    let layout_result = Layout::new().row(fixed(10), vec![fixed(60), fixed(60)]).calculate(100, 100);
    assert_eq!(layout_result, Err(LayoutError::InsufficientSpace));
}

#[test]
fn test_invalid_percentage_height() {
    let layout_result = Layout::new()
        .row(pct(60.0), vec![pct(100.0)])
        .row(pct(50.0), vec![pct(100.0)])
        .calculate(100, 100);
    assert_eq!(layout_result, Err(LayoutError::InvalidPercentages));
}

#[test]
fn test_complex_single_dimension_mix() {
    let sizes = resolve_constraints(&[fixed(50), pct(25.0), flexible()], 200).unwrap();
    assert_eq!(sizes, vec![50, 50, 100]);
}

#[test]
fn test_all_fixed_exact_fit() {
    let sizes = resolve_constraints(&[fixed(20), fixed(30), fixed(50)], 100).unwrap();
    assert_eq!(sizes, vec![20, 30, 50]);
}

#[test]
fn test_empty_constraints() {
    let sizes = resolve_constraints(&[], 100).unwrap();
    assert_eq!(sizes, Vec::<u16>::new());
}

#[test]
fn test_multiple_flex_with_min_max() {
    let sizes = resolve_constraints(&[range(20, 30), range(10, 70)], 100).unwrap();
    assert_eq!(sizes, vec![30, 70]);
}

#[test]
fn test_range_exceeds_available_min() {
    let sizes = resolve_constraints(&[range(50, 100)], 30);
    assert_eq!(sizes, Err(LayoutError::InsufficientSpace));
}

#[test]
fn test_positions_single_row() {
    let layout_result = Layout::new()
        .row(flexible(), vec![fixed(50), fixed(75), flexible()])
        .calculate(200, 50)
        .unwrap();
    assert_eq!(
        layout_result,
        vec![vec![Rect::new(0, 0, 50, 50), Rect::new(50, 0, 75, 50), Rect::new(125, 0, 75, 50)]]
    );
}

#[test]
fn test_positions_multiple_rows() {
    let layout_result = Layout::new()
        .row(fixed(30), vec![flexible()])
        .row(fixed(20), vec![flexible()])
        .row(flexible(), vec![flexible()])
        .calculate(100, 100)
        .unwrap();
    assert_eq!(
        layout_result,
        vec![
            vec![Rect::new(0, 0, 100, 30)],
            vec![Rect::new(0, 30, 100, 20)],
            vec![Rect::new(0, 50, 100, 50)]
        ]
    );
}

// Uneven leftover space: the first flexible constraint gets the extra unit.
#[test]
fn uneven_flexible_split() {
    let sizes = resolve_constraints(&[flexible(), flexible()], 101).unwrap();
    assert_eq!(sizes, vec![51, 50]);
}

// A percentage rounds half up: 33.33% of 100 is 33.
#[test]
fn percentage_rounding() {
    let sizes = resolve_constraints(&[pct(33.33), flexible()], 100).unwrap();
    assert_eq!(sizes, vec![33, 67]);
    let sizes = resolve_constraints(&[pct(50.0)], 3).unwrap();
    assert_eq!(sizes, vec![2]);
}

// A percentage above 100% is refused.
#[test]
fn percentage_out_of_range() {
    assert_eq!(resolve_constraints(&[pct(100.5)], 10), Err(LayoutError::InvalidPercentages));
}

// With a flexible constraint the sizes fill the space exactly.
#[test]
fn flexible_fills_space() {
    for avail in [0u16, 1, 7, 99, 1000] {
        let sizes = resolve_constraints(&[range(3, 5), flexible(), fixed(0)], avail);
        if let Ok(s) = sizes {
            assert_eq!(s.iter().map(|&x| x as u32).sum::<u32>(), avail as u32);
        }
    }
}

// Ranges stop at their maximum when no flexible constraint takes the rest.
#[test]
fn ranges_stop_at_max() {
    let sizes = resolve_constraints(&[range(1, 10), range(2, 20)], 100).unwrap();
    assert_eq!(sizes, vec![10, 20]);
}

#[test]
fn empty_row_spans_width() {
    let r = Layout::new().empty_row(fixed(3)).calculate(40, 10).unwrap();
    assert_eq!(r, vec![vec![Rect::new(0, 0, 40, 3)]]);
}

#[test]
fn row_width_error_after_heights() {
    let r = Layout::new().row(fixed(1), vec![range(5, 6)]).calculate(4, 10);
    assert_eq!(r, Err(LayoutError::InsufficientSpace));
}
