use im_already_raytracer::{is_lit, shadow_factor, shadow_grid, ShadowFactor, ShadowSample, Side};

fn sample(blocker: Option<usize>, side: Side) -> ShadowSample {
    ShadowSample { blocker, side }
}

#[test]
fn grid_of_resolution_one() {
    let grid = shadow_grid(1);
    assert_eq!(
        grid,
        vec![(-1, -1), (-1, 0), (-1, 1), (0, -1), (0, 0), (0, 1), (1, -1), (1, 0), (1, 1)]
    );
}

#[test]
fn grid_of_resolution_zero_is_one_ray() {
    assert_eq!(shadow_grid(0), vec![(0, 0)]);
}

#[test]
fn grid_size_is_odd_square() {
    for k in 0..6usize {
        let grid = shadow_grid(k);
        assert_eq!(grid.len(), (2 * k + 1) * (2 * k + 1));
        assert_eq!(grid[0], (-(k as i64), -(k as i64)));
        assert_eq!(grid[grid.len() - 1], (k as i64, k as i64));
    }
}

#[test]
fn lit_needs_free_path_and_same_side() {
    assert!(is_lit(&sample(None, Side::Positive), 2, Side::Positive));
    assert!(is_lit(&sample(Some(2), Side::Negative), 2, Side::Negative));
    assert!(!is_lit(&sample(Some(3), Side::Positive), 2, Side::Positive));
    assert!(!is_lit(&sample(None, Side::Negative), 2, Side::Positive));
    assert!(!is_lit(&sample(None, Side::Undefined), 2, Side::Undefined));
}

#[test]
fn factor_counts_lit_samples() {
    let samples = vec![
        sample(None, Side::Positive),
        sample(Some(2), Side::Positive),
        sample(Some(3), Side::Positive),
        sample(None, Side::Negative),
        sample(None, Side::Undefined),
    ];
    assert_eq!(shadow_factor(&samples, 2, Side::Positive), ShadowFactor { lit: 2, total: 5 });
    assert_eq!(shadow_factor(&samples, 2, Side::Undefined), ShadowFactor { lit: 0, total: 5 });
}

#[test]
fn no_samples_means_unshadowed() {
    assert_eq!(shadow_factor(&vec![], 0, Side::Positive), ShadowFactor { lit: 1, total: 1 });
}
