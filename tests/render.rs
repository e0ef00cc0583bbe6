use im_already_raytracer::{
    render_image, render_part, render_tiles, supersample_coords, supersample_size, ConfigError,
    RenderOptions,
};

fn options(width: usize, height: usize, multisampling: usize) -> RenderOptions {
    RenderOptions {
        multisampling,
        width,
        height,
        max_ray_depth: 4,
        soft_shadow_resolution: 1,
        use_randomness: false,
        clamp_colors: false,
    }
}

#[test]
fn supersample_grid_size() {
    assert_eq!(supersample_size(&options(3, 2, 2)), (6, 4));
    assert_eq!(supersample_size(&options(640, 480, 1)), (640, 480));
}

#[test]
fn supersample_block_of_a_pixel() {
    assert_eq!(supersample_coords(&options(3, 2, 2), 4), vec![(2, 2), (3, 2), (2, 3), (3, 3)]);
    assert_eq!(supersample_coords(&options(3, 2, 1), 5), vec![(2, 1)]);
}

#[test]
fn supersample_blocks_tile_the_grid() {
    let o = options(5, 3, 4);
    let mut seen = vec![false; 20 * 12];
    for p in 0..15 {
        let block = supersample_coords(&o, p);
        assert_eq!(block.len(), 16);
        for (x, y) in block {
            assert!(!seen[y * 20 + x]);
            seen[y * 20 + x] = true;
        }
    }
    assert!(seen.iter().all(|&s| s));
}

#[test]
fn single_sample_per_pixel_is_the_pixel_itself() {
    let o = options(4, 3, 1);
    for p in 0..12 {
        assert_eq!(supersample_coords(&o, p), vec![(p % 4, p / 4)]);
    }
}

#[test]
fn part_fills_its_range() {
    let mut out = vec![0usize; 4];
    render_part(3..7, &mut out, &|i| i * 10);
    assert_eq!(out, vec![30, 40, 50, 60]);
}

#[test]
fn worker_count_does_not_change_the_image() {
    let shade = |i: usize| (i * 2654435761) % 1009;
    let one = render_tiles(vec![0usize; 97], 1, &shade);
    for parts in [2, 3, 12, 97, 200] {
        assert_eq!(render_tiles(vec![0usize; 97], parts, &shade), one);
    }
    assert_eq!(one[5], (5 * 2654435761) % 1009);
}

#[test]
fn repeated_renders_are_identical() {
    let shade = |i: usize| (i % 7, i / 7);
    let a = render_image(&options(7, 5, 2), 12, (0, 0), &shade).unwrap();
    let b = render_image(&options(7, 5, 2), 12, (0, 0), &shade).unwrap();
    assert_eq!(a.data, b.data);
    assert_eq!(a.width, 7);
    assert_eq!(a.height, 5);
    assert_eq!(a.data.len(), 35);
    assert_eq!(*a.pixel(3, 2), (3, 2));
}

#[test]
fn render_refuses_bad_options() {
    let shade = |i: usize| i;
    assert_eq!(render_image(&options(1, 5, 1), 4, 0, &shade).err(), Some(ConfigError::WidthTooSmall));
    assert_eq!(render_image(&options(5, 1, 1), 4, 0, &shade).err(), Some(ConfigError::HeightTooSmall));
    assert_eq!(render_image(&options(5, 5, 0), 4, 0, &shade).err(), Some(ConfigError::NoMultisampling));
}
