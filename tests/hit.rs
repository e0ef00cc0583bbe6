use im_already_raytracer::{closest_hit, FAR};

#[test]
fn nearest_of_several() {
    assert_eq!(closest_hit(&vec![None, Some(5), Some(3), Some(9)]), Some(2));
}

#[test]
fn equal_distances_keep_the_first() {
    assert_eq!(closest_hit(&vec![Some(8), Some(3), Some(3), Some(4)]), Some(1));
}

#[test]
fn nothing_hit() {
    assert_eq!(closest_hit(&vec![]), None);
    assert_eq!(closest_hit(&vec![None, None]), None);
}

#[test]
fn far_and_beyond_never_win() {
    let infinity = 0x7f80_0000u32;
    let not_a_number = 0x7fc0_0000u32;
    assert_eq!(closest_hit(&vec![Some(FAR), Some(infinity), Some(not_a_number)]), None);
    assert_eq!(closest_hit(&vec![Some(FAR), Some(FAR - 1)]), Some(1));
}

#[test]
fn float_distance_keys_order_like_distances() {
    let keys: Vec<Option<u32>> = [3.5f32, 0.25, 2.0, 0.25, 100.0]
        .iter()
        .map(|d| Some(d.to_bits()))
        .collect();
    assert_eq!(closest_hit(&keys), Some(1));
    assert_eq!(FAR, f32::MAX.to_bits());
}
