use im_already_raytracer::{rgba_bytes, Image};

#[test]
fn rgba_layout() {
    assert_eq!(rgba_bytes(&vec![(1, 2, 3), (4, 5, 6)]), vec![1, 2, 3, 255, 4, 5, 6, 255]);
    assert_eq!(rgba_bytes(&vec![]), Vec::<u8>::new());
}

#[test]
fn image_pixels_are_row_major() {
    let img = Image::new((0..6).collect::<Vec<u32>>(), 3, 2);
    assert_eq!(*img.pixel(0, 0), 0);
    assert_eq!(*img.pixel(2, 0), 2);
    assert_eq!(*img.pixel(0, 1), 3);
    assert_eq!(*img.pixel(1, 1), 4);
}
