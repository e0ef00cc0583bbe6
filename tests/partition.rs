use im_already_raytracer::{join_parts, split_buffer};

#[test]
fn split_ten_into_three() {
    let parts = split_buffer((0..10).collect::<Vec<u32>>(), 3);
    assert_eq!(parts.len(), 3);
    assert_eq!(parts[0].0, 0..3);
    assert_eq!(parts[1].0, 3..6);
    assert_eq!(parts[2].0, 6..10);
    assert_eq!(parts[0].1, vec![0, 1, 2]);
    assert_eq!(parts[1].1, vec![3, 4, 5]);
    assert_eq!(parts[2].1, vec![6, 7, 8, 9]);
}

#[test]
fn split_into_one_part() {
    let parts = split_buffer(vec![7u8, 8, 9], 1);
    assert_eq!(parts.len(), 1);
    assert_eq!(parts[0].0, 0..3);
    assert_eq!(parts[0].1, vec![7, 8, 9]);
}

#[test]
fn split_fewer_items_than_parts() {
    let parts = split_buffer((0..7).collect::<Vec<u32>>(), 12);
    assert_eq!(parts.len(), 12);
    for p in &parts[..5] {
        assert!(p.1.is_empty());
        assert_eq!(p.0, 0..0);
    }
    for (i, p) in parts[5..].iter().enumerate() {
        assert_eq!(p.0, i..i + 1);
        assert_eq!(p.1, vec![i as u32]);
    }
}

#[test]
fn split_empty_buffer() {
    let parts = split_buffer(Vec::<u8>::new(), 4);
    assert_eq!(parts.len(), 4);
    assert!(parts.iter().all(|p| p.0 == (0..0) && p.1.is_empty()));
}

#[test]
fn join_undoes_split() {
    let buffer: Vec<u32> = (0..1000).map(|i| i * 7 % 13).collect();
    for parts in 1..20 {
        let pieces = split_buffer(buffer.clone(), parts);
        for w in pieces.windows(2) {
            assert_eq!(w[0].0.end, w[1].0.start);
        }
        assert_eq!(join_parts(pieces), buffer);
    }
}
