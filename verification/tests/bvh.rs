use raytracer::bvh::{axis_from_index, box_corner, random_axis, split_in_half, Axis};

#[test]
fn draws_select_axes() {
    assert_eq!(axis_from_index(0), Axis::X);
    assert_eq!(axis_from_index(1), Axis::Y);
    assert_eq!(axis_from_index(2), Axis::Z);
    assert_eq!(axis_from_index(9), Axis::Z);
}

#[test]
fn random_axis_is_one_of_three() {
    let mut rng = rand::thread_rng();
    let mut seen = [false; 3];
    for _ in 0..200 {
        match random_axis(&mut rng) {
            Axis::X => seen[0] = true,
            Axis::Y => seen[1] = true,
            Axis::Z => seen[2] = true,
        }
    }
    assert!(seen.iter().all(|&s| s));
}

#[test]
fn split_odd_number_of_objects() {
    let (a, b) = split_in_half(vec![1, 2, 3, 4, 5]);
    assert_eq!(a, vec![1, 2]);
    assert_eq!(b, vec![3, 4, 5]);
}

#[test]
fn split_even_number_of_objects() {
    let (a, b) = split_in_half(vec!["a", "b", "c", "d"]);
    assert_eq!(a, vec!["a", "b"]);
    assert_eq!(b, vec!["c", "d"]);
}

#[test]
fn split_small_lists() {
    let (a, b) = split_in_half(Vec::<u8>::new());
    assert!(a.is_empty() && b.is_empty());
    let (a, b) = split_in_half(vec![7u8]);
    assert!(a.is_empty());
    assert_eq!(b, vec![7u8]);
}

#[test]
fn corners_of_a_box() {
    let corners: Vec<(bool, bool, bool)> = (0..8).map(box_corner).collect();
    assert_eq!(
        corners,
        vec![
            (false, false, false),
            (true, false, false),
            (false, true, false),
            (true, true, false),
            (false, false, true),
            (true, false, true),
            (false, true, true),
            (true, true, true),
        ]
    );
    assert_eq!(box_corner(13), (true, false, true));
}
