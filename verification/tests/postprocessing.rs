use raytracer::postprocessing::{Proximity, ProximityType};

#[test]
fn square_window_in_the_middle() {
    let p = Proximity::new(1, ProximityType::Square);
    assert_eq!(p.get_pixels(1, 1, 3, 3), vec![(0, 0), (0, 1), (1, 0), (1, 1)]);
}

#[test]
fn square_window_is_clipped_at_the_top_left_corner() {
    let p = Proximity::new(1, ProximityType::Square);
    assert_eq!(p.get_pixels(0, 0, 3, 3), vec![(0, 0)]);
}

#[test]
fn square_window_at_the_last_pixel_leaves_out_the_centre() {
    let p = Proximity::new(1, ProximityType::Square);
    assert_eq!(p.get_pixels(2, 2, 3, 3), vec![(1, 1)]);
}

#[test]
fn square_window_column_by_column() {
    let p = Proximity::new(2, ProximityType::Square);
    let px = p.get_pixels(5, 5, 10, 8);
    assert_eq!(px.len(), 16);
    for (k, &(a, b)) in px.iter().enumerate() {
        assert_eq!(a, 3 + (k as u32) / 4);
        assert_eq!(b, 3 + (k as u32) % 4);
    }
}

#[test]
fn edges_keeps_a_diamond() {
    let p = Proximity::new(2, ProximityType::Edges);
    assert_eq!(p.get_pixels(2, 2, 5, 5), vec![(1, 2), (2, 1), (2, 2), (2, 3), (3, 2)]);
}

#[test]
fn edges_of_radius_one_keep_only_the_centre() {
    let p = Proximity::new(1, ProximityType::Edges);
    assert_eq!(p.get_pixels(1, 1, 3, 3), vec![(1, 1)]);
}

#[test]
fn radius_zero_gives_no_pixel() {
    let p = Proximity::new(0, ProximityType::Square);
    assert!(p.get_pixels(4, 4, 9, 9).is_empty());
    let q = Proximity::new(0, ProximityType::Edges);
    assert!(q.get_pixels(4, 4, 9, 9).is_empty());
}

#[test]
fn edges_lie_within_square() {
    let e = Proximity::new(3, ProximityType::Edges);
    let s = Proximity::new(3, ProximityType::Square);
    let pe = e.get_pixels(4, 1, 7, 6);
    let ps = s.get_pixels(4, 1, 7, 6);
    assert!(pe.len() < ps.len());
    for px in pe {
        assert!(ps.contains(&px));
    }
}

#[test]
fn pixels_stay_inside_image_and_are_distinct() {
    let p = Proximity::new(10, ProximityType::Square);
    let px = p.get_pixels(3, 2, 6, 4);
    for &(a, b) in &px {
        assert!(a < 6 && b < 4);
    }
    for i in 0..px.len() {
        for j in 0..i {
            assert_ne!(px[i], px[j]);
        }
    }
    assert_eq!(px.len(), 5 * 3);
}

#[test]
fn window_at_the_right_edge_of_a_one_pixel_wide_image() {
    let p = Proximity::new(4, ProximityType::Square);
    assert!(p.get_pixels(0, 3, 1, 10).is_empty());
}
