use raytracer::materials::{Lambertian, Mirror};
use raytracer::texture::texel_index;
use raytracer::write_img::pack_rows;

#[test]
fn rows_are_packed_row_major() {
    let rows = vec![
        vec![[1u8, 2, 3], [4, 5, 6]],
        vec![[7u8, 8, 9], [10, 11, 12]],
        vec![[13u8, 14, 15], [16, 17, 18]],
    ];
    let (w, h, buf) = pack_rows(&rows);
    assert_eq!((w, h), (2, 3));
    assert_eq!(buf, (1..=18).collect::<Vec<u8>>());
}

#[test]
fn pixels_beyond_the_first_row_width_are_left_out() {
    let rows = vec![vec![[0u8, 0, 0]], vec![[1u8, 1, 1], [9, 9, 9]]];
    let (w, h, buf) = pack_rows(&rows);
    assert_eq!((w, h), (1, 2));
    assert_eq!(buf, vec![0, 0, 0, 1, 1, 1]);
}

#[test]
fn texel_positions() {
    assert_eq!(texel_index(4, 2, 3), 11);
    assert_eq!(texel_index(4, 0, 0), 0);
    assert_eq!(texel_index(1, 5, 0), 5);
}

#[test]
fn parameterless_materials() {
    let _l = Lambertian {};
    let _m = Mirror {};
}
