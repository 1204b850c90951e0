use raytracer::noise::{corner_indices, create_permute, PERLIN_POINT_COUNT};

fn identity() -> Vec<usize> {
    (0..PERLIN_POINT_COUNT).collect()
}

#[test]
fn permutation_table_is_in_order() {
    let mut rng = rand::thread_rng();
    let p = create_permute(&mut rng);
    assert_eq!(p, identity());
}

#[test]
fn corners_of_the_origin_cell() {
    let t = identity();
    let c = corner_indices(&t, &t, &t, 0, 0, 0);
    assert_eq!(c, vec![0, 1, 1, 0, 1, 0, 0, 1]);
}

#[test]
fn corners_use_all_three_tables() {
    let px: Vec<usize> = (0..256).map(|k| (k * 7) % 256).collect();
    let py: Vec<usize> = (0..256).map(|k| 255 - k).collect();
    let pz: Vec<usize> = (0..256).map(|k| (k + 100) % 256).collect();
    let c = corner_indices(&px, &py, &pz, 3, 4, 5);
    for di in 0..2usize {
        for dj in 0..2usize {
            for dk in 0..2usize {
                let want = px[3 + di] ^ py[4 + dj] ^ pz[5 + dk];
                assert_eq!(c[4 * di + 2 * dj + dk], want);
            }
        }
    }
}

#[test]
fn negative_coordinates_wrap_around() {
    let px: Vec<usize> = (0..256).map(|k| (k * 3) % 256).collect();
    let t = identity();
    let c = corner_indices(&px, &t, &t, -1, 0, 0);
    assert_eq!(c[0], px[255]);
    assert_eq!(c[4], px[0]);
    assert_eq!(c[7], px[0] ^ 1 ^ 1);
}

#[test]
fn noise_lattice_repeats_every_256_cells() {
    let px: Vec<usize> = (0..256).map(|k| (k * 5 + 3) % 256).collect();
    let py: Vec<usize> = (0..256).map(|k| (k * 11 + 1) % 256).collect();
    let pz: Vec<usize> = (0..256).map(|k| (k * 13 + 7) % 256).collect();
    let a = corner_indices(&px, &py, &pz, 17, -40, 1000);
    let b = corner_indices(&px, &py, &pz, 17 + 256, -40 - 256, 1000 + 512);
    assert_eq!(a, b);
    assert!(a.iter().all(|&v| v < 256));
}
