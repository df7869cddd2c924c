use tidebound::terrain::{
    compute_perlin_scaled, get_corners, get_gradient_at, get_single_scale_perlin, get_weight,
    gradient_from_digest, single_scale_from_gradients,
};

#[test]
fn weight_of_corner_at_point_is_scale_squared() {
    assert_eq!(get_weight(0, 0, 0, 0, 10), 100);
    assert_eq!(get_weight(0, 0, 0, 0, u32::MAX), 18446744065119617025);
}

#[test]
fn weight_falls_off_with_distance() {
    assert_eq!(get_weight(3, 4, 5, 7, 10), 56);
    assert_eq!(get_weight(5, 7, 3, 4, 10), 56);
}

#[test]
fn weight_is_zero_a_cell_away() {
    assert_eq!(get_weight(20, 0, 5, 0, 10), 0);
    assert_eq!(get_weight(0, 0, 5, 5, 0), 0);
}

#[test]
fn corners_surround_point() {
    assert_eq!(get_corners(15, 7, 10), [[10, 0], [20, 0], [20, 10], [10, 10]]);
}

#[test]
fn corners_with_zero_scale_collapse_to_origin() {
    assert_eq!(get_corners(5, 5, 0), [[0, 0], [0, 0], [0, 0], [0, 0]]);
}

#[test]
fn corners_stop_at_u32_max() {
    assert_eq!(
        get_corners(u32::MAX, 0, 10),
        [[4294967290, 0], [4294967295, 0], [4294967295, 10], [4294967290, 10]]
    );
}

#[test]
fn gradient_from_digest_sums_bytes_mod_16() {
    let mut d = [0u8; 32];
    assert_eq!(gradient_from_digest(&d), [1000, 0]);
    d[0] = 5;
    assert_eq!(gradient_from_digest(&d), [-383, 923]);
    let mut e = [255u8; 32];
    e[31] = 1;
    assert_eq!(gradient_from_digest(&e), [707, 707]);
    assert_eq!(gradient_from_digest(&[255u8; 32]), [1000, 0]);
}

#[test]
fn gradient_at_corner_hashes_coordinates() {
    // SHA3-256 of the little-endian bytes of 1, 2, 3, 4 sums to 11 mod 16.
    assert_eq!(get_gradient_at(1, 2, 3, 4), [-383, -924]);
    assert_eq!(get_gradient_at(1, 2, 3, 4), get_gradient_at(1, 2, 3, 4));
}

#[test]
fn single_scale_from_given_gradients() {
    let g = [[1000, 0], [0, 1000], [-1000, 0], [0, -1000]];
    assert_eq!(single_scale_from_gradients(2147483647, 5, 10, &g), -75161927);
    assert_eq!(single_scale_from_gradients(5, 7, 10, &g), 0);
    let h = [[707, 707], [-1, -1000], [923, -383], [0, 1000]];
    assert_eq!(single_scale_from_gradients(2147483645, 2147483646, 10, &h), 99170794);
}

#[test]
fn single_scale_with_zero_scale_is_zero() {
    let g = [[1000, 0], [0, 1000], [-1000, 0], [0, -1000]];
    assert_eq!(single_scale_from_gradients(7, 9, 0, &g), 0);
    assert_eq!(get_single_scale_perlin(7, 9, 0, 3), 0);
}

#[test]
fn single_scale_noise_near_signed_wrap() {
    assert_eq!(get_single_scale_perlin(2147483647, 5, 10, 42), -53214644);
    assert_eq!(get_single_scale_perlin(2147483645, 2147483646, 10, 7), -6034429);
}

#[test]
fn single_scale_noise_vanishes_in_small_cells() {
    assert_eq!(get_single_scale_perlin(5, 7, 10, 42), 0);
    assert_eq!(get_single_scale_perlin(123, 456, 16, 7), 0);
}

#[test]
fn scaled_height_of_flat_ground_is_32() {
    assert_eq!(compute_perlin_scaled(5, 7, 42, 10), 32);
    assert_eq!(compute_perlin_scaled(7, 9, 1, 0), 32);
}

#[test]
fn scaled_height_near_signed_wrap() {
    assert_eq!(compute_perlin_scaled(2147483647, 5, 42, 10), -951164736);
    assert_eq!(compute_perlin_scaled(2147483645, 2147483646, 7, 10), 139218688);
    assert_eq!(compute_perlin_scaled(2147483647, 2147483647, 1, 4), 5849636416);
}

#[test]
fn scaled_height_is_32_above_a_multiple_of_32() {
    for &(x, y, seed, scale) in &[(2147483647u32, 5u32, 42u32, 10u32), (2147483645, 2147483646, 7, 10), (1, 1, 1, 1)] {
        let h = compute_perlin_scaled(x, y, seed, scale);
        assert_eq!((h - 32) % 32, 0);
    }
}
