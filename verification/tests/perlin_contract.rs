use tidebound::{AccountId, ContractError, PerlinNoise};
use tidebound::terrain::compute_perlin_scaled;

#[test]
fn new_precomputes_unit_grid() {
    let p = PerlinNoise::new(AccountId([9u8; 32]), 42, 10);
    for &x in &[u32::MAX, 0, 1] {
        for &y in &[u32::MAX, 0, 1] {
            assert_eq!(p.noise_lookup(x, y), Some(32));
        }
    }
    assert_eq!(p.noise_lookup(2, 0), None);
    assert_eq!(p.noise_lookup(0, 2), None);
    assert_eq!(p.noise_lookup(2147483647, 5), None);
}

#[test]
fn compute_perlin_stores_height() {
    let mut p = PerlinNoise::new(AccountId([9u8; 32]), 42, 10);
    assert_eq!(p.compute_perlin(2147483647, 5), Ok(()));
    assert_eq!(p.noise_lookup(2147483647, 5), Some(340282366920938463463374607430817046720));
    assert_eq!(p.noise_lookup(0, 0), Some(32));
}

#[test]
fn compute_perlin_stores_what_compute_perlin_scaled_gives() {
    let mut p = PerlinNoise::new(AccountId([1u8; 32]), 7, 10);
    let r: Result<(), ContractError> = p.compute_perlin(2147483645, 2147483646);
    assert!(r.is_ok());
    let h = compute_perlin_scaled(2147483645, 2147483646, 7, 10);
    assert_eq!(p.noise_lookup(2147483645, 2147483646), Some(h as u128));
    assert_eq!(h, 139218688);
}

#[test]
fn compute_perlin_twice_is_compute_perlin_once() {
    let mut once = PerlinNoise::new(AccountId([1u8; 32]), 42, 10);
    let mut twice = PerlinNoise::new(AccountId([1u8; 32]), 42, 10);
    once.compute_perlin(2147483647, 5).unwrap();
    twice.compute_perlin(2147483647, 5).unwrap();
    twice.compute_perlin(2147483647, 5).unwrap();
    for &(x, y) in &[(2147483647u32, 5u32), (0, 0), (1, u32::MAX), (3, 3)] {
        assert_eq!(once.noise_lookup(x, y), twice.noise_lookup(x, y));
    }
}

#[test]
fn compute_perlin_keeps_other_points() {
    let mut p = PerlinNoise::new(AccountId([1u8; 32]), 42, 10);
    p.compute_perlin(2147483647, 5).unwrap();
    p.compute_perlin(5, 7).unwrap();
    assert_eq!(p.noise_lookup(2147483647, 5), Some(340282366920938463463374607430817046720));
    assert_eq!(p.noise_lookup(5, 7), Some(32));
}

#[test]
fn contract_error_is_a_value() {
    let e = ContractError::Error;
    assert_eq!(e, ContractError::Error);
}
