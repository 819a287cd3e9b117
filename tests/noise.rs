use rand::rngs::StdRng;
use rand::SeedableRng;
use terrain_gen::grid::GenError;
use terrain_gen::noise::{interpolate, perlin_noise, smooth_noise, white_noise, UNIT};

fn field(w: usize, h: usize, v: u32) -> Vec<Vec<u32>> {
    vec![vec![v; h]; w]
}

#[test]
fn interpolate_endpoints() {
    assert_eq!(interpolate(123, 456_789, 0), 123);
    assert_eq!(interpolate(123, 456_789, UNIT), 456_789);
    assert_eq!(interpolate(UNIT, 0, 0), UNIT);
    assert_eq!(interpolate(UNIT, 0, UNIT), 0);
}

#[test]
fn interpolate_midpoint_and_quarter() {
    assert_eq!(interpolate(0, 1000, UNIT / 2), 500);
    assert_eq!(interpolate(1000, 0, UNIT / 4), 750);
    assert_eq!(interpolate(10, 20, UNIT / 2), 15);
}

#[test]
fn smooth_octave_zero_is_identity() {
    let base = vec![vec![1, 2, 3], vec![4, 5, 6]];
    assert_eq!(smooth_noise(&base, 0), base);
}

#[test]
fn smooth_octave_one_blends_between_samples() {
    // Samples every second cell, wrapping around a 4 by 1 field.
    let base = vec![vec![0], vec![100], vec![200], vec![300]];
    let s = smooth_noise(&base, 1);
    assert_eq!(s, vec![vec![0], vec![100], vec![200], vec![100]]);
}

#[test]
fn smooth_period_beyond_size_uses_origin() {
    let base = vec![vec![400, 0], vec![0, 0]];
    let s = smooth_noise(&base, 3);
    // period 8: every coordinate samples (0, 0) and (8 % 2, 8 % 2) = (0, 0).
    assert_eq!(s, vec![vec![400, 400], vec![400, 400]]);
}

#[test]
fn perlin_of_zero_noise_is_zero() {
    let base = field(4, 4, 0);
    let p = perlin_noise(&base, 1).unwrap();
    assert_eq!(p, field(4, 4, 0));
}

#[test]
fn perlin_of_constant_noise_is_that_constant() {
    let base = field(5, 3, 1234);
    let p = perlin_noise(&base, 8).unwrap();
    assert_eq!(p, field(5, 3, 1234));
}

#[test]
fn perlin_single_octave_is_the_smoothed_field() {
    let base = vec![vec![0, 9], vec![90, 900]];
    let p = perlin_noise(&base, 1).unwrap();
    assert_eq!(p, base);
}

#[test]
fn perlin_weights_coarse_octaves_more() {
    // Octave 1 (weight 0.7) gives 0 everywhere but at sample points, octave 0
    // (weight 0.49) gives the base itself.
    let base = vec![vec![0], vec![1_000_000], vec![0], vec![0]];
    let p = perlin_noise(&base, 2).unwrap();
    // cell 1: octave 1 blends 0 and 0 -> 0, octave 0 -> 1e6:
    // (0 * 700000 + 1e6 * 490000) / 1190000 = 411764
    assert_eq!(p[1][0], 411_764);
    assert_eq!(p[0][0], 0);
}

#[test]
fn perlin_rejects_zero_octaves() {
    let base = field(3, 3, 7);
    assert_eq!(perlin_noise(&base, 0), Err(GenError::InvalidParameter));
}

#[test]
fn white_noise_shape_and_range() {
    let mut rng = StdRng::seed_from_u64(11);
    let n = white_noise(6, 9, &mut rng);
    assert_eq!(n.len(), 6);
    for col in &n {
        assert_eq!(col.len(), 9);
        for &v in col {
            assert!(v < UNIT);
        }
    }
    let first = n[0][0];
    assert!(n.iter().flatten().any(|&v| v != first));
}

#[test]
fn white_noise_is_reproducible_with_a_seed() {
    let mut a = StdRng::seed_from_u64(3);
    let mut b = StdRng::seed_from_u64(3);
    assert_eq!(white_noise(4, 4, &mut a), white_noise(4, 4, &mut b));
}

#[test]
fn perlin_of_white_noise_stays_in_unit_range() {
    let mut rng = StdRng::seed_from_u64(17);
    let base = white_noise(12, 7, &mut rng);
    let p = perlin_noise(&base, 8).unwrap();
    assert_eq!(p.len(), 12);
    for col in &p {
        assert_eq!(col.len(), 7);
        for &v in col {
            assert!(v < UNIT);
        }
    }
}
