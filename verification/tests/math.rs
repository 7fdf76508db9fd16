use raytracer::colour::Colour;
use raytracer::fixed::{fx_div, fx_mul, sqrt_floor, SCALE};
use raytracer::sampler::Sampler;
use raytracer::vec::Vec3;

#[test]
fn fixed_point_products_truncate_toward_zero() {
    assert_eq!(fx_mul(SCALE, SCALE), SCALE);
    assert_eq!(fx_mul(3 * SCALE, 2 * SCALE), 6 * SCALE);
    assert_eq!(fx_mul(SCALE / 2, SCALE / 2), SCALE / 4);
    // Rounding is toward zero, not down: -9 / 65536 gives 0, not -1.
    assert_eq!(fx_mul(-3, 3), 0);
    assert_eq!(fx_mul(-3 * SCALE, SCALE / 2), -3 * SCALE / 2);
    assert_eq!(fx_div(SCALE, 2 * SCALE), SCALE / 2);
    assert_eq!(fx_div(-SCALE, 2 * SCALE), -(SCALE / 2));
}

#[test]
fn sqrt_floor_brackets_the_root() {
    assert_eq!(sqrt_floor(0), 0);
    assert_eq!(sqrt_floor(1), 1);
    assert_eq!(sqrt_floor(3), 1);
    assert_eq!(sqrt_floor(4), 2);
    assert_eq!(sqrt_floor(1 << 32), 1 << 16);
    let x: u128 = 123456789;
    let r = sqrt_floor(x) as u128;
    assert!(r * r <= x && x < (r + 1) * (r + 1));
}

#[test]
fn dot_and_cross_products_are_exact() {
    let a = Vec3::new((2 * SCALE, 3 * SCALE, 4 * SCALE));
    let b = Vec3::new((5 * SCALE, 6 * SCALE, 7 * SCALE));
    // 2*5 + 3*6 + 4*7 = 56
    assert_eq!(a.dot(&b), 56 * SCALE);
    // (2,3,4) x (5,6,7) = (-3, 6, -3)
    let c = a.cross(&b);
    assert_eq!((c.x(), c.y(), c.z()), (-3 * SCALE, 6 * SCALE, -3 * SCALE));
}

#[test]
fn unit_of_nonzero_vector_has_length_one() {
    // A 3-4-5 triangle: unit() is exact up to truncation.
    let v = Vec3::new((3 * SCALE, 4 * SCALE, 0));
    let u = v.unit();
    let len = u.length();
    assert!((len - SCALE).abs() <= 4, "unit length was {len}");
    // And componentwise the exact truncated values: 3/5 and 4/5.
    assert_eq!(u.x(), 3 * SCALE / 5);
    assert_eq!(u.y(), 4 * SCALE / 5);
    assert_eq!(u.z(), 0);
}

#[test]
fn unit_length_holds_for_assorted_vectors() {
    let cases = [
        (SCALE, 0, 0),
        (-7 * SCALE, 2 * SCALE, 9 * SCALE),
        (123456, -654321, 13),
        (100 * SCALE, 100 * SCALE, 100 * SCALE),
    ];
    for (x, y, z) in cases {
        let u = Vec3::new((x, y, z)).unit();
        let len = u.length();
        assert!((len - SCALE).abs() <= 4, "unit length of ({x},{y},{z}) was {len}");
    }
}

#[test]
fn reflect_preserves_incidence_angle() {
    // v = (1, -1, 0) against the upward unit normal reflects to (1, 1, 0).
    let v = Vec3::new((SCALE, -SCALE, 0));
    let n = Vec3::new((0, SCALE, 0));
    let r = v.reflect(&n);
    assert_eq!((r.x(), r.y(), r.z()), (SCALE, SCALE, 0));
    // dot(reflect(v, n), n) == -dot(v, n) exactly here.
    assert_eq!(r.dot(&n), -v.dot(&n));
}

#[test]
fn reflect_incidence_within_tolerance_off_axis() {
    let v = Vec3::new((3 * SCALE / 2, -2 * SCALE, SCALE / 3));
    // A unit-ish normal not on an axis: (1,2,2)/3 scaled.
    let n = Vec3::new((SCALE / 3, 2 * SCALE / 3, 2 * SCALE / 3));
    let r = v.reflect(&n);
    let lhs = r.dot(&n) + v.dot(&n);
    // |n| deviates from one by under 1/3 of a fixed-point step squared;
    // the defect stays within a few steps.
    assert!(lhs.abs() <= 16, "incidence defect was {lhs}");
}

#[test]
fn sampler_is_seed_deterministic() {
    let mut a = Sampler::new(42);
    let mut b = Sampler::new(42);
    for _ in 0..100 {
        assert_eq!(a.next_u64(), b.next_u64());
    }
    let mut c = Sampler::new(43);
    let first: Vec<u64> = (0..8)
        .map(|_| {
            let mut fresh = Sampler::new(42);
            fresh.next_u64()
        })
        .collect();
    assert!(first.iter().all(|&x| x == first[0]));
    let mut d = Sampler::new(42);
    assert_ne!(d.next_u64(), c.next_u64());
}

#[test]
fn zero_seed_falls_back_to_a_nonzero_state() {
    let mut s = Sampler::new(0);
    assert_ne!(s.next_u64(), 0);
}

#[test]
fn random_unit_vectors_stay_near_unit_length() {
    let mut s = Sampler::new(7);
    for _ in 0..50 {
        let u = Vec3::random_unit_vector(&mut s);
        let len = u.length();
        assert!(
            (len - SCALE).abs() <= SCALE / 100,
            "random unit vector length was {len}"
        );
    }
}

#[test]
fn random_on_hemisphere_faces_the_normal() {
    let n = Vec3::new((0, SCALE, 0));
    let mut s = Sampler::new(11);
    for _ in 0..50 {
        let v = Vec3::random_on_hemisphere(&mut s, &n);
        assert!(v.dot(&n) >= 0);
    }
}

#[test]
fn colour_arithmetic_matches_the_fixed_point_model() {
    let c = Colour::new(SCALE / 2, SCALE / 4, SCALE);
    let tinted = c.mul(Colour::new(SCALE / 2, SCALE, SCALE / 4));
    assert_eq!(
        (tinted.r(), tinted.g(), tinted.b()),
        (SCALE / 4, SCALE / 4, SCALE / 4)
    );
    let dimmed = c.mul_fx(SCALE / 2);
    assert_eq!(
        (dimmed.r(), dimmed.g(), dimmed.b()),
        (SCALE / 4, SCALE / 8, SCALE / 2)
    );
    let sum = c.add(c).div_n(2);
    assert_eq!((sum.r(), sum.g(), sum.b()), (c.r(), c.g(), c.b()));
    let d = Colour::default();
    assert_eq!((d.r(), d.g(), d.b()), (0, 0, 0));
}
