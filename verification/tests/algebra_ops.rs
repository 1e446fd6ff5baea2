use tracer::algebra::Vec3;

const S: i64 = 65536;

#[test]
fn near_zero_true_for_zero_vector() {
    assert!(Vec3::new(0, 0, 0).near_zero());
}

#[test]
fn near_zero_false_for_any_nonzero_component() {
    assert!(!Vec3::new(1, 0, 0).near_zero());
    assert!(!Vec3::new(0, -1, 0).near_zero());
    assert!(!Vec3::new(0, 0, S).near_zero());
}

#[test]
fn reflect_matches_formula() {
    let v = Vec3::new(S, -S, 0);
    let n = Vec3::new(0, S, 0);
    let r = v.reflect(n);
    assert_eq!(r, Vec3::new(S, S, 0));
}

#[test]
fn reflect_twice_returns_original() {
    let v = Vec3::new(S, 2 * S, 3 * S);
    let n = Vec3::new(0, 0, S);
    let once = v.reflect(n);
    assert_eq!(once, Vec3::new(S, 2 * S, -3 * S));
    let twice = once.reflect(n);
    assert_eq!(twice, v);

    let n2 = Vec3::new(S, 0, 0);
    let w = Vec3::new(-4 * S, 5 * S, -6 * S);
    assert_eq!(w.reflect(n2).reflect(n2), w);
}

#[test]
fn dot_and_square_length() {
    let v = Vec3::new(3 * S, 4 * S, 0);
    assert_eq!(v.dot(v), 25 * S);
    assert_eq!(v.square_length(), 25 * S);
    assert_eq!(v.length(), 5 * S);
}

#[test]
fn normalize_three_four_five() {
    let v = Vec3::new(3 * S, 4 * S, 0);
    let u = v.normalize();
    // 3/5 and 4/5 of the unit, truncated on the fixed-point grid.
    assert_eq!(u, Vec3::new(39321, 52428, 0));
}

#[test]
fn refract_straight_through() {
    let v = Vec3::new(0, 0, -S);
    let n = Vec3::new(0, 0, S);
    let r = v.refract(n, S);
    assert_eq!(r, Vec3::new(0, 0, -S));
}

#[test]
fn random_components_in_unit_interval() {
    for _ in 0..32 {
        let v = Vec3::random();
        assert!(0 <= v.x && v.x < S);
        assert!(0 <= v.y && v.y < S);
        assert!(0 <= v.z && v.z < S);
    }
}

#[test]
fn random_in_range_respects_bounds() {
    for _ in 0..32 {
        let v = Vec3::random_in_range(-3 * S, 2 * S);
        assert!(-3 * S <= v.x && v.x < 2 * S);
        assert!(-3 * S <= v.y && v.y < 2 * S);
        assert!(-3 * S <= v.z && v.z < 2 * S);
    }
}

#[test]
fn random_in_unit_sphere_is_bounded_and_near_unit() {
    for _ in 0..32 {
        let v = Vec3::random_in_unit_sphere();
        assert!(v.x.abs() <= 2 * S);
        assert!(v.y.abs() <= 2 * S);
        assert!(v.z.abs() <= 2 * S);
        assert!(!v.near_zero());
    }
}

#[test]
fn vector_arithmetic() {
    let a = Vec3::new(S, 2 * S, -S);
    let b = Vec3::new(3 * S, -S, 4 * S);
    assert_eq!(a.add(b), Vec3::new(4 * S, S, 3 * S));
    assert_eq!(a.sub(b), Vec3::new(-2 * S, 3 * S, -5 * S));
    assert_eq!(a.neg(), Vec3::new(-S, -2 * S, S));
    assert_eq!(a.scale(2 * S), Vec3::new(2 * S, 4 * S, -2 * S));
}
