use rand::SeedableRng;
use raytrace::fx::Fx;
use raytrace::vec3::{unit_vector, Vec3};

fn v(x: i64, y: i64, z: i64) -> Vec3 {
    Vec3::from_ints(x, y, z)
}

#[test]
fn test_add_vecs() {
    let a = v(1, 2, 3);
    let b = v(4, 5, 6);
    let c = v(5, 7, 9);
    assert_eq!(a + b, c);
}

#[test]
fn test_mult_vecs() {
    let a = v(1, 2, 3);
    let b = v(4, 5, 6);
    let c = v(4, 10, 18);
    assert_eq!(a * b, c);
}

#[test]
fn test_div_vec_scalar() {
    let a = v(1, 2, 3);
    let b = Fx::from_int(5);
    // 1/5, 2/5 and 3/5 in fixed point, rounded toward zero
    let c = Vec3::from_mantissas(13107, 26214, 39321);
    assert_eq!(a / b, c);
}

#[test]
fn test_mult_vec_scalar() {
    let a = v(1, 2, 3);
    let b = Fx::from_int(5);
    let c = v(5, 10, 15);
    assert_eq!(a * b, c);
}

#[test]
fn test_dot() {
    let a = v(1, 2, 3);
    let b = v(4, 5, 6);
    let c = Fx::from_int(4 + 10 + 18);
    assert_eq!(a.dot(b), c);
}

#[test]
fn test_cross() {
    let a = v(1, 2, 3);
    let b = v(4, 5, 6);
    let c = v(-3, 6, -3);
    assert_eq!(a.cross(b), c);
}

#[test]
fn dot_is_symmetric() {
    let a = v(3, -7, 2);
    let b = v(-5, 11, 13);
    assert_eq!(a.dot(b), b.dot(a));
}

#[test]
fn cross_is_antisymmetric() {
    let a = v(3, -7, 2);
    let b = v(-5, 11, 13);
    assert_eq!(a.cross(b), -(b.cross(a)));
}

#[test]
fn unit_vector_has_unit_length() {
    // |unit(a)| stays within a few mantissa steps of one (65536)
    let samples = [v(1, 2, 3), v(-4, 5, -6), v(100, 0, 0), v(7, -7, 7)];
    for a in samples {
        let u = unit_vector(a);
        let l = u.len();
        assert!(65531 <= l.m && l.m <= 65537, "length {} out of range", l.m);
    }
}

#[test]
fn negation_and_subtraction() {
    let a = v(1, 2, 3);
    let b = v(4, 5, 6);
    assert_eq!(b - a, v(3, 3, 3));
    assert_eq!(-a, v(-1, -2, -3));
}

#[test]
fn scalar_on_the_left() {
    let a = v(1, 2, 3);
    assert_eq!(Fx::from_int(2) * a, v(2, 4, 6));
}

#[test]
fn len_sqred_and_len() {
    let a = v(3, 4, 0);
    assert_eq!(a.len_sqred(), Fx::from_int(25));
    assert_eq!(a.len(), Fx::from_int(5));
}

#[test]
fn reflect_mirrors_about_the_normal() {
    // a ray going down reflects up off a floor with normal +y
    let incoming = v(0, -1, 0);
    let n = v(0, 1, 0);
    assert_eq!(incoming.reflect(n), v(0, 1, 0));
    // a 45-degree bounce keeps its tangential part
    let slanted = v(1, -1, 0);
    assert_eq!(slanted.reflect(n), v(1, 1, 0));
}

#[test]
fn sampling_stays_in_bounds() {
    let mut rng = rand::rngs::StdRng::seed_from_u64(11);
    for _ in 0..50 {
        let r = Vec3::random(&mut rng);
        assert!(0 <= r.x.m && r.x.m < 65536);
        assert!(0 <= r.y.m && r.y.m < 65536);
        assert!(0 <= r.z.m && r.z.m < 65536);
        let q = Vec3::random_range(&mut rng, Fx::from_int(-2), Fx::from_int(3));
        assert!(-2 * 65536 <= q.x.m && q.x.m < 3 * 65536);
        let s = Vec3::random_in_unit_sphere(&mut rng);
        let ls = s.len_sqred();
        assert!(ls.m < 65536);
        let d = Vec3::random_in_unit_disk(&mut rng);
        assert_eq!(d.z.m, 0);
        assert!(d.len_sqred().m < 65536);
        let u = Vec3::random_unit_vector(&mut rng);
        let l = u.len();
        assert!(65531 <= l.m && l.m <= 65537);
    }
}
