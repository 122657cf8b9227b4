use rand::SeedableRng;
use raytrace::fx::Fx;
use raytrace::hittable::HitRecord;
use raytrace::material::{Dielectric, Lambertian, Material, Metal};
use raytrace::ray::Ray;
use raytrace::vec3::Vec3;

fn v(x: i64, y: i64, z: i64) -> Vec3 {
    Vec3::from_ints(x, y, z)
}

fn record(p: Vec3, normal: Vec3, front_face: bool, material: Material) -> HitRecord {
    HitRecord { p, normal, material, t: Fx::from_int(1), front_face }
}

#[test]
fn lambertian_always_scatters() {
    let mut rng = rand::rngs::StdRng::seed_from_u64(3);
    let mat = Lambertian { albedo: Vec3::from_mantissas(26214, 13107, 6553) };
    let hr = record(v(0, 0, -1), v(0, 0, 1), true, Material::Lambertian(mat));
    let ray_in = Ray::new(v(0, 0, 0), v(0, 0, -1));
    for _ in 0..100 {
        let (scattered, attenuation) =
            mat.scatter(&ray_in, &hr, &mut rng).expect("lambertian never absorbs");
        assert_eq!(attenuation, mat.albedo);
        assert_eq!(scattered.orig, hr.p);
        let d = scattered.dir;
        assert!(d.x.m != 0 || d.y.m != 0 || d.z.m != 0);
    }
}

#[test]
fn metal_reflects_or_absorbs_by_the_surface_side() {
    let mut rng = rand::rngs::StdRng::seed_from_u64(3);
    let mat = Metal { albedo: Vec3::from_mantissas(45875, 39321, 32768), fuzz: Fx::zero() };
    let hr = record(v(0, 0, -1), v(0, 0, 1), true, Material::Metal(mat));
    // a head-on ray bounces straight back out
    let head_on = Ray::new(v(0, 0, 0), v(0, 0, -1));
    let (scattered, attenuation) =
        mat.scatter(&head_on, &hr, &mut rng).expect("head-on reflection leaves the surface");
    assert_eq!(attenuation, mat.albedo);
    assert_eq!(scattered.dir, v(0, 0, 1));
    // a grazing ray's reflection does not leave the surface: absorbed
    let grazing = Ray::new(v(0, 0, 0), v(1, 0, 0));
    assert!(mat.scatter(&grazing, &hr, &mut rng).is_none());
}

#[test]
fn dielectric_always_scatters_in_white() {
    let mut rng = rand::rngs::StdRng::seed_from_u64(9);
    let mat = Dielectric { ir: Fx::from_mantissa(98304) };
    let hr = record(v(0, 0, -1), v(0, 0, 1), true, Material::Dielectric(mat));
    let ray_in = Ray::new(v(0, 0, 0), v(0, 0, -1));
    for _ in 0..100 {
        let (_, attenuation) =
            mat.scatter(&ray_in, &hr, &mut rng).expect("dielectric never absorbs");
        assert_eq!(attenuation, Vec3::from_ints(1, 1, 1));
    }
}

#[test]
fn dielectric_reflects_under_total_internal_reflection() {
    let mut rng = rand::rngs::StdRng::seed_from_u64(9);
    let mat = Dielectric { ir: Fx::from_mantissa(98304) };
    // leaving the glass (back face, ratio 1.5) at a grazing angle:
    // sin_theta = 1, so 1.5 * sin_theta > 1 forces a reflection, and
    // the grazing direction reflects onto itself
    let hr = record(v(0, 0, 0), v(0, 0, 1), false, Material::Dielectric(mat));
    let grazing = Ray::new(v(0, 0, 1), v(1, 0, 0));
    for _ in 0..20 {
        let (scattered, _) = mat.scatter(&grazing, &hr, &mut rng).expect("never absorbs");
        assert_eq!(scattered.dir, v(1, 0, 0));
    }
}
