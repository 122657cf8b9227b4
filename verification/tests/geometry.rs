use rand::SeedableRng;
use raytrace::fx::Fx;
use raytrace::hittable::{Hittable, HittableList};
use raytrace::material::{Lambertian, Material, Metal};
use raytrace::ray::Ray;
use raytrace::sphere::{set_face_normal, Sphere};
use raytrace::vec3::Vec3;

fn v(x: i64, y: i64, z: i64) -> Vec3 {
    Vec3::from_ints(x, y, z)
}

fn grey() -> Material {
    Material::Lambertian(Lambertian { albedo: Vec3::from_mantissas(32768, 32768, 32768) })
}

fn shiny() -> Material {
    Material::Metal(Metal { albedo: Vec3::from_mantissas(45875, 39321, 32768), fuzz: Fx::zero() })
}

#[test]
fn axis_ray_hits_sphere_head_on() {
    // a unit-direction ray from (0,0,5) straight at a radius-2 sphere
    // at the origin strikes at t = 3, from outside, with the normal
    // pointing back along the approach
    let s = Sphere { center: v(0, 0, 0), radius: Fx::from_int(2), material: grey() };
    let r = Ray::new(v(0, 0, 5), v(0, 0, -1));
    let hit = s.hit(&r, Fx::zero(), Fx::from_int(1000)).expect("head-on ray must hit");
    assert_eq!(hit.t, Fx::from_int(3));
    assert!(hit.front_face);
    assert_eq!(hit.normal, v(0, 0, 1));
    assert_eq!(hit.p, v(0, 0, 2));
}

#[test]
fn wide_ray_misses_sphere() {
    // closest approach 5 exceeds the radius 2: no hit
    let s = Sphere { center: v(0, 0, 0), radius: Fx::from_int(2), material: grey() };
    let r = Ray::new(v(5, 0, 5), v(0, 0, -1));
    assert!(s.hit(&r, Fx::zero(), Fx::from_int(1000)).is_none());
}

#[test]
fn hit_respects_the_t_window() {
    let s = Sphere { center: v(0, 0, 0), radius: Fx::from_int(2), material: grey() };
    let r = Ray::new(v(0, 0, 5), v(0, 0, -1));
    // the window (4, 1000) excludes the near surface at t=3 but the
    // far surface at t=7 qualifies; its normal faces the ray from
    // inside
    let hit = s.hit(&r, Fx::from_int(4), Fx::from_int(1000)).expect("far surface qualifies");
    assert_eq!(hit.t, Fx::from_int(7));
    assert!(!hit.front_face);
    assert_eq!(hit.normal, v(0, 0, 1));
    // a window past both surfaces sees nothing
    assert!(s.hit(&r, Fx::from_int(8), Fx::from_int(1000)).is_none());
}

#[test]
fn front_face_follows_the_dot_sign() {
    let r = Ray::new(v(0, 0, 0), v(0, 0, -1));
    let outward = v(0, 0, 1);
    let (front, n) = set_face_normal(&r, outward);
    assert!(front);
    assert_eq!(n, outward);
    let inward = v(0, 0, -1);
    let (front2, n2) = set_face_normal(&r, inward);
    assert!(!front2);
    assert_eq!(n2, v(0, 0, 1));
}

#[test]
fn nearer_of_two_overlapping_spheres_wins() {
    // two overlapping spheres along the ray: the one whose surface
    // comes first must be reported, in either insertion order
    let near = Sphere { center: v(0, 0, -5), radius: Fx::from_int(2), material: grey() };
    let far = Sphere { center: v(0, 0, -7), radius: Fx::from_int(2), material: shiny() };
    let r = Ray::new(v(0, 0, 0), v(0, 0, -1));

    let mut world = HittableList::new();
    world.add(Hittable::Sphere(near));
    world.add(Hittable::Sphere(far));
    let hit = world.hit(&r, Fx::zero(), Fx::from_int(1000)).expect("spheres ahead");
    assert_eq!(hit.t, Fx::from_int(3));
    assert_eq!(hit.material, grey());

    let mut reversed = HittableList::new();
    reversed.add(Hittable::Sphere(far));
    reversed.add(Hittable::Sphere(near));
    let hit2 = reversed.hit(&r, Fx::zero(), Fx::from_int(1000)).expect("spheres ahead");
    assert_eq!(hit2.t, Fx::from_int(3));
    assert_eq!(hit2.material, grey());
}

#[test]
fn empty_scene_reports_no_hit() {
    let world = HittableList::new();
    let r = Ray::new(v(0, 0, 0), v(0, 0, -1));
    assert!(world.hit(&r, Fx::zero(), Fx::from_int(1000)).is_none());
}

#[test]
fn clear_empties_the_scene() {
    let mut world = HittableList::new();
    world.add(
        Hittable::Sphere(
            Sphere { center: v(0, 0, -5), radius: Fx::from_int(1), material: grey() },
        ),
    );
    world.clear();
    let r = Ray::new(v(0, 0, 0), v(0, 0, -1));
    assert!(world.hit(&r, Fx::zero(), Fx::from_int(1000)).is_none());
}

#[test]
fn ray_at_walks_the_parameter() {
    let r = Ray::new(v(1, 2, 3), v(0, 1, 0));
    assert_eq!(r.at(Fx::from_int(4)), v(1, 6, 3));
    assert_eq!(r.at(Fx::from_int(-2)), v(1, 0, 3));
}

#[test]
fn tangent_ray_grazes_the_sphere() {
    // a ray skimming the sphere at exactly its radius: the zero
    // discriminant is the tangent double root, and the grazing
    // contact (dot exactly zero) counts as a back face
    let s = Sphere { center: v(0, 0, 0), radius: Fx::from_int(2), material: grey() };
    let r = Ray::new(v(5, 2, 0), v(-1, 0, 0));
    let hit = s.hit(&r, Fx::zero(), Fx::from_int(1000)).expect("tangent contact is a hit");
    assert_eq!(hit.t, Fx::from_int(5));
    assert_eq!(hit.p, v(0, 2, 0));
    assert!(!hit.front_face);
    assert_eq!(hit.normal, v(0, -1, 0));
}

#[test]
fn negative_radius_flips_the_face() {
    // a negative radius turns the normals inward (the hollow-glass
    // trick): the same head-on ray now strikes a "back" face
    let s = Sphere { center: v(0, 0, 0), radius: Fx::from_int(-2), material: grey() };
    let r = Ray::new(v(0, 0, 5), v(0, 0, -1));
    let hit = s.hit(&r, Fx::zero(), Fx::from_int(1000)).expect("geometry is unchanged");
    assert_eq!(hit.t, Fx::from_int(3));
    assert!(!hit.front_face);
    assert_eq!(hit.normal, v(0, 0, 1));
}

#[test]
fn sqrt_is_exact_on_squares() {
    assert_eq!(Fx::from_int(4).sqrt(), Fx::from_int(2));
    assert_eq!(Fx::from_int(100).sqrt(), Fx::from_int(10));
    assert_eq!(Fx::zero().sqrt(), Fx::zero());
    // between squares it rounds down: sqrt(2) = 1.41421...
    assert_eq!(Fx::from_int(2).sqrt(), Fx::from_mantissa(92681));
}

#[test]
fn camera_without_aperture_shoots_from_its_origin() {
    let mut rng = rand::rngs::StdRng::seed_from_u64(5);
    let cam = raytrace::camera::Camera::new(
        v(13, 2, 3),
        v(0, 1, 0),
        v(0, 1, 0),
        // tan(10 degrees) in fixed point
        Fx::from_mantissa(11556),
        // 16:9
        Fx::from_mantissa(116508),
        Fx::zero(),
        Fx::from_int(10),
    );
    let ray = cam.getray(Fx::from_mantissa(32768), Fx::from_mantissa(32768), &mut rng);
    assert_eq!(ray.orig, v(13, 2, 3));
}
