use rand::SeedableRng;
use raytrace::camera::Camera;
use raytrace::fx::Fx;
use raytrace::hittable::{Hittable, HittableList};
use raytrace::material::{Lambertian, Material};
use raytrace::ray::Ray;
use raytrace::render::{random_scene, ray_colour, render, RenderConfig};
use raytrace::sphere::Sphere;
use raytrace::vec3::Vec3;

fn v(x: i64, y: i64, z: i64) -> Vec3 {
    Vec3::from_ints(x, y, z)
}

/// The reference scene of the depth and determinism checks: one
/// diffuse sphere of radius 100 centered 100.5 units below the
/// camera's line of sight.
fn floor_scene() -> HittableList {
    let mut world = HittableList::new();
    world.add(Hittable::Sphere(Sphere {
        center: Vec3::from_mantissas(0, -6586368, -65536),
        radius: Fx::from_int(100),
        material: Material::Lambertian(Lambertian {
            albedo: Vec3::from_mantissas(32768, 32768, 32768),
        }),
    }));
    world
}

fn looking_down_minus_z() -> Camera {
    Camera::new(
        v(0, 0, 0),
        v(0, 0, -1),
        v(0, 1, 0),
        // tan(30 degrees)
        Fx::from_mantissa(37837),
        // 2:1
        Fx::from_int(2),
        Fx::zero(),
        Fx::from_int(10),
    )
}

#[test]
fn zero_depth_is_black() {
    let mut rng = rand::rngs::StdRng::seed_from_u64(1);
    let world = floor_scene();
    let r = Ray::new(v(0, 0, 0), v(0, 0, -1));
    let c = ray_colour(r, &world, 0, &mut rng);
    assert_eq!(c, Vec3::new());
    // the same holds on an empty scene
    let empty = HittableList::new();
    let c2 = ray_colour(r, &empty, 0, &mut rng);
    assert_eq!(c2, Vec3::new());
}

#[test]
fn miss_paints_the_sky_gradient() {
    let mut rng = rand::rngs::StdRng::seed_from_u64(1);
    let empty = HittableList::new();
    // straight up: the top of the gradient, the blue end
    let up = ray_colour(Ray::new(v(0, 0, 0), v(0, 1, 0)), &empty, 5, &mut rng);
    // horizontal: the middle of the fade
    let level = ray_colour(Ray::new(v(0, 0, 0), v(1, 0, 0)), &empty, 5, &mut rng);
    assert!(up.z.m > up.x.m, "sky is bluest at the top");
    assert!(level.x.m > up.x.m, "the horizon is whiter than the zenith");
}

#[test]
fn write_colour_maps_the_extremes() {
    let white = Vec3::from_ints(1, 1, 1);
    assert_eq!(white.write_colour(1), (255, 255, 255));
    let black = Vec3::new();
    assert_eq!(black.write_colour(1), (0, 0, 0));
    // a quarter of full intensity gamma-corrects to half: 127 after
    // the truncating 255.999 scaling
    let quarter = Vec3::from_mantissas(16384, 16384, 16384);
    assert_eq!(quarter.write_colour(1), (127, 127, 127));
    // the average divides by the sample count before the gamma map
    let four_whites = Vec3::from_ints(4, 4, 4);
    assert_eq!(four_whites.write_colour(4), (255, 255, 255));
}

#[test]
fn render_is_deterministic_for_a_seed() {
    let world = floor_scene();
    let cam = looking_down_minus_z();
    let cfg = RenderConfig { width: 20, height: 10, samples_per_pixel: 4, max_depth: 10, seed: 42 };
    let first = render(&cam, &world, &cfg);
    let second = render(&cam, &world, &cfg);
    assert_eq!(first.len(), 200);
    assert_eq!(first, second);
    // a different seed gives a different sampling of the same scene
    let other_cfg = RenderConfig { seed: 43, ..cfg };
    let third = render(&cam, &world, &other_cfg);
    assert_ne!(first, third);
}

#[test]
fn sampling_error_shrinks_with_more_samples() {
    let world = floor_scene();
    let cam = looking_down_minus_z();
    let reference = render(
        &cam,
        &world,
        &RenderConfig { width: 10, height: 5, samples_per_pixel: 256, max_depth: 8, seed: 7 },
    );
    let rough = render(
        &cam,
        &world,
        &RenderConfig { width: 10, height: 5, samples_per_pixel: 2, max_depth: 8, seed: 1 },
    );
    let fine = render(
        &cam,
        &world,
        &RenderConfig { width: 10, height: 5, samples_per_pixel: 64, max_depth: 8, seed: 2 },
    );
    let err = |img: &Vec<(u8, u8, u8)>| -> i64 {
        let mut total: i64 = 0;
        for (a, b) in img.iter().zip(reference.iter()) {
            total += (a.0 as i64 - b.0 as i64).abs();
            total += (a.1 as i64 - b.1 as i64).abs();
            total += (a.2 as i64 - b.2 as i64).abs();
        }
        total
    };
    let rough_err = err(&rough);
    let fine_err = err(&fine);
    assert!(
        fine_err <= rough_err,
        "64-sample error {} should not exceed 2-sample error {}",
        fine_err,
        rough_err
    );
}

#[test]
fn render_emits_every_pixel_in_order() {
    let world = floor_scene();
    let cam = looking_down_minus_z();
    let cfg = RenderConfig { width: 8, height: 6, samples_per_pixel: 2, max_depth: 4, seed: 5 };
    let img = render(&cam, &world, &cfg);
    assert_eq!(img.len(), 48);
    // the floor sits below the camera: the bottom row (last in
    // top-down order) must be darker than the top row of pure sky
    let top: i64 = img[..8].iter().map(|p| p.2 as i64).sum();
    let bottom: i64 = img[40..].iter().map(|p| p.2 as i64).sum();
    assert!(bottom < top, "bottom {} should be darker than top {}", bottom, top);
}

#[test]
fn degenerate_rays_return_black() {
    let mut rng = rand::rngs::StdRng::seed_from_u64(1);
    let world = floor_scene();
    // a ray with no direction carries no light
    let still = Ray::new(v(0, 0, 0), Vec3::new());
    assert_eq!(ray_colour(still, &world, 5, &mut rng), Vec3::new());
    // an origin outside the geometry limits is refused the same way
    let far = Ray::new(Vec3::from_mantissas(0x7000_0000, 0, 0), v(0, 0, -1));
    assert_eq!(ray_colour(far, &world, 5, &mut rng), Vec3::new());
}

#[test]
fn random_scene_builds_the_demo_world() {
    let mut rng = rand::rngs::StdRng::seed_from_u64(1234);
    let world = random_scene(&mut rng);
    // the ground sphere, the three large spheres, and at least some
    // of the 484 grid positions
    assert!(world.objects.len() >= 4);
    // the scene is hittable: a ray down from above strikes the ground
    let r = Ray::new(v(0, 5, 0), v(0, -1, 0));
    let hit = world.hit(&r, Fx::from_mantissa(65), Fx::from_int(10000)).expect("ground below");
    assert!(hit.t.m > 0);
}
