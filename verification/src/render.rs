//! The renderer: recursive colour accumulation, per-scanline
//! sampling, parallel dispatch, and the scene builder.

use vstd::prelude::*;
use rayon::iter::{IntoParallelIterator, ParallelIterator};
use crate::fx::{
    Fx, SCALE, tdiv, lemma_tdiv_bound, lemma_tdiv_quotient_bound,
};
use crate::vec3::{
    Vec3, Colour, V3, v3_bounded, v3_mul, norm2_raw, unit_val, channel_val, lemma_mul_unit_channels,
    lemma_norm2_pos, lemma_norm2_zero, VEC_LIMIT, lemma_len_sqred_bounded,
};
use crate::ray::Ray;
use crate::hittable::{HitRecord, Hittable, HittableList, scene_wf, list_best, hit_record_wf};
use crate::sphere::{Sphere, GEOM_LIMIT, T_LIMIT, ray_wf};
use crate::material::{Material, Lambertian, Metal, Dielectric, colour_in_unit, material_wf};
use crate::camera::{Camera, camera_wf};
use crate::rng::{rng_from_seed, rand_below};

verus! {

/// The lower ray-parameter bound of every scene query: just above
/// zero, so a scattered ray does not re-hit its own origin ("shadow
/// acne").
pub const T_MIN: i64 = 65;

/// The fixed render parameters, and the seed from which every
/// scanline derives its own random generator.
#[derive(Clone, Copy, PartialEq, Eq, Structural, Debug)]
pub struct RenderConfig {
    pub width: u32,
    pub height: u32,
    pub samples_per_pixel: u32,
    pub max_depth: u8,
    pub seed: u64,
}

/// Bounds under which the sampling arithmetic stays in range.
pub open spec fn config_wf(c: RenderConfig) -> bool {
    &&& 1 <= c.width <= 16384
    &&& 1 <= c.height <= 16384
    &&& 1 <= c.samples_per_pixel <= 16384
}

/// The sky gradient a missed ray returns: a linear fade from white at
/// the horizon to blue at the top, driven by the unit direction's y.
pub open spec fn sky_val(dir: V3) -> V3 {
    let t = tdiv(unit_val(dir).y + SCALE, 2);
    V3 {
        x: (SCALE - t) + tdiv(32768 * t, SCALE as int),
        y: (SCALE - t) + tdiv(45875 * t, SCALE as int),
        z: (SCALE - t) + tdiv(65536 * t, SCALE as int),
    }
}

/// Whether a ray is inside the intersection routine's geometry
/// limits, with a usable (nonzero) direction.
pub open spec fn ray_in_limits(r: Ray) -> bool {
    &&& v3_bounded(r.orig@, GEOM_LIMIT as int)
    &&& v3_bounded(r.dir@, GEOM_LIMIT as int)
    &&& (r.dir@.x != 0 || r.dir@.y != 0 || r.dir@.z != 0)
}

/// Tests `ray_in_limits` at run time.
fn check_ray_limits(r: &Ray) -> (ok: bool)
    ensures
        ok == ray_in_limits(*r),
{
    r.orig.x.m <= GEOM_LIMIT && r.orig.x.m >= -GEOM_LIMIT && r.orig.y.m <= GEOM_LIMIT
        && r.orig.y.m >= -GEOM_LIMIT && r.orig.z.m <= GEOM_LIMIT && r.orig.z.m >= -GEOM_LIMIT
        && r.dir.x.m <= GEOM_LIMIT && r.dir.x.m >= -GEOM_LIMIT && r.dir.y.m <= GEOM_LIMIT
        && r.dir.y.m >= -GEOM_LIMIT && r.dir.z.m <= GEOM_LIMIT && r.dir.z.m >= -GEOM_LIMIT && (
    r.dir.x.m != 0 || r.dir.y.m != 0 || r.dir.z.m != 0)
}

/// The colour carried back along a ray: black once the bounce budget
/// is spent, black for an absorbed or degenerate ray, the attenuated
/// recursion for a scattered one, and the sky gradient for a miss.
/// On the hit path the result is always the componentwise product of
/// a unit-range attenuation with a unit-range bounce colour (black
/// for an absorbed ray — a valid terminal outcome, not an error).
pub fn ray_colour(r: Ray, world: &HittableList, depth: u8, rng: &mut rand::rngs::StdRng) -> (c:
    Colour)
    requires
        scene_wf(*world),
    ensures
        colour_in_unit(c@),
        depth == 0 ==> c@ == (V3 { x: 0int, y: 0int, z: 0int }),
        (depth > 0 && !ray_in_limits(r)) ==> c@ == (V3 { x: 0int, y: 0int, z: 0int }),
        (depth > 0 && ray_in_limits(r) && list_best(
            world.objects@,
            r,
            T_MIN as int,
            T_LIMIT as int,
            world.objects@.len() as int,
        ) is None) ==> c@ == sky_val(r.dir@),
        (depth > 0 && ray_in_limits(r) && list_best(
            world.objects@,
            r,
            T_MIN as int,
            T_LIMIT as int,
            world.objects@.len() as int,
        ) is Some) ==> exists|att: V3, rec: V3|
            {
                &&& colour_in_unit(att)
                &&& colour_in_unit(rec)
                &&& c@ == #[trigger] v3_mul(att, rec)
            },
    decreases depth,
{
    if depth == 0 {
        return Vec3::new();
    }
    if !check_ray_limits(&r) {
        return Vec3::new();
    }
    proof {
        lemma_norm2_pos(r.dir@);
    }
    let hit = world.hit(&r, Fx { m: T_MIN }, Fx { m: T_LIMIT });
    match hit {
        Some(hr) => {
            match hr.material.scatter(&r, &hr, rng) {
                Some((scattered, attenuation)) => {
                    let rec = ray_colour(scattered, world, depth - 1, rng);
                    proof {
                        lemma_mul_unit_channels(attenuation@, rec@);
                    }
                    let tinted = attenuation * rec;
                    proof {
                        assert(tinted@ == v3_mul(attenuation@, rec@));
                    }
                    tinted
                },
                None => {
                    let black = Vec3::new();
                    proof {
                        let wv = V3 { x: SCALE as int, y: SCALE as int, z: SCALE as int };
                        vstd::arithmetic::mul::lemma_mul_by_zero_is_zero(SCALE as int);
                        vstd::arithmetic::div_mod::lemma_div_of0(SCALE as int);
                        assert(black@ == v3_mul(wv, black@));
                    }
                    black
                },
            }
        },
        None => {
            let u = r.dir.unit_vector();
            let t: i64 = (u.y.m + SCALE) / 2;
            proof {
                lemma_tdiv_quotient_bound(32768 * (t as int), SCALE as int, t as int);
                lemma_tdiv_quotient_bound(45875 * (t as int), SCALE as int, t as int);
                lemma_tdiv_quotient_bound(65536 * (t as int), SCALE as int, t as int);
                vstd::arithmetic::div_mod::lemma_div_pos_is_pos(32768 * (t as int), SCALE as int);
                vstd::arithmetic::div_mod::lemma_div_pos_is_pos(45875 * (t as int), SCALE as int);
                vstd::arithmetic::div_mod::lemma_div_pos_is_pos(65536 * (t as int), SCALE as int);
            }
            let cx: i64 = (SCALE - t) + (32768 * t) / SCALE;
            let cy: i64 = (SCALE - t) + (45875 * t) / SCALE;
            let cz: i64 = (SCALE - t) + (65536 * t) / SCALE;
            Vec3 { x: Fx { m: cx }, y: Fx { m: cy }, z: Fx { m: cz } }
        },
    }
}

/// The componentwise sum of a sequence of colours.
pub open spec fn sum_colours(cs: Seq<V3>) -> V3
    decreases cs.len(),
{
    if cs.len() == 0 {
        V3 { x: 0int, y: 0int, z: 0int }
    } else {
        crate::vec3::v3_add(sum_colours(cs.drop_last()), cs.last())
    }
}

/// The colour decomposes as the sum of `n` unit-range per-sample
/// colours.
pub open spec fn pixel_is_sample_sum(c: V3, n: int) -> bool {
    exists|cs: Seq<V3>|
        {
            &&& cs.len() == n
            &&& (forall|k: int| 0 <= k < cs.len() ==> colour_in_unit(#[trigger] cs[k]))
            &&& c == #[trigger] sum_colours(cs)
        }
}

/// What every rendered scanline satisfies: one accumulated colour per
/// column, each the sum of one unit-range sample colour per sample,
/// each channel between zero and the sample count (at colour scale).
pub open spec fn line_wf(line: Seq<Colour>, cfg: RenderConfig) -> bool {
    &&& line.len() == cfg.width
    &&& forall|i: int|
        0 <= i < line.len() ==> {
            &&& 0 <= (#[trigger] line[i])@.x <= cfg.samples_per_pixel * SCALE
            &&& 0 <= line[i]@.y <= cfg.samples_per_pixel * SCALE
            &&& 0 <= line[i]@.z <= cfg.samples_per_pixel * SCALE
            &&& pixel_is_sample_sum(line[i]@, cfg.samples_per_pixel as int)
        }
}

/// One scanline: for every column, the sum of `samples_per_pixel`
/// jittered samples of `ray_colour` (the sample count is inclusive:
/// exactly that many samples enter each pixel's sum).
pub fn process_line(cfg: &RenderConfig, cam: &Camera, world: &HittableList, row: u32) -> (line:
    Vec<Colour>)
    requires
        config_wf(*cfg),
        camera_wf(*cam),
        scene_wf(*world),
        row < cfg.height,
    ensures
        line_wf(line@, *cfg),
{
    let mut values: Vec<Colour> = Vec::new();
    let mut rng = rng_from_seed(cfg.seed ^ (row as u64));
    let mut col: u32 = 0;
    while col < cfg.width
        invariant
            config_wf(*cfg),
            camera_wf(*cam),
            scene_wf(*world),
            row < cfg.height,
            col <= cfg.width,
            values@.len() == col,
            forall|i: int|
                0 <= i < values@.len() ==> {
                    &&& 0 <= (#[trigger] values@[i])@.x <= cfg.samples_per_pixel * SCALE
                    &&& 0 <= values@[i]@.y <= cfg.samples_per_pixel * SCALE
                    &&& 0 <= values@[i]@.z <= cfg.samples_per_pixel * SCALE
                    &&& pixel_is_sample_sum(values@[i]@, cfg.samples_per_pixel as int)
                },
        decreases cfg.width - col,
    {
        let mut pixel: Colour = Vec3::new();
        let ghost mut samples_seq: Seq<V3> = Seq::empty();
        let mut s: u32 = 0;
        while s < cfg.samples_per_pixel
            invariant
                config_wf(*cfg),
                camera_wf(*cam),
                scene_wf(*world),
                row < cfg.height,
                col < cfg.width,
                s <= cfg.samples_per_pixel,
                0 <= pixel@.x <= s * SCALE,
                0 <= pixel@.y <= s * SCALE,
                0 <= pixel@.z <= s * SCALE,
                samples_seq.len() == s,
                forall|k: int| 0 <= k < samples_seq.len() ==> colour_in_unit(#[trigger] samples_seq[k]),
                pixel@ == sum_colours(samples_seq),
            decreases cfg.samples_per_pixel - s,
        {
            let ur = rand_below(&mut rng, 65536) as i64;
            let vr = rand_below(&mut rng, 65536) as i64;
            let un: i64 = (col as i64) * SCALE + ur;
            let vn: i64 = (row as i64) * SCALE + vr;
            proof {
                lemma_tdiv_bound(un as int, cfg.width as int);
                lemma_tdiv_bound(vn as int, cfg.height as int);
                vstd::arithmetic::div_mod::lemma_div_multiples_vanish(
                    SCALE as int,
                    cfg.width as int,
                );
                vstd::arithmetic::div_mod::lemma_div_is_ordered(
                    un as int,
                    cfg.width as int * SCALE,
                    cfg.width as int,
                );
                assert(cfg.width as int * SCALE == cfg.width as int * (SCALE as int))
                    by (nonlinear_arith);
                assert(un as int <= cfg.width as int * SCALE) by (nonlinear_arith)
                    requires
                        un == col * SCALE + ur,
                        col < cfg.width,
                        0 <= ur < SCALE,
                        SCALE == 65536,
                ;
                vstd::arithmetic::div_mod::lemma_div_multiples_vanish(
                    SCALE as int,
                    cfg.height as int,
                );
                vstd::arithmetic::div_mod::lemma_div_is_ordered(
                    vn as int,
                    cfg.height as int * SCALE,
                    cfg.height as int,
                );
                assert(vn as int <= cfg.height as int * SCALE) by (nonlinear_arith)
                    requires
                        vn == row * SCALE + vr,
                        row < cfg.height,
                        0 <= vr < SCALE,
                        SCALE == 65536,
                ;
            }
            let u: i64 = un / (cfg.width as i64);
            let v: i64 = vn / (cfg.height as i64);
            let ray = cam.getray(Fx { m: u }, Fx { m: v }, &mut rng);
            let c = ray_colour(ray, world, cfg.max_depth, &mut rng);
            proof {
                assert((s + 1) * SCALE == s * SCALE + SCALE) by (nonlinear_arith);
            }
            pixel = pixel + c;
            proof {
                let prev = samples_seq;
                samples_seq = samples_seq.push(c@);
                assert(samples_seq.drop_last() =~= prev);
                assert(samples_seq.last() == c@);
            }
            s = s + 1;
        }
        proof {
            assert(pixel_is_sample_sum(pixel@, cfg.samples_per_pixel as int));
        }
        values.push(pixel);
        col = col + 1;
    }
    values
}

/// The scanline for output row `j`, counting from the image's top:
/// scanlines are sampled bottom-up, output rows run top-down.
pub fn render_line_top_down(cfg: &RenderConfig, cam: &Camera, world: &HittableList, j: u32) -> (
    line: Vec<Colour>)
    requires
        config_wf(*cfg),
        camera_wf(*cam),
        scene_wf(*world),
        j < cfg.height,
    ensures
        line_wf(line@, *cfg),
{
    process_line(cfg, cam, world, cfg.height - 1 - j)
}

/// Relies on rayon's `into_par_iter().map(..).collect()` over
/// `0..height`: the collected vector has one entry per index, in
/// index order, each entry produced by the verified scanline
/// renderer for that index (so it satisfies that function's
/// postcondition).
#[verifier::external_body]
fn par_render_lines(cfg: &RenderConfig, cam: &Camera, world: &HittableList) -> (rows: Vec<
    Vec<Colour>>)
    requires
        config_wf(*cfg),
        camera_wf(*cam),
        scene_wf(*world),
    ensures
        rows@.len() == cfg.height,
        forall|j: int| 0 <= j < rows@.len() ==> line_wf((#[trigger] rows@[j])@, *cfg),
{
    (0..cfg.height).into_par_iter().map(|j| render_line_top_down(cfg, cam, world, j)).collect()
}

/// Two row-major positions agree only at the same row and column.
proof fn lemma_row_major_unique(j1: int, i1: int, j2: int, i2: int, w: int) by (nonlinear_arith)
    requires
        w > 0,
        0 <= i1 < w,
        0 <= i2 < w,
        0 <= j1,
        0 <= j2,
        j1 * w + i1 == j2 * w + i2,
    ensures
        j1 == j2 && i1 == i2,
{
}

/// The pixel at row-major position `(j, i)` is exactly the per-pixel
/// output map of the `j`-th collected row's `i`-th colour.
pub open spec fn assembled(
    pixels: Seq<(u8, u8, u8)>,
    rows: Seq<Vec<Colour>>,
    w: int,
    n: int,
    j: int,
    i: int,
) -> bool {
    &&& pixels[j * w + i].0 == channel_val(rows[j]@[i]@.x, n)
    &&& pixels[j * w + i].1 == channel_val(rows[j]@[i]@.y, n)
    &&& pixels[j * w + i].2 == channel_val(rows[j]@[i]@.z, n)
}

/// Flattens the collected scanlines in their given order and maps
/// every accumulated colour through the per-pixel output step: the
/// result is pinned pointwise to `channel_val` of the rows.
pub fn assemble(rows: &Vec<Vec<Colour>>, cfg: &RenderConfig) -> (pixels: Vec<(u8, u8, u8)>)
    requires
        config_wf(*cfg),
        forall|k: int| 0 <= k < rows@.len() ==> line_wf((#[trigger] rows@[k])@, *cfg),
    ensures
        pixels@.len() == rows@.len() * cfg.width,
        forall|j: int, i: int|
            0 <= j < rows@.len() && 0 <= i < cfg.width ==> assembled(
                pixels@,
                rows@,
                cfg.width as int,
                cfg.samples_per_pixel as int,
                j,
                i,
            ),
{
    let mut pixels: Vec<(u8, u8, u8)> = Vec::new();
    let mut j: usize = 0;
    while j < rows.len()
        invariant
            config_wf(*cfg),
            forall|k: int| 0 <= k < rows@.len() ==> line_wf((#[trigger] rows@[k])@, *cfg),
            j <= rows@.len(),
            pixels@.len() == j * cfg.width,
            forall|j2: int, i2: int|
                0 <= j2 < j && 0 <= i2 < cfg.width ==> assembled(
                    pixels@,
                    rows@,
                    cfg.width as int,
                    cfg.samples_per_pixel as int,
                    j2,
                    i2,
                ),
        decreases rows@.len() - j,
    {
        let line = &rows[j];
        let mut i: usize = 0;
        while i < line.len()
            invariant
                config_wf(*cfg),
                forall|k: int| 0 <= k < rows@.len() ==> line_wf((#[trigger] rows@[k])@, *cfg),
                j < rows@.len(),
                line == &rows@[j as int],
                i <= line@.len(),
                line@.len() == cfg.width,
                pixels@.len() == j * cfg.width + i,
                forall|j2: int, i2: int|
                    0 <= j2 < j && 0 <= i2 < cfg.width ==> assembled(
                        pixels@,
                        rows@,
                        cfg.width as int,
                        cfg.samples_per_pixel as int,
                        j2,
                        i2,
                    ),
                forall|i2: int|
                    0 <= i2 < i ==> assembled(
                        pixels@,
                        rows@,
                        cfg.width as int,
                        cfg.samples_per_pixel as int,
                        j as int,
                        i2,
                    ),
            decreases line@.len() - i,
        {
            let rgb = line[i].write_colour(cfg.samples_per_pixel);
            let ghost prev = pixels@;
            pixels.push(rgb);
            proof {
                let w = cfg.width as int;
                let n = cfg.samples_per_pixel as int;
                assert forall|j2: int, i2: int|
                    0 <= j2 < j && 0 <= i2 < w implies #[trigger] assembled(
                    pixels@,
                    rows@,
                    w,
                    n,
                    j2,
                    i2,
                ) by {
                    assert(assembled(prev, rows@, w, n, j2, i2));
                    vstd::arithmetic::mul::lemma_mul_inequality(j2 + 1, j as int, w);
                    assert((j2 + 1) * w == j2 * w + w) by (nonlinear_arith);
                    assert(j2 * w + i2 < prev.len());
                    assert(pixels@[j2 * w + i2] == prev[j2 * w + i2]);
                }
                assert forall|i2: int| 0 <= i2 < i + 1 implies assembled(
                    pixels@,
                    rows@,
                    w,
                    n,
                    j as int,
                    i2,
                ) by {
                    if i2 < i {
                        assert(assembled(prev, rows@, w, n, j as int, i2));
                        assert(j * w + i2 < prev.len());
                        assert(pixels@[j * w + i2] == prev[j * w + i2]);
                    } else {
                        assert(pixels@[j * w + i2] == rgb);
                    }
                }
            }
            i = i + 1;
        }
        proof {
            assert((j + 1) * cfg.width == j * cfg.width + cfg.width) by (nonlinear_arith);
        }
        j = j + 1;
    }
    pixels
}

/// Renders the whole image: scanlines in parallel (each with its own
/// seeded generator), then the rows flattened in their top-down order
/// and every accumulated colour mapped to its 8-bit pixel.  The image
/// is pinned up to the collected rows: there are rows — one per
/// scanline, each meeting the per-line contract — of which every
/// output pixel is exactly the `channel_val` image.
pub fn render(cam: &Camera, world: &HittableList, cfg: &RenderConfig) -> (pixels: Vec<
    (u8, u8, u8)>)
    requires
        config_wf(*cfg),
        camera_wf(*cam),
        scene_wf(*world),
    ensures
        pixels@.len() == cfg.height * cfg.width,
        exists|rows: Seq<Vec<Colour>>|
            {
                &&& rows.len() == cfg.height
                &&& (forall|k: int| 0 <= k < rows.len() ==> line_wf((#[trigger] rows[k])@, *cfg))
                &&& (forall|j: int, i: int|
                    0 <= j < rows.len() && 0 <= i < cfg.width ==> #[trigger] assembled(
                        pixels@,
                        rows,
                        cfg.width as int,
                        cfg.samples_per_pixel as int,
                        j,
                        i,
                    ))
            },
{
    let rows = par_render_lines(cfg, cam, world);
    let pixels = assemble(&rows, cfg);
    proof {
        let g = rows@;
        assert(g.len() == cfg.height);
        assert(forall|j: int, i: int|
            0 <= j < g.len() && 0 <= i < cfg.width ==> #[trigger] assembled(
                pixels@,
                g,
                cfg.width as int,
                cfg.samples_per_pixel as int,
                j,
                i,
            ));
        assert(rows@.len() * cfg.width == cfg.height * cfg.width) by (nonlinear_arith)
            requires
                rows@.len() == cfg.height,
        ;
    }
    pixels
}

/// The matte ground sphere: radius 1000, a thousand units down,
/// albedo one half in every channel.
pub open spec fn ground_sphere() -> Hittable {
    Hittable::Sphere(
        Sphere {
            center: Vec3 { x: Fx { m: 0 }, y: Fx { m: -65536000i64 }, z: Fx { m: 0 } },
            radius: Fx { m: 65536000 },
            material: Material::Lambertian(
                Lambertian {
                    albedo: Vec3 { x: Fx { m: 32768 }, y: Fx { m: 32768 }, z: Fx { m: 32768 } },
                },
            ),
        },
    )
}

/// The large glass sphere: unit radius at the origin column.
pub open spec fn glass_sphere() -> Hittable {
    Hittable::Sphere(
        Sphere {
            center: Vec3 { x: Fx { m: 0 }, y: Fx { m: 65536 }, z: Fx { m: 0 } },
            radius: Fx { m: 65536 },
            material: Material::Dielectric(Dielectric { ir: Fx { m: 98304 } }),
        },
    )
}

/// The large matte sphere: unit radius at x = -4.
pub open spec fn matte_sphere() -> Hittable {
    Hittable::Sphere(
        Sphere {
            center: Vec3 { x: Fx { m: -262144i64 }, y: Fx { m: 65536 }, z: Fx { m: 0 } },
            radius: Fx { m: 65536 },
            material: Material::Lambertian(
                Lambertian {
                    albedo: Vec3 { x: Fx { m: 26214 }, y: Fx { m: 13107 }, z: Fx { m: 6553 } },
                },
            ),
        },
    )
}

/// The large polished metal sphere: unit radius at x = 4, no fuzz.
pub open spec fn metal_sphere() -> Hittable {
    Hittable::Sphere(
        Sphere {
            center: Vec3 { x: Fx { m: 262144 }, y: Fx { m: 65536 }, z: Fx { m: 0 } },
            radius: Fx { m: 65536 },
            material: Material::Metal(
                Metal {
                    albedo: Vec3 { x: Fx { m: 45875 }, y: Fx { m: 39321 }, z: Fx { m: 32768 } },
                    fuzz: Fx { m: 0 },
                },
            ),
        },
    )
}

/// What every small grid sphere satisfies: radius one fifth, resting
/// on the ground plane, inside the grid's columns, and farther than
/// nine tenths of a unit from the metal sphere's column.
pub open spec fn grid_sphere_ok(h: Hittable) -> bool {
    match h {
        Hittable::Sphere(s) => {
            &&& s.radius.m == 13107
            &&& s.center@.y == 13107
            &&& -11 * SCALE <= s.center@.x < 12 * SCALE
            &&& -11 * SCALE <= s.center@.z < 12 * SCALE
            &&& crate::fx::sqrt_floor(
                norm2_raw(
                    crate::vec3::v3_sub(
                        s.center@,
                        V3 { x: 4 * SCALE, y: 13107int, z: 0int },
                    ),
                ),
            ) > 58982
            &&& material_wf(s.material)
        },
    }
}

/// Builds the demonstration scene: a large matte ground sphere, a
/// grid of small spheres with randomly chosen materials (skipping
/// positions too close to the large metal sphere's column), and three
/// large spheres of glass, matte and metal — in that order, as the
/// contract pins down.
pub fn random_scene(rng: &mut rand::rngs::StdRng) -> (world: HittableList)
    ensures
        scene_wf(world),
        world.objects@.len() >= 4,
        world.objects@[0] == ground_sphere(),
        world.objects@[world.objects@.len() - 3] == glass_sphere(),
        world.objects@[world.objects@.len() - 2] == matte_sphere(),
        world.objects@[world.objects@.len() - 1] == metal_sphere(),
        forall|k: int|
            1 <= k < world.objects@.len() - 3 ==> grid_sphere_ok(#[trigger] world.objects@[k]),
{
    let mut world = HittableList::new();
    let ground = Material::Lambertian(
        Lambertian { albedo: Vec3 { x: Fx { m: 32768 }, y: Fx { m: 32768 }, z: Fx { m: 32768 } } },
    );
    world.add(
        Hittable::Sphere(
            Sphere {
                center: Vec3 { x: Fx { m: 0 }, y: Fx { m: -65536000 }, z: Fx { m: 0 } },
                radius: Fx { m: 65536000 },
                material: ground,
            },
        ),
    );
    let mut gx: i64 = 0;
    while gx < 22
        invariant
            scene_wf(world),
            0 <= gx <= 22,
            world.objects@.len() >= 1,
            world.objects@[0] == ground_sphere(),
            forall|k: int|
                1 <= k < world.objects@.len() ==> grid_sphere_ok(#[trigger] world.objects@[k]),
        decreases 22 - gx,
    {
        let mut gz: i64 = 0;
        while gz < 22
            invariant
                scene_wf(world),
                0 <= gx < 22,
                0 <= gz <= 22,
                world.objects@.len() >= 1,
                world.objects@[0] == ground_sphere(),
                forall|k: int|
                    1 <= k < world.objects@.len() ==> grid_sphere_ok(
                        #[trigger] world.objects@[k],
                    ),
            decreases 22 - gz,
        {
            let choose_mat = rand_below(rng, 65536) as i64;
            let cx = Fx { m: (gx - 11) * SCALE + (rand_below(rng, 58982) as i64) };
            let cz = Fx { m: (gz - 11) * SCALE + (rand_below(rng, 58982) as i64) };
            let center = Vec3 { x: cx, y: Fx { m: 13107 }, z: cz };
            let gap = center - Vec3 { x: Fx { m: 4 * SCALE }, y: Fx { m: 13107 }, z: Fx { m: 0 } };
            proof {
                lemma_len_sqred_bounded(gap@, 16 * SCALE as int);
            }
            let gl = gap.len();
            if gl.m > 58982 {
                let material: Material = if choose_mat < 26214 {
                    let a1 = Vec3::random(rng);
                    let a2 = Vec3::random(rng);
                    proof {
                        lemma_mul_unit_channels(a1@, a2@);
                    }
                    Material::Lambertian(Lambertian { albedo: a1 * a2 })
                } else if choose_mat < 45875 {
                    let a1 = Vec3::random(rng);
                    let a2 = Vec3::random(rng);
                    proof {
                        lemma_mul_unit_channels(a1@, a2@);
                    }
                    let fuzz = Fx { m: rand_below(rng, 13107) as i64 };
                    Material::Metal(Metal { albedo: a1 * a2, fuzz })
                } else {
                    Material::Dielectric(Dielectric { ir: Fx { m: 98304 } })
                };
                world.add(
                    Hittable::Sphere(Sphere { center, radius: Fx { m: 13107 }, material }),
                );
            }
            gz = gz + 1;
        }
        gx = gx + 1;
    }
    world.add(
        Hittable::Sphere(
            Sphere {
                center: Vec3 { x: Fx { m: 0 }, y: Fx { m: 65536 }, z: Fx { m: 0 } },
                radius: Fx { m: 65536 },
                material: Material::Dielectric(Dielectric { ir: Fx { m: 98304 } }),
            },
        ),
    );
    world.add(
        Hittable::Sphere(
            Sphere {
                center: Vec3 { x: Fx { m: -4 * 65536 }, y: Fx { m: 65536 }, z: Fx { m: 0 } },
                radius: Fx { m: 65536 },
                material: Material::Lambertian(
                    Lambertian {
                        albedo: Vec3 { x: Fx { m: 26214 }, y: Fx { m: 13107 }, z: Fx { m: 6553 } },
                    },
                ),
            },
        ),
    );
    world.add(
        Hittable::Sphere(
            Sphere {
                center: Vec3 { x: Fx { m: 4 * 65536 }, y: Fx { m: 65536 }, z: Fx { m: 0 } },
                radius: Fx { m: 65536 },
                material: Material::Metal(
                    Metal {
                        albedo: Vec3 { x: Fx { m: 45875 }, y: Fx { m: 39321 }, z: Fx { m: 32768 } },
                        fuzz: Fx { m: 0 },
                    },
                ),
            },
        ),
    );
    world
}

} // verus!
