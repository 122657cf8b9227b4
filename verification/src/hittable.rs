//! Intersection records and the composite scene list.

use vstd::prelude::*;
use crate::fx::{Fx, SCALE, fits};
use crate::vec3::{
    Vec3, Point3, V3, v3_neg, v3_fits, v3_bounded, dot_val, norm2_raw, VEC_LIMIT,
    lemma_dot_neg_right,
};
use crate::ray::Ray;
use crate::material::{Material, material_wf};
use crate::sphere::{
    Sphere, sphere_wf, ray_wf, hit_t_of, hit_point_of, front_face_of, normal_of, T_LIMIT,
};

verus! {

/// The largest componentwise magnitude a stored surface normal may
/// have (a true normal is close to unit length; the intersection
/// routine refuses hits whose rounded normal strays far beyond that).
pub const NORMAL_LIMIT: i64 = 4 * 65536;

/// The least raw squared length a stored surface normal may have.
pub const NORMAL_MIN2: i64 = 32768 * 32768;

/// What an intersection query reports: the hit point, the surface
/// normal oriented against the ray, the ray parameter, which side was
/// struck, and the surface's material.
#[derive(Clone, Copy, PartialEq, Eq, Structural, Debug)]
pub struct HitRecord {
    pub p: Point3,
    pub normal: Vec3,
    pub material: Material,
    pub t: Fx,
    pub front_face: bool,
}

/// The bounds every stored normal satisfies: bounded components and a
/// length not far below unit.
pub open spec fn normal_in_range(n: V3) -> bool {
    v3_bounded(n, NORMAL_LIMIT as int) && norm2_raw(n) >= NORMAL_MIN2
}

/// Well-formedness of a hit record: a usable normal and a well-formed
/// material.
pub open spec fn hit_record_wf(hr: HitRecord) -> bool {
    normal_in_range(hr.normal@) && material_wf(hr.material)
}

impl HitRecord {
    /// Orients the stored normal against the incoming ray: keeps the
    /// outward normal when the ray arrives from outside
    /// (`dot(dir, outward) < 0`), else stores its negation, so that
    /// `dot(dir, normal) <= 0` always holds.
    pub fn set_face_normal(&mut self, ray: &Ray, outward_normal: Vec3)
        requires
            v3_bounded(ray.dir@, VEC_LIMIT as int),
            v3_bounded(outward_normal@, VEC_LIMIT as int),
            fits(dot_val(ray.dir@, outward_normal@)),
            v3_fits(v3_neg(outward_normal@)),
        ensures
            final(self).front_face == (dot_val(ray.dir@, outward_normal@) < 0),
            final(self).front_face ==> final(self).normal@ == outward_normal@,
            !final(self).front_face ==> final(self).normal@ == v3_neg(outward_normal@),
            dot_val(ray.dir@, final(self).normal@) <= 0,
            final(self).p == old(self).p,
            final(self).t == old(self).t,
            final(self).material == old(self).material,
    {
        let d = ray.dir.dot(outward_normal);
        self.front_face = d.m < 0;
        if self.front_face {
            self.normal = outward_normal;
        } else {
            self.normal = Vec3 {
                x: Fx { m: -outward_normal.x.m },
                y: Fx { m: -outward_normal.y.m },
                z: Fx { m: -outward_normal.z.m },
            };
            proof {
                lemma_dot_neg_right(ray.dir@, outward_normal@);
            }
        }
    }
}

/// The closed set of geometries an intersection query can meet.
#[derive(Clone, Copy, PartialEq, Eq, Structural, Debug)]
pub enum Hittable {
    Sphere(Sphere),
}

/// Well-formedness of one scene object: sound geometry and a
/// well-formed material.
pub open spec fn hittable_wf(h: Hittable) -> bool {
    match h {
        Hittable::Sphere(s) => sphere_wf(s) && material_wf(s.material),
    }
}

/// The parameter at which a ray hits one object inside `(tmin, tmax)`.
pub open spec fn object_hit_t(h: Hittable, r: Ray, tmin: int, tmax: int) -> Option<int> {
    match h {
        Hittable::Sphere(s) => hit_t_of(s, r, tmin, tmax),
    }
}

/// The surface data a hit record must report for the object it came
/// from, at its own parameter.
pub open spec fn record_matches(h: Hittable, r: Ray, hr: HitRecord) -> bool {
    match h {
        Hittable::Sphere(s) => {
            &&& hr.p@ == hit_point_of(s, r, hr.t.m as int)
            &&& hr.front_face == front_face_of(s, r, hr.t.m as int)
            &&& hr.normal@ == normal_of(s, r, hr.t.m as int)
            &&& hr.material == s.material
        },
    }
}

impl Hittable {
    /// The nearest intersection of `ray` with this object strictly
    /// between `tmin` and `tmax`, if any.
    pub fn hit(&self, ray: &Ray, tmin: Fx, tmax: Fx) -> (res: Option<HitRecord>)
        requires
            hittable_wf(*self),
            ray_wf(*ray),
            -T_LIMIT <= tmin.m <= T_LIMIT,
            -T_LIMIT <= tmax.m <= T_LIMIT,
        ensures
            match res {
                Some(hr) => {
                    &&& object_hit_t(*self, *ray, tmin.m as int, tmax.m as int) == Some(
                        hr.t.m as int,
                    )
                    &&& tmin.m < hr.t.m < tmax.m
                    &&& record_matches(*self, *ray, hr)
                    &&& dot_val(ray.dir@, hr.normal@) <= 0
                    &&& hit_record_wf(hr)
                },
                None => object_hit_t(*self, *ray, tmin.m as int, tmax.m as int) is None,
            },
    {
        match self {
            Hittable::Sphere(s) => s.hit(ray, tmin, tmax),
        }
    }
}

/// An ordered collection of geometries; a query reports the closest
/// hit, so insertion order does not affect the rendered result.
#[derive(Debug)]
pub struct HittableList {
    pub objects: Vec<Hittable>,
}

impl HittableList {
    /// An empty scene.
    pub fn new() -> (r: HittableList)
        ensures
            r.objects@.len() == 0,
    {
        HittableList { objects: Vec::new() }
    }

    /// Removes every object.
    pub fn clear(&mut self)
        ensures
            final(self).objects@.len() == 0,
    {
        self.objects = Vec::new();
    }

    /// Appends an object to the scene.
    pub fn add(&mut self, object: Hittable)
        ensures
            final(self).objects@ == old(self).objects@.push(object),
    {
        self.objects.push(object);
    }
}

/// Well-formedness of a scene: every object is well-formed.
pub open spec fn scene_wf(l: HittableList) -> bool {
    forall|i: int| 0 <= i < l.objects@.len() ==> hittable_wf(#[trigger] l.objects@[i])
}

/// The winner of scanning the first `i` objects with a shrinking upper
/// bound, as the composite query does: each object is asked for a hit
/// below the best parameter so far, so the nearest surface wins.  The
/// result is the winning index and its parameter.
pub open spec fn list_best(objs: Seq<Hittable>, r: Ray, tmin: int, tmax: int, i: int) -> Option<
    (int, int),
>
    decreases i,
{
    if i <= 0 {
        None
    } else {
        let prev = list_best(objs, r, tmin, tmax, i - 1);
        let bound = match prev {
            Some(p) => p.1,
            None => tmax,
        };
        match object_hit_t(objs[i - 1], r, tmin, bound) {
            Some(t) => Some((i - 1, t)),
            None => prev,
        }
    }
}

/// A reported hit parameter lies strictly inside the query bounds.
pub proof fn lemma_object_hit_range(h: Hittable, r: Ray, tmin: int, tmax: int, t: int)
    requires
        object_hit_t(h, r, tmin, tmax) == Some(t),
    ensures
        tmin < t < tmax,
{
    match h {
        Hittable::Sphere(s) => crate::sphere::lemma_hit_t_range(s, r, tmin, tmax, t),
    }
}

/// Widening the upper bound of a query that already reports a hit
/// reports the same hit.
pub proof fn lemma_object_hit_shrink(h: Hittable, r: Ray, tmin: int, b1: int, b2: int, t: int)
    requires
        crate::sphere::a_of(r) > 0,
        b1 <= b2,
        object_hit_t(h, r, tmin, b1) == Some(t),
    ensures
        object_hit_t(h, r, tmin, b2) == Some(t),
{
    match h {
        Hittable::Sphere(s) => crate::sphere::lemma_hit_t_shrink(s, r, tmin, b1, b2, t),
    }
}

/// The law of the composite scan: when the scan of the first `m`
/// objects reports a winner, that winner's own query over the full
/// range reports exactly the winning parameter, and no other scanned
/// object hits strictly nearer — the closest surface wins, never a
/// farther one.  When it reports nothing, no scanned object hits at
/// all.
pub proof fn lemma_list_best_nearest(objs: Seq<Hittable>, r: Ray, tmin: int, tmax: int, m: int)
    requires
        0 <= m <= objs.len(),
        crate::sphere::a_of(r) > 0,
    ensures
        match list_best(objs, r, tmin, tmax, m) {
            None => forall|k: int|
                0 <= k < m ==> object_hit_t(#[trigger] objs[k], r, tmin, tmax) is None,
            Some(p) => {
                &&& 0 <= p.0 < m
                &&& tmin < p.1 < tmax
                &&& object_hit_t(objs[p.0], r, tmin, tmax) == Some(p.1)
                &&& forall|k: int|
                    0 <= k < m && k != p.0 ==> object_hit_t(
                        #[trigger] objs[k],
                        r,
                        tmin,
                        p.1,
                    ) is None
            },
        },
    decreases m,
{
    if m > 0 {
        lemma_list_best_nearest(objs, r, tmin, tmax, m - 1);
        let prev = list_best(objs, r, tmin, tmax, m - 1);
        let bound = match prev {
            Some(p) => p.1,
            None => tmax,
        };
        match object_hit_t(objs[m - 1], r, tmin, bound) {
            Some(t) => {
                lemma_object_hit_range(objs[m - 1], r, tmin, bound, t);
                lemma_object_hit_shrink(objs[m - 1], r, tmin, bound, tmax, t);
                assert forall|k: int| 0 <= k < m && k != m - 1 implies object_hit_t(
                    #[trigger] objs[k],
                    r,
                    tmin,
                    t,
                ) is None by {
                    if object_hit_t(objs[k], r, tmin, t) is Some {
                        let t2 = object_hit_t(objs[k], r, tmin, t)->0;
                        lemma_object_hit_range(objs[k], r, tmin, t, t2);
                        match prev {
                            Some(p) => {
                                if k == p.0 {
                                    lemma_object_hit_shrink(objs[k], r, tmin, t, tmax, t2);
                                } else {
                                    lemma_object_hit_shrink(objs[k], r, tmin, t, p.1, t2);
                                }
                            },
                            None => {
                                lemma_object_hit_shrink(objs[k], r, tmin, t, tmax, t2);
                            },
                        }
                    }
                }
            },
            None => {
            },
        }
    }
}

impl HittableList {
    /// The nearest hit of `ray` against the whole scene strictly
    /// between `tmin` and `tmax`: scans every object, shrinking the
    /// upper bound to the best parameter found, so the returned
    /// record belongs to the closest surface along the ray.
    pub fn hit(&self, ray: &Ray, tmin: Fx, tmax: Fx) -> (res: Option<HitRecord>)
        requires
            scene_wf(*self),
            ray_wf(*ray),
            -T_LIMIT <= tmin.m <= T_LIMIT,
            -T_LIMIT <= tmax.m <= T_LIMIT,
        ensures
            match res {
                Some(hr) => {
                    let b = list_best(
                        self.objects@,
                        *ray,
                        tmin.m as int,
                        tmax.m as int,
                        self.objects@.len() as int,
                    );
                    &&& b is Some
                    &&& hr.t.m == (b->0).1
                    &&& 0 <= (b->0).0 < self.objects@.len()
                    &&& record_matches(self.objects@[(b->0).0], *ray, hr)
                    &&& tmin.m < hr.t.m < tmax.m
                    &&& dot_val(ray.dir@, hr.normal@) <= 0
                    &&& hit_record_wf(hr)
                },
                None => list_best(
                    self.objects@,
                    *ray,
                    tmin.m as int,
                    tmax.m as int,
                    self.objects@.len() as int,
                ) is None,
            },
    {
        let mut hit_anything: Option<HitRecord> = None;
        let mut closest_so_far: Fx = tmax;
        let n = self.objects.len();
        let mut i: usize = 0;
        while i < n
            invariant
                i <= n,
                n == self.objects@.len(),
                scene_wf(*self),
                ray_wf(*ray),
                -T_LIMIT <= tmin.m <= T_LIMIT,
                -T_LIMIT <= tmax.m <= T_LIMIT,
                -T_LIMIT <= closest_so_far.m <= T_LIMIT,
                match hit_anything {
                    Some(hr) => {
                        let b = list_best(self.objects@, *ray, tmin.m as int, tmax.m as int, i as int);
                        &&& b is Some
                        &&& hr.t.m == (b->0).1
                        &&& closest_so_far.m == hr.t.m
                        &&& 0 <= (b->0).0 < i
                        &&& record_matches(self.objects@[(b->0).0], *ray, hr)
                        &&& tmin.m < hr.t.m < tmax.m
                        &&& dot_val(ray.dir@, hr.normal@) <= 0
                        &&& hit_record_wf(hr)
                    },
                    None => {
                        &&& list_best(self.objects@, *ray, tmin.m as int, tmax.m as int, i as int)
                            is None
                        &&& closest_so_far.m == tmax.m
                    },
                },
            decreases n - i,
        {
            let obj = &self.objects[i];
            match obj.hit(ray, tmin, closest_so_far) {
                Some(hr2) => {
                    closest_so_far = hr2.t;
                    hit_anything = Some(hr2);
                },
                None => {},
            }
            i = i + 1;
        }
        hit_anything
    }
}

} // verus!
