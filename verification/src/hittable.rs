//! Geometry: spheres, the intersection record, and the aggregate whose
//! `hit` always returns the closest intersection among its members.
use vstd::prelude::*;
use crate::fixed::{
    abs1, tdiv, fmul_s, fdiv_s, fsqrt_s, isqrt_s,
    fmul, fdiv, fsqrt,
    lemma_isqrt_property, lemma_tdiv_monotone_all,
};
use crate::algebra::{
    Vec3, Point, Vector, in_box, sub_s, neg_s, dot_s, normalize_s,
    lemma_normalize_in_box, lemma_scale_box, lemma_dot_bound,
};
use crate::ray::{Ray, ray_wf, at_s};
use crate::material::Material;

verus! {

/// What an intersection produces: the point hit, the outward-facing unit
/// normal, the ray parameter, whether the geometric normal already faced
/// the ray, and the material of the surface.
#[derive(Clone, Copy, Debug, PartialEq, Eq, Structural)]
pub struct HitRecord {
    pub p: Point,
    pub normal: Vector,
    pub t: i64,
    pub front_face: bool,
    pub material: Material,
}

/// The record built from a geometric normal: the normal is normalized,
/// then flipped against the ray when it points with it.
pub open spec fn make_record_s(normal: Vec3, t: int, r: Ray, m: Material) -> HitRecord {
    let unit = normalize_s(normal);
    let front = dot_s(unit, r.direction) < 0;
    HitRecord {
        p: at_s(r, t),
        normal: if front { unit } else { neg_s(unit) },
        t: t as i64,
        front_face: front,
        material: m,
    }
}

impl HitRecord {
    /// Builds the record for parameter `t`, orienting the normal against
    /// the ray.
    pub fn new(normal: Vector, t: i64, ray: &Ray, material: Material) -> (r: HitRecord)
        requires
            in_box(normal, 0x4000_0000),
            1 <= dot_s(normal, normal),
            ray_wf(*ray),
            0 <= t <= 0x80_0000_0000,
        ensures
            r == make_record_s(normal, t as int, *ray, material),
            in_box(r.normal, 131072),
    {
        proof {
            lemma_normalize_in_box(normal);
        }
        let unit = normal.normalize();
        let p = ray.at(t);
        let d = unit.dot(ray.direction());
        let front_face = d < 0;
        let oriented = if front_face { unit } else { unit.neg() };
        HitRecord { p, normal: oriented, t, front_face, material }
    }
}

/// A sphere; a negative radius flips the normal convention to model a
/// hollow shell's inner surface.
#[derive(Clone, Copy, Debug, PartialEq, Eq, Structural)]
pub struct Sphere {
    pub center: Point,
    pub radius: i64,
    pub material: Material,
}

/// A sphere the tracer works on: center in the world box, radius nonzero
/// and bounded.
pub open spec fn sphere_wf(s: Sphere) -> bool {
    in_box(s.center, 0x200_0000) && s.radius != 0 && abs1(s.radius as int) <= 0x200_0000
        && crate::material::material_wf(s.material)
}

/// Quadratic coefficients of `|O + tD - C|^2 = r^2` in fixed point.
pub open spec fn sphere_a(s: Sphere, r: Ray) -> int {
    dot_s(r.direction, r.direction)
}

pub open spec fn sphere_half_b(s: Sphere, r: Ray) -> int {
    dot_s(sub_s(r.origin, s.center), r.direction)
}

pub open spec fn sphere_c(s: Sphere, r: Ray) -> int {
    dot_s(sub_s(r.origin, s.center), sub_s(r.origin, s.center))
        - fmul_s(s.radius as int, s.radius as int)
}

pub open spec fn sphere_disc(s: Sphere, r: Ray) -> int {
    fmul_s(sphere_half_b(s, r), sphere_half_b(s, r)) - fmul_s(sphere_a(s, r), sphere_c(s, r))
}

/// The two quadratic roots, smaller first.
pub open spec fn sphere_root1(s: Sphere, r: Ray) -> int {
    fdiv_s(-sphere_half_b(s, r) - fsqrt_s(sphere_disc(s, r)), sphere_a(s, r))
}

pub open spec fn sphere_root2(s: Sphere, r: Ray) -> int {
    fdiv_s(-sphere_half_b(s, r) + fsqrt_s(sphere_disc(s, r)), sphere_a(s, r))
}

/// Root selection: the smaller root when it lies strictly within the
/// open interval, else the larger, else no hit.
pub open spec fn sphere_sel(s: Sphere, r: Ray, tmin: int, tmax: int) -> Option<int> {
    if sphere_disc(s, r) < 0 {
        None
    } else if tmin < sphere_root1(s, r) < tmax {
        Some(sphere_root1(s, r))
    } else if tmin < sphere_root2(s, r) < tmax {
        Some(sphere_root2(s, r))
    } else {
        None
    }
}

/// The geometric normal at parameter `t`: `(P - C) / radius`, whose sign
/// encodes the orientation convention.
pub open spec fn geo_normal_s(s: Sphere, r: Ray, t: int) -> Vec3 {
    let pc = sub_s(at_s(r, t), s.center);
    Vec3 {
        x: fdiv_s(pc.x as int, s.radius as int) as i64,
        y: fdiv_s(pc.y as int, s.radius as int) as i64,
        z: fdiv_s(pc.z as int, s.radius as int) as i64,
    }
}

/// The geometric normal is usable when it is bounded and at least one
/// grid step long; a root whose normal degenerates is treated as a miss.
pub open spec fn normal_ok(s: Sphere, r: Ray, t: int) -> bool {
    in_box(geo_normal_s(s, r, t), 0x4000_0000)
        && 1 <= dot_s(geo_normal_s(s, r, t), geo_normal_s(s, r, t))
}

/// The full intersection query: the selected root, kept only when its
/// normal is usable.
pub open spec fn sphere_hit_s(s: Sphere, r: Ray, tmin: int, tmax: int) -> Option<int> {
    match sphere_sel(s, r, tmin, tmax) {
        Option::None => Option::None,
        Option::Some(t) => if normal_ok(s, r, t) {
            Option::Some(t)
        } else {
            Option::None
        },
    }
}

impl Sphere {
    pub fn new(center: Point, radius: i64, material: Material) -> (r: Sphere)
        requires
            in_box(center, 0x200_0000),
            radius != 0,
            abs1(radius as int) <= 0x200_0000,
            crate::material::material_wf(material),
        ensures
            r == (Sphere { center, radius, material }),
            sphere_wf(r),
    {
        Sphere { center, radius, material }
    }

    /// Solves the quadratic and returns the nearest acceptable root
    /// strictly inside `(t_min, t_max)`, with its record. A miss means no
    /// root lies in the open interval — or, in a rounding-degenerate
    /// case the spec `normal_ok` names, that the root's fixed-point
    /// normal is unusably large or shorter than one grid step.
    pub fn hit(&self, ray: &Ray, t_min: i64, t_max: i64) -> (res: Option<HitRecord>)
        requires
            sphere_wf(*self),
            ray_wf(*ray),
            0 <= t_min <= 0x80_0000_0000,
            0 <= t_max <= 0x80_0000_0000,
        ensures
            match res {
                Option::None => sphere_hit_s(*self, *ray, t_min as int, t_max as int) is None,
                Option::Some(rec) => {
                    &&& sphere_hit_s(*self, *ray, t_min as int, t_max as int)
                        == Option::Some(rec.t as int)
                    &&& rec == make_record_s(
                        geo_normal_s(*self, *ray, rec.t as int), rec.t as int, *ray, self.material)
                    &&& t_min < rec.t < t_max
                    &&& in_box(rec.normal, 131072)
                },
            },
    {
        let oc = ray.origin().sub(self.center);
        let a = ray.direction().dot(ray.direction());
        let half_b = oc.dot(ray.direction());
        let csq = oc.dot(oc);
        proof {
            lemma_dot_bound(ray.direction, ray.direction, a as int, 0x10_0000, 0x10_0000);
            lemma_dot_bound(oc, ray.direction, half_b as int, 0x400_0000, 0x10_0000);
            lemma_dot_bound(oc, oc, csq as int, 0x400_0000, 0x400_0000);
        }
        let rr = fmul(self.radius, self.radius);
        proof {
            assert(abs1(self.radius as int) * abs1(self.radius as int)
                <= 0x200_0000 * 0x200_0000) by (nonlinear_arith)
                requires 0 <= abs1(self.radius as int) <= 0x200_0000,
            ;
        }
        let c = csq - rr;
        let f1 = fmul(half_b, half_b);
        let f2 = fmul(a, c);
        proof {
            assert(abs1(f1 as int) <= 0x3_0000_0000_0000 && abs1(f2 as int) <= 0x2_0000_0000_0000)
                by (nonlinear_arith)
                requires
                    abs1(f1 as int) * 65536 <= abs1(half_b as int) * abs1(half_b as int),
                    abs1(half_b as int) <= 0x1_8000_0000,
                    abs1(f2 as int) * 65536 <= abs1(a as int) * abs1(c as int),
                    abs1(a as int) <= 0x300_0000,
                    abs1(c as int) <= 0x80_0000_0000,
            ;
        }
        let disc = f1 - f2;
        if disc < 0 {
            return Option::None;
        }
        let sqd = fsqrt(disc);
        assert(sqd <= 0x80_0000_0000) by (nonlinear_arith)
            requires
                0 <= sqd,
                (sqd as int) * (sqd as int) <= (disc as int) * 65536,
                disc <= 0x5_0000_0000_0000,
        ;
        let mut root = fdiv(-half_b - sqd, a);
        if root <= t_min || root >= t_max {
            root = fdiv(-half_b + sqd, a);
            if root <= t_min || root >= t_max {
                return Option::None;
            }
        }
        let p = ray.at(root);
        proof {
            lemma_scale_box(ray.direction, root as int, 0x10_0000, 0x80_0000_0000);
        }
        let pc = p.sub(self.center);
        let ng = Vec3 {
            x: fdiv(pc.x, self.radius),
            y: fdiv(pc.y, self.radius),
            z: fdiv(pc.z, self.radius),
        };
        let bounded = ng.x >= -0x4000_0000 && ng.x <= 0x4000_0000
            && ng.y >= -0x4000_0000 && ng.y <= 0x4000_0000
            && ng.z >= -0x4000_0000 && ng.z <= 0x4000_0000;
        if !bounded {
            return Option::None;
        }
        let nsq = ng.square_length();
        if nsq < 1 {
            return Option::None;
        }
        Option::Some(HitRecord::new(ng, root, ray, self.material))
    }
}

/// The smaller root never exceeds the larger.
proof fn lemma_roots_ordered(s: Sphere, r: Ray)
    requires
        sphere_disc(s, r) >= 0,
        sphere_a(s, r) >= 1,
    ensures
        sphere_root1(s, r) <= sphere_root2(s, r),
{
    lemma_isqrt_property(sphere_disc(s, r) * 65536);
    let hb = sphere_half_b(s, r);
    let sq = fsqrt_s(sphere_disc(s, r));
    lemma_tdiv_monotone_all((-hb - sq) * 65536, (-hb + sq) * 65536, sphere_a(s, r));
}

/// Widening the far bound preserves a hit and its parameter.
proof fn lemma_hit_widen(s: Sphere, r: Ray, tmin: int, narrow: int, wide: int, t: int)
    requires
        narrow <= wide,
        sphere_a(s, r) >= 1,
        sphere_hit_s(s, r, tmin, narrow) == Option::Some(t),
    ensures
        sphere_hit_s(s, r, tmin, wide) == Option::Some(t),
{
    lemma_roots_ordered(s, r);
}

/// A query that misses under a narrow far bound can only hit at or
/// beyond it under a wider one.
proof fn lemma_hit_miss_narrow(s: Sphere, r: Ray, tmin: int, narrow: int, wide: int, t: int)
    requires
        narrow <= wide,
        sphere_a(s, r) >= 1,
        sphere_hit_s(s, r, tmin, narrow) is None,
        sphere_hit_s(s, r, tmin, wide) == Option::Some(t),
    ensures
        t >= narrow,
{
    lemma_roots_ordered(s, r);
}

/// Anything a ray can intersect: a primitive, or an aggregate of them.
pub enum Hittable {
    Sphere(Sphere),
    Collection(HittableCollection),
}

/// The member's own well-formedness.
pub open spec fn hittable_wf(h: Hittable) -> bool {
    match h {
        Hittable::Sphere(s) => sphere_wf(s),
        Hittable::Collection(c) => coll_wf(c),
    }
}

impl Hittable {
    /// The uniform intersection query, dispatched to the variant.
    pub fn hit(&self, ray: &Ray, t_min: i64, t_max: i64) -> (res: Option<HitRecord>)
        requires
            hittable_wf(*self),
            ray_wf(*ray),
            0 <= t_min <= 0x80_0000_0000,
            0 <= t_max <= 0x80_0000_0000,
        ensures
            match *self {
                Hittable::Sphere(s) => match res {
                    Option::None => sphere_hit_s(s, *ray, t_min as int, t_max as int) is None,
                    Option::Some(rec) => sphere_hit_s(s, *ray, t_min as int, t_max as int)
                        == Option::Some(rec.t as int) && t_min < rec.t < t_max,
                },
                Hittable::Collection(c) => match res {
                    Option::None => forall|i: int| 0 <= i < c.list@.len()
                        ==> sphere_hit_s(#[trigger] c.list@[i], *ray, t_min as int,
                            t_max as int) is None,
                    Option::Some(rec) => t_min < rec.t < t_max
                        && forall|i: int| 0 <= i < c.list@.len()
                            ==> match sphere_hit_s(#[trigger] c.list@[i], *ray,
                                    t_min as int, t_max as int) {
                                Option::Some(mt) => rec.t <= mt,
                                Option::None => true,
                            },
                },
            },
    {
        match self {
            Hittable::Sphere(s) => s.hit(ray, t_min, t_max),
            Hittable::Collection(c) => c.hit(ray, t_min, t_max),
        }
    }
}

/// An ordered collection of spheres, queried as one aggregate.
#[derive(Debug)]
pub struct HittableCollection {
    pub list: Vec<Sphere>,
}

/// Every member lies in the world box.
pub open spec fn coll_wf(c: HittableCollection) -> bool {
    forall|i: int| 0 <= i < c.list@.len() ==> sphere_wf(#[trigger] c.list@[i])
}

impl HittableCollection {
    pub fn new() -> (r: HittableCollection)
        ensures r.list@.len() == 0, coll_wf(r),
    {
        HittableCollection { list: Vec::new() }
    }

    /// Appends a member. A sphere grows the member list by one; a whole
    /// collection is folded in member by member (the list grows by that
    /// collection's length), which leaves the closest-hit result
    /// unchanged.
    pub fn add(&mut self, hittable: Hittable)
        requires hittable_wf(hittable),
        ensures
            final(self).list@ == old(self).list@ + (match hittable {
                Hittable::Sphere(s) => seq![s],
                Hittable::Collection(c) => c.list@,
            }),
            coll_wf(*old(self)) ==> coll_wf(*final(self)),
    {
        match hittable {
            Hittable::Sphere(s) => {
                self.list.push(s);
                proof {
                    assert(self.list@ == old(self).list@ + seq![s]);
                }
            },
            Hittable::Collection(c) => {
                let mut members = c.list;
                self.list.append(&mut members);
            },
        }
    }

    /// Linear scan that narrows the far bound to the closest hit found so
    /// far: the result is never farther than any member's own hit within
    /// the same bounds, and a miss means every member misses.
    pub fn hit(&self, ray: &Ray, t_min: i64, t_max: i64) -> (res: Option<HitRecord>)
        requires
            coll_wf(*self),
            ray_wf(*ray),
            0 <= t_min <= 0x80_0000_0000,
            0 <= t_max <= 0x80_0000_0000,
        ensures
            match res {
                Option::None => forall|i: int| 0 <= i < self.list@.len()
                    ==> sphere_hit_s(#[trigger] self.list@[i], *ray, t_min as int, t_max as int)
                        is None,
                Option::Some(rec) => {
                    &&& exists|i: int| 0 <= i < self.list@.len()
                        && sphere_hit_s(#[trigger] self.list@[i], *ray, t_min as int, t_max as int)
                            == Option::Some(rec.t as int)
                        && rec == make_record_s(
                            geo_normal_s(self.list@[i], *ray, rec.t as int),
                            rec.t as int, *ray, self.list@[i].material)
                    &&& forall|i: int| 0 <= i < self.list@.len()
                        ==> match sphere_hit_s(#[trigger] self.list@[i], *ray,
                                t_min as int, t_max as int) {
                            Option::Some(mt) => rec.t <= mt,
                            Option::None => true,
                        }
                    &&& t_min < rec.t < t_max
                    &&& in_box(rec.normal, 131072)
                },
            },
    {
        let mut closest: i64 = t_max;
        let mut best: Option<HitRecord> = Option::None;
        let mut idx: usize = 0;
        while idx < self.list.len()
            invariant
                0 <= idx <= self.list@.len(),
                coll_wf(*self),
                ray_wf(*ray),
                0 <= t_min <= 0x80_0000_0000,
                0 <= t_max <= 0x80_0000_0000,
                0 <= closest <= t_max,
                match best {
                    Option::None => closest == t_max && forall|i: int| 0 <= i < idx
                        ==> sphere_hit_s(#[trigger] self.list@[i], *ray,
                            t_min as int, t_max as int) is None,
                    Option::Some(rec) => {
                        &&& closest == rec.t
                        &&& t_min < rec.t < t_max
                        &&& in_box(rec.normal, 131072)
                        &&& exists|i: int| 0 <= i < idx
                            && sphere_hit_s(#[trigger] self.list@[i], *ray,
                                t_min as int, t_max as int) == Option::Some(rec.t as int)
                            && rec == make_record_s(
                                geo_normal_s(self.list@[i], *ray, rec.t as int),
                                rec.t as int, *ray, self.list@[i].material)
                        &&& forall|i: int| 0 <= i < idx
                            ==> match sphere_hit_s(#[trigger] self.list@[i], *ray,
                                    t_min as int, t_max as int) {
                                Option::Some(mt) => rec.t <= mt,
                                Option::None => true,
                            }
                    },
                },
            decreases self.list@.len() - idx,
        {
            let sp = self.list[idx];
            let got = sp.hit(ray, t_min, closest);
            proof {
                assert(sphere_a(sp, *ray) >= 1);
            }
            match got {
                Option::Some(rec) => {
                    proof {
                        lemma_hit_widen(sp, *ray, t_min as int, closest as int, t_max as int,
                            rec.t as int);
                    }
                    closest = rec.t;
                    best = Option::Some(rec);
                },
                Option::None => {
                    proof {
                        if best is Some {
                            let brec = best->Some_0;
                            if sphere_hit_s(sp, *ray, t_min as int, t_max as int) is Some {
                                let mt = sphere_hit_s(sp, *ray, t_min as int, t_max as int)->Some_0;
                                lemma_hit_miss_narrow(sp, *ray, t_min as int, closest as int,
                                    t_max as int, mt);
                            }
                        } else {
                            if sphere_hit_s(sp, *ray, t_min as int, t_max as int) is Some {
                                let mt = sphere_hit_s(sp, *ray, t_min as int, t_max as int)->Some_0;
                                lemma_hit_miss_narrow(sp, *ray, t_min as int, closest as int,
                                    t_max as int, mt);
                            }
                        }
                    }
                },
            }
            idx = idx + 1;
        }
        best
    }
}

} // verus!
