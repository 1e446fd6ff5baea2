//! The scattering model: diffuse, fuzzy-specular and dielectric
//! materials, as a closed set of variants.
use vstd::prelude::*;
use crate::fixed::{SCALE, abs1, tdiv, fmul_s, fdiv_s, fsqrt_s, fmul, fdiv, fsqrt};
use crate::algebra::{
    Vec3, in_box, add_s, neg_s, scale_s, dot_s, sq_len_s, normalize_s, reflect_s,
    refract_s, lemma_scale_box, lemma_dot_bound, lemma_dot_s_bound, rand_range,
};
use crate::color::Color;
use crate::ray::{Ray, ray_wf};
use crate::hittable::HitRecord;

verus! {

/// Diffuse: scatters around the normal, attenuated by its albedo.
#[derive(Clone, Copy, Debug, PartialEq, Eq, Structural)]
pub struct Lambertian {
    pub albedo: Color,
}

/// Specular with roughness: reflects, perturbed by `fuzz` of a random
/// unit vector.
#[derive(Clone, Copy, Debug, PartialEq, Eq, Structural)]
pub struct Metal {
    pub albedo: Color,
    pub fuzz: i64,
}

/// Clear refractor characterized by its refraction index.
#[derive(Clone, Copy, Debug, PartialEq, Eq, Structural)]
pub struct Dielectric {
    pub refraction_index: i64,
}

/// The closed set of materials a surface can carry.
#[derive(Clone, Copy, Debug, PartialEq, Eq, Structural)]
pub enum Material {
    Lambertian(Lambertian),
    Metal(Metal),
    Dielectric(Dielectric),
}

/// Albedos stay in the unit cube and the other parameters in the ranges
/// the scattering arithmetic supports.
pub open spec fn material_wf(m: Material) -> bool {
    match m {
        Material::Lambertian(l) => crate::color::chans_in(l.albedo, 65536),
        Material::Metal(mt) => crate::color::chans_in(mt.albedo, 65536) && 0 <= mt.fuzz <= 65536,
        Material::Dielectric(d) => 4096 <= d.refraction_index <= 0x10_0000,
    }
}

/// The diffuse scatter direction: the normal plus a unit draw, falling
/// back to the normal itself when the two cancel.
pub open spec fn lambertian_dir_s(normal: Vec3, u: Vec3) -> Vec3 {
    let d = add_s(normal, u);
    if d.x == 0 && d.y == 0 && d.z == 0 {
        normal
    } else {
        d
    }
}

/// The fuzzy specular direction: the normalized reflection perturbed by
/// `fuzz` of a unit draw.
pub open spec fn metal_dir_s(v: Vec3, n: Vec3, fuzz: int, u: Vec3) -> Vec3 {
    add_s(normalize_s(reflect_s(v, n)), scale_s(u, fuzz))
}

impl Lambertian {
    pub fn new(albedo: Color) -> (r: Lambertian)
        ensures r == (Lambertian { albedo }),
    {
        Lambertian { albedo }
    }

    /// Always scatters: direction is the normal plus a random unit
    /// vector, attenuated by the albedo.
    pub fn scatter(&self, _ray: &Ray, hit: &HitRecord) -> (res: Option<(Ray, Color)>)
        requires in_box(hit.normal, 131072),
        ensures
            res is Some,
            ({
                let (scattered, attenuation) = res->Some_0;
                &&& attenuation == self.albedo
                &&& scattered.origin == hit.p
                &&& exists|u: Vec3| in_box(u, 131072)
                    && scattered.direction == #[trigger] lambertian_dir_s(hit.normal, u)
                &&& in_box(scattered.direction, 0x8_0000)
            }),
    {
        let u = Vec3::random_in_unit_sphere();
        let mut scatter_direction = hit.normal.add(u);
        if scatter_direction.near_zero() {
            scatter_direction = hit.normal;
        }
        proof {
            assert(in_box(u, 131072) && scatter_direction
                == lambertian_dir_s(hit.normal, u));
        }
        let scattered = Ray::new(hit.p, scatter_direction);
        Option::Some((scattered, self.albedo))
    }
}

impl Metal {
    /// The fuzz factor must lie in the unit interval.
    pub fn new(albedo: Color, fuzz: i64) -> (r: Metal)
        requires 0 <= fuzz <= 65536,
        ensures r == (Metal { albedo, fuzz }),
    {
        Metal { albedo, fuzz }
    }

    /// Reflects and perturbs by `fuzz`; the ray is absorbed exactly when
    /// the reflection degenerates below the grid, or the perturbed
    /// direction does not point out of the surface. With zero fuzz no
    /// draw enters, so a usable outward reflection always scatters.
    pub fn scatter(&self, ray: &Ray, hit: &HitRecord) -> (res: Option<(Ray, Color)>)
        requires
            in_box(ray.direction, 0x10_0000),
            in_box(hit.normal, 131072),
            0 <= self.fuzz <= 65536,
        ensures
            match res {
                Option::Some((scattered, attenuation)) => {
                    &&& attenuation == self.albedo
                    &&& scattered.origin == hit.p
                    &&& 1 <= sq_len_s(reflect_s(ray.direction, hit.normal))
                    &&& exists|u: Vec3| in_box(u, 131072)
                        && scattered.direction
                            == #[trigger] metal_dir_s(ray.direction, hit.normal,
                                self.fuzz as int, u)
                    &&& dot_s(scattered.direction, hit.normal) > 0
                },
                Option::None => {
                    ||| sq_len_s(reflect_s(ray.direction, hit.normal)) < 1
                    ||| exists|u: Vec3| in_box(u, 131072)
                        && dot_s(#[trigger] metal_dir_s(ray.direction, hit.normal,
                            self.fuzz as int, u), hit.normal) <= 0
                },
            },
            self.fuzz == 0 && 1 <= sq_len_s(reflect_s(ray.direction, hit.normal))
                && dot_s(normalize_s(reflect_s(ray.direction, hit.normal)), hit.normal) > 0
                ==> res is Some,
    {
        let reflected = ray.direction().reflect(hit.normal);
        proof {
            let d = dot_s(ray.direction, hit.normal);
            lemma_dot_s_bound(ray.direction, hit.normal, 0x10_0000, 131072);
            lemma_scale_box(hit.normal, 2 * d, 131072, 0xC0_0000);
        }
        let rsq = reflected.square_length();
        if rsq < 1 {
            return Option::None;
        }
        let unit = reflected.normalize();
        let u = Vec3::random_in_unit_sphere();
        let fz = u.scale(self.fuzz);
        proof {
            lemma_scale_box(u, self.fuzz as int, 131072, 65536);
        }
        let direction = unit.add(fz);
        proof {
            assert(direction == metal_dir_s(ray.direction, hit.normal, self.fuzz as int, u));
            if self.fuzz == 0 {
                crate::fixed::lemma_tdiv_exact(0, 65536);
                assert((u.x as int) * 0 == 0 && (u.y as int) * 0 == 0 && (u.z as int) * 0 == 0)
                    by (nonlinear_arith);
                assert(fz == (Vec3 { x: 0i64, y: 0i64, z: 0i64 }));
                assert(direction == unit);
            }
        }
        let scattered = Ray::new(hit.p, direction);
        let facing = direction.dot(hit.normal);
        if facing > 0 {
            Option::Some((scattered, self.albedo))
        } else {
            Option::None
        }
    }
}

/// The refraction ratio: the reciprocal index when entering from
/// outside, the index itself when exiting.
pub open spec fn refraction_ratio_s(d: Dielectric, front: bool) -> int {
    if front {
        fdiv_s(65536, d.refraction_index as int)
    } else {
        d.refraction_index as int
    }
}

/// The incidence cosine, clamped to at most one.
pub open spec fn dielectric_cos_s(unit: Vec3, n: Vec3) -> int {
    let c = dot_s(neg_s(unit), n);
    if c > 65536 {
        65536
    } else {
        c
    }
}

/// Schlick's approximation of the Fresnel reflectance.
pub open spec fn schlick_s(cos: int, idx: int) -> int {
    let r0p = fdiv_s(65536 - idx, 65536 + idx);
    let r0 = fmul_s(r0p, r0p);
    let x = 65536 - cos;
    let x2 = fmul_s(x, x);
    let x4 = fmul_s(x2, x2);
    let x5 = fmul_s(x4, x);
    r0 + fmul_s(65536 - r0, x5)
}

/// Total internal reflection: the refraction ratio times the incidence
/// sine exceeds one, so refraction is impossible.
pub open spec fn dielectric_reflects_forced(d: Dielectric, unit: Vec3, n: Vec3, front: bool)
    -> bool {
    let cos = dielectric_cos_s(unit, n);
    let sin = fsqrt_s(abs1(65536 - fmul_s(cos, cos)));
    fmul_s(refraction_ratio_s(d, front), sin) > 65536
}

/// The scattered direction for a given Schlick draw: reflect when
/// refraction is impossible or the draw falls under the reflectance,
/// else refract.
pub open spec fn dielectric_dir_s(d: Dielectric, unit: Vec3, n: Vec3, front: bool, draw: int)
    -> Vec3 {
    let cos = dielectric_cos_s(unit, n);
    if dielectric_reflects_forced(d, unit, n, front)
        || draw < schlick_s(cos, d.refraction_index as int) {
        reflect_s(unit, n)
    } else {
        refract_s(unit, n, refraction_ratio_s(d, front))
    }
}

impl Dielectric {
    /// The index must be positive; the bounds keep the refraction ratio
    /// representable.
    pub fn new(refraction_index: i64) -> (r: Dielectric)
        requires 4096 <= refraction_index <= 0x10_0000,
        ensures r == (Dielectric { refraction_index }),
    {
        Dielectric { refraction_index }
    }

    /// Schlick's closed-form reflectance estimate.
    fn reflectance(&self, cosine: i64) -> (r: i64)
        requires
            4096 <= self.refraction_index <= 0x10_0000,
            -0xC_0000 <= cosine <= 65536,
        ensures
            r == schlick_s(cosine as int, self.refraction_index as int),
    {
        let idx = self.refraction_index;
        let r0p = fdiv(SCALE - idx, SCALE + idx);
        proof {
            assert(abs1(r0p as int) <= 0x10_0000) by (nonlinear_arith)
                requires
                    abs1(r0p as int) * abs1((65536 + idx) as int)
                        <= abs1((65536 - idx) as int) * 65536,
                    4096 <= idx <= 0x10_0000,
            ;
        }
        let r0 = fmul(r0p, r0p);
        proof {
            assert(abs1(r0 as int) <= 0x100_0000) by (nonlinear_arith)
                requires
                    abs1(r0 as int) * 65536 <= abs1(r0p as int) * abs1(r0p as int),
                    abs1(r0p as int) <= 0x10_0000,
            ;
        }
        let x = SCALE - cosine;
        let x2 = fmul(x, x);
        proof {
            assert(abs1(x2 as int) <= 0xB0_0000) by (nonlinear_arith)
                requires
                    abs1(x2 as int) * 65536 <= abs1(x as int) * abs1(x as int),
                    0 <= x <= 0xD_0000,
            ;
        }
        let x4 = fmul(x2, x2);
        proof {
            assert(abs1(x4 as int) <= 0x7900_0000) by (nonlinear_arith)
                requires
                    abs1(x4 as int) * 65536 <= abs1(x2 as int) * abs1(x2 as int),
                    abs1(x2 as int) <= 0xB0_0000,
            ;
        }
        let x5 = fmul(x4, x);
        proof {
            assert(abs1(x5 as int) <= 0x1A_0000_0000) by (nonlinear_arith)
                requires
                    abs1(x5 as int) * 65536 <= abs1(x4 as int) * abs1(x as int),
                    abs1(x4 as int) <= 0x7900_0000,
                    abs1(x as int) <= 0xD_0000,
            ;
        }
        r0 + fmul(SCALE - r0, x5)
    }

    /// Always scatters with white attenuation: reflects when refraction
    /// is impossible or the Schlick draw says so, else refracts.
    pub fn scatter(&self, ray: &Ray, hit: &HitRecord) -> (res: Option<(Ray, Color)>)
        requires
            4096 <= self.refraction_index <= 0x10_0000,
            ray_wf(*ray),
            in_box(hit.normal, 131072),
        ensures
            res is Some,
            ({
                let (scattered, attenuation) = res->Some_0;
                let unit = normalize_s(ray.direction);
                let ratio = refraction_ratio_s(*self, hit.front_face);
                &&& attenuation == (Color { red: 65536, green: 65536, blue: 65536 })
                &&& scattered.origin == hit.p
                &&& (scattered.direction == reflect_s(unit, hit.normal)
                    || scattered.direction == refract_s(unit, hit.normal, ratio))
                &&& dielectric_reflects_forced(*self, unit, hit.normal, hit.front_face)
                    ==> scattered.direction == reflect_s(unit, hit.normal)
                &&& exists|draw: int| 0 <= draw < 65536
                    && scattered.direction == #[trigger] dielectric_dir_s(
                        *self, unit, hit.normal, hit.front_face, draw)
            }),
    {
        let attenuation = Color::new(SCALE, SCALE, SCALE);
        let ratio: i64;
        if hit.front_face {
            ratio = fdiv(SCALE, self.refraction_index);
            proof {
                vstd::arithmetic::div_mod::lemma_div_is_ordered_by_denominator(
                    0x1_0000_0000, self.refraction_index as int, 0x10_0000 as int);
                crate::fixed::lemma_tdiv_exact(4096 as int, 0x10_0000 as int);
                assert(ratio as int == tdiv(0x1_0000_0000, self.refraction_index as int));
                assert(ratio >= 4096);
                assert(ratio <= 0x10_0000) by (nonlinear_arith)
                    requires
                        ratio >= 0,
                        self.refraction_index >= 4096,
                        abs1(ratio as int) * abs1(self.refraction_index as int)
                            <= 0x1_0000_0000,
                ;
            }
        } else {
            ratio = self.refraction_index;
        }
        let unit = ray.direction().normalize();
        let cos0 = unit.neg().dot(hit.normal);
        proof {
            lemma_dot_bound(neg_s(unit), hit.normal, cos0 as int, 131072, 131072);
        }
        let cos_theta = if cos0 > SCALE { SCALE } else { cos0 };
        let c2 = fmul(cos_theta, cos_theta);
        proof {
            crate::fixed::lemma_tdiv_mag((cos_theta as int) * (cos_theta as int), 65536);
            assert(0 <= (cos_theta as int) * (cos_theta as int)
                && abs1(cos_theta as int) * abs1(cos_theta as int) <= 0x90_0000_0000)
                by (nonlinear_arith)
                requires abs1(cos_theta as int) <= 0xC_0000,
            ;
            assert(0 <= c2 <= 0x90_0000);
        }
        let s2: i64 = SCALE - c2;
        let s2a: i64 = if s2 < 0 { -s2 } else { s2 };
        let sin_theta = fsqrt(s2a);
        assert(sin_theta <= 0x10_0000) by (nonlinear_arith)
            requires
                0 <= sin_theta,
                (sin_theta as int) * (sin_theta as int) <= (s2a as int) * 65536,
                s2a <= 0xB1_0000,
        ;
        let rs = fmul(ratio, sin_theta);
        let can_refract = rs <= SCALE;
        let draw = rand_range(0, SCALE);
        let refl = self.reflectance(cos_theta);
        let result_direction = if !can_refract || draw < refl {
            unit.reflect(hit.normal)
        } else {
            unit.refract(hit.normal, ratio)
        };
        proof {
            assert(result_direction == dielectric_dir_s(*self, normalize_s(ray.direction),
                hit.normal, hit.front_face, draw as int));
        }
        let scattered = Ray::new(hit.p, result_direction);
        Option::Some((scattered, attenuation))
    }
}

impl Material {
    /// Dispatches to the variant's scattering rule. `None` means the ray
    /// was absorbed.
    pub fn scatter(&self, ray: &Ray, hit: &HitRecord) -> (res: Option<(Ray, Color)>)
        requires
            material_wf(*self),
            ray_wf(*ray),
            in_box(hit.normal, 131072),
        ensures
            match res {
                Option::Some((scattered, attenuation)) => {
                    &&& scattered.origin == hit.p
                    &&& crate::color::chans_in(attenuation, 65536)
                },
                Option::None => self matches Material::Metal(_),
            },
            match *self {
                Material::Lambertian(l) => res is Some && res->Some_0.1 == l.albedo,
                Material::Metal(m) => res is Some ==> res->Some_0.1 == m.albedo,
                Material::Dielectric(_) => res is Some
                    && res->Some_0.1 == (Color { red: 65536, green: 65536, blue: 65536 }),
            },
    {
        match self {
            Material::Lambertian(l) => l.scatter(ray, hit),
            Material::Metal(m) => m.scatter(ray, hit),
            Material::Dielectric(d) => d.scatter(ray, hit),
        }
    }
}

} // verus!
