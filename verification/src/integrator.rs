//! The recursive light-transport evaluator: follow the ray, scatter at
//! the nearest surface, attenuate, and stop at the bounce budget.
use vstd::prelude::*;
use crate::fixed::{fmul, fmul_s};
use crate::algebra::normalize_s;
use crate::color::{
    Color, chans_in, mix_s, mul_color_s, lemma_mix_range, lemma_mul_color_range,
};
use crate::ray::{Ray, ray_wf};
use crate::hittable::{HittableCollection, coll_wf, sphere_hit_s, sphere_wf};
use crate::fixed::SCALE;

verus! {

/// The shadow-acne epsilon: hits closer than this along the ray are
/// ignored so a scattered ray cannot re-hit its own origin.
pub const T_EPSILON: i64 = 66;

/// The far bound standing in for infinity.
pub const T_FAR: i64 = 0x80_0000_0000;

/// The ambient term for a ray that escapes: a vertical blend from white
/// at the horizon to sky blue at the zenith, with the blend proportion
/// clamped to the unit interval.
pub open spec fn background_s(r: Ray) -> Color {
    let unit = normalize_s(r.direction);
    let t0 = fmul_s(32768, unit.y + 65536);
    let t = if t0 < 0 { 0 } else if t0 > 65536 { 65536 } else { t0 };
    mix_s(
        Color { red: 65536, green: 65536, blue: 65536 },
        Color { red: 32768, green: 45875, blue: 65536 },
        t,
    )
}

/// What `ray_color` guarantees of one sample for the ray `r`: channels
/// in the unit interval, black at depth zero, and the exact background
/// gradient when every member of the scene misses.
pub open spec fn sample_of_ray(c: Color, world: HittableCollection, r: Ray, depth: int) -> bool {
    &&& chans_in(c, 65536)
    &&& depth == 0 ==> c == (Color { red: 0, green: 0, blue: 0 })
    &&& (depth > 0 && forall|i: int| 0 <= i < world.list@.len()
        ==> sphere_hit_s(#[trigger] world.list@[i], r, T_EPSILON as int, T_FAR as int)
            is None)
        ==> c == background_s(r)
}

/// Evaluates the radiance carried back along `r`. Depth zero is black;
/// a miss is the background gradient; a hit scatters and recurses, the
/// result filtered by the material's attenuation. A scattered ray that
/// leaves the world box, or is absorbed, contributes black.
pub fn ray_color(r: &Ray, world: &HittableCollection, depth: u32) -> (c: Color)
    requires
        ray_wf(*r),
        coll_wf(*world),
    ensures
        chans_in(c, 65536),
        depth == 0 ==> c == (Color { red: 0, green: 0, blue: 0 }),
        (depth > 0 && forall|i: int| 0 <= i < world.list@.len()
            ==> sphere_hit_s(#[trigger] world.list@[i], *r, T_EPSILON as int, T_FAR as int)
                is None)
            ==> c == background_s(*r),
        sample_of_ray(c, *world, *r, depth as int),
        c == (Color { red: 0, green: 0, blue: 0 }) || c == background_s(*r)
            || exists|att: Color, inner: Color| chans_in(att, 65536) && chans_in(inner, 65536)
                && c == #[trigger] mul_color_s(att, inner),
    decreases depth,
{
    if depth == 0 {
        return Color::new(0, 0, 0);
    }
    let found = world.hit(r, T_EPSILON, T_FAR);
    match found {
        Option::Some(rec) => {
            proof {
                let i = choose|i: int| 0 <= i < world.list@.len()
                    && sphere_hit_s(#[trigger] world.list@[i], *r, T_EPSILON as int,
                        T_FAR as int) == Option::Some(rec.t as int)
                    && rec == crate::hittable::make_record_s(
                        crate::hittable::geo_normal_s(world.list@[i], *r, rec.t as int),
                        rec.t as int, *r, world.list@[i].material);
                assert(sphere_wf(world.list@[i]));
            }
            match rec.material.scatter(r, &rec) {
                Option::Some((scattered, attenuation)) => {
                    if scattered.in_world() {
                        let inner = ray_color(&scattered, world, depth - 1);
                        proof {
                            lemma_mul_color_range(attenuation, inner);
                            assert(chans_in(attenuation, 65536) && chans_in(inner, 65536)
                                && mul_color_s(attenuation, inner)
                                    == mul_color_s(attenuation, inner));
                        }
                        attenuation.mul_color(inner)
                    } else {
                        Color::new(0, 0, 0)
                    }
                },
                Option::None => Color::new(0, 0, 0),
            }
        },
        Option::None => {
            let unit = r.direction().normalize();
            let t0 = fmul(32768, unit.y + SCALE);
            let t = if t0 < 0 { 0 } else if t0 > SCALE { SCALE } else { t0 };
            let white = Color::new(SCALE, SCALE, SCALE);
            let sky = Color::new(32768, 45875, SCALE);
            proof {
                lemma_mix_range(white, sky, t as int);
            }
            white.mix(&sky, t)
        },
    }
}

} // verus!
