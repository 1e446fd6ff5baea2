//! The per-pixel sampling kernel of the render driver: jitter, trace,
//! accumulate, average, gamma-correct and convert for display.
use vstd::prelude::*;
use crate::fixed::{
    SCALE, abs1, fdiv_s, fdiv,
    lemma_tdiv_mag, lemma_tdiv_monotone,
};
use crate::algebra::rand_range;
use crate::color::{Color, chans_in, display_ch, gamma_s, desample_s, add_color_s, sum_colors};
use crate::camera::{Camera, camera_wf, get_ray_s};
use crate::hittable::{HittableCollection, coll_wf};
use crate::integrator::{ray_color, sample_of_ray};

verus! {

/// A jittered normalized coordinate within pixel `k` of `extent`: the
/// pixel index plus a uniform draw, over the extent.
fn pixel_coord(k: u32, extent: u32) -> (r: i64)
    requires
        k < extent,
        extent <= 0x10000,
    ensures
        0 <= r <= 65536,
        exists|jitter: int| 0 <= jitter < 65536
            && r == #[trigger] fdiv_s((k as int) * 65536 + jitter, (extent as int) * 65536),
{
    let jitter = rand_range(0, SCALE);
    let num: i64 = (k as i64) * SCALE + jitter;
    let den: i64 = (extent as i64) * SCALE;
    let q = fdiv(num, den);
    proof {
        assert(q <= 65536) by (nonlinear_arith)
            requires
                q >= 0,
                den >= 65536,
                num < den,
                abs1(q as int) == q as int,
                abs1(den as int) == den as int,
                abs1(num as int) == num as int,
                abs1(q as int) * abs1(den as int) <= abs1(num as int) * 65536,
        ;
    }
    q
}

/// One sample color for pixel `(i, j)`: some jittered coordinates inside
/// the pixel give a camera ray for which the color meets the
/// integrator's guarantee.
pub open spec fn pixel_sample_ok(
    c: Color,
    world: HittableCollection,
    cam: Camera,
    i: int,
    j: int,
    width: int,
    height: int,
    depth: int,
) -> bool {
    exists|ju: int, jv: int| 0 <= ju < 65536 && 0 <= jv < 65536
        && #[trigger] sample_of_ray(c, world, get_ray_s(cam,
            fdiv_s(i * 65536 + ju, width * 65536),
            fdiv_s(j * 65536 + jv, height * 65536)), depth)
}

/// Renders one pixel: `samples` jittered rays through `(i, j)` traced to
/// `depth` bounces, averaged, gamma-corrected and clamped to bytes. The
/// result is the display transform of the sum of per-sample colors, each
/// tied to a camera ray through this pixel.
pub fn render_pixel(
    world: &HittableCollection,
    camera: &Camera,
    i: u32,
    j: u32,
    width: u32,
    height: u32,
    samples: u32,
    depth: u32,
) -> (rgb: (u8, u8, u8))
    requires
        coll_wf(*world),
        camera_wf(*camera),
        i < width,
        j < height,
        width <= 0x10000,
        height <= 0x10000,
        1 <= samples <= 0x10000,
    ensures
        exists|cs: Seq<Color>| {
            &&& cs.len() == samples as int
            &&& forall|k: int| 0 <= k < cs.len() ==> pixel_sample_ok(#[trigger] cs[k], *world,
                *camera, i as int, j as int, width as int, height as int, depth as int)
            &&& rgb.0 == display_ch(gamma_s(desample_s(#[trigger] sum_colors(cs),
                samples as int)).red as int)
            &&& rgb.1 == display_ch(
                gamma_s(desample_s(sum_colors(cs), samples as int)).green as int)
            &&& rgb.2 == display_ch(gamma_s(desample_s(sum_colors(cs), samples as int)).blue as int)
        },
{
    let mut color = Color::new(0, 0, 0);
    let mut s: u32 = 0;
    let ghost mut cs: Seq<Color> = Seq::empty();
    while s < samples
        invariant
            coll_wf(*world),
            camera_wf(*camera),
            i < width,
            j < height,
            width <= 0x10000,
            height <= 0x10000,
            1 <= samples <= 0x10000,
            s <= samples,
            chans_in(color, (s as int) * 65536),
            cs.len() == s as int,
            color == sum_colors(cs),
            forall|k: int| 0 <= k < cs.len() ==> pixel_sample_ok(#[trigger] cs[k], *world,
                *camera, i as int, j as int, width as int, height as int, depth as int),
        decreases samples - s,
    {
        let u = pixel_coord(i, width);
        let v = pixel_coord(j, height);
        let ray = camera.get_ray(u, v);
        let sample = ray_color(&ray, world, depth);
        proof {
            let ju = choose|ju: int| 0 <= ju < 65536
                && u as int == #[trigger] fdiv_s((i as int) * 65536 + ju,
                    (width as int) * 65536);
            let jv = choose|jv: int| 0 <= jv < 65536
                && v as int == #[trigger] fdiv_s((j as int) * 65536 + jv,
                    (height as int) * 65536);
            assert(ray == get_ray_s(*camera,
                fdiv_s((i as int) * 65536 + ju, (width as int) * 65536),
                fdiv_s((j as int) * 65536 + jv, (height as int) * 65536)));
            assert(sample_of_ray(sample, *world, ray, depth as int));
            assert(pixel_sample_ok(sample, *world, *camera, i as int, j as int,
                width as int, height as int, depth as int));
            let prev = cs;
            cs = cs.push(sample);
            assert(cs.drop_last() =~= prev);
            assert(cs.last() == sample);
            assert(sum_colors(cs) == add_color_s(sum_colors(prev), sample));
        }
        color.add_assign(sample);
        s = s + 1;
    }
    let averaged = color.desample(samples);
    proof {
        lemma_tdiv_monotone(0, color.red as int, samples as int);
        lemma_tdiv_monotone(0, color.green as int, samples as int);
        lemma_tdiv_monotone(0, color.blue as int, samples as int);
        lemma_tdiv_mag(color.red as int, samples as int);
        lemma_tdiv_mag(color.green as int, samples as int);
        lemma_tdiv_mag(color.blue as int, samples as int);
    }
    let corrected = averaged.gamma_correct();
    let rgb = corrected.as_image_color();
    proof {
        assert(sum_colors(cs) == color);
        assert(rgb.0 == display_ch(gamma_s(desample_s(sum_colors(cs), samples as int)).red as int)
            && rgb.1 == display_ch(
                gamma_s(desample_s(sum_colors(cs), samples as int)).green as int)
            && rgb.2 == display_ch(
                gamma_s(desample_s(sum_colors(cs), samples as int)).blue as int));
    }
    rgb
}

} // verus!
