use tracer::algebra::Vec3;
use tracer::camera::Camera;
use tracer::color::Color;
use tracer::hittable::{HitRecord, Hittable, HittableCollection, Sphere};
use tracer::integrator::{ray_color, T_EPSILON, T_FAR};
use tracer::material::{Dielectric, Lambertian, Material, Metal};
use tracer::ray::Ray;
use tracer::render::render_pixel;

const S: i64 = 65536;

fn gray() -> Material {
    Material::Lambertian(Lambertian::new(Color::new(S / 2, S / 2, S / 2)))
}

#[test]
fn axis_ray_hits_unit_half_sphere_at_half() {
    let ray = Ray::new(Vec3::new(0, 0, 0), Vec3::new(0, 0, -S));
    let sphere = Sphere::new(Vec3::new(0, 0, -S), S / 2, gray());
    let rec = sphere.hit(&ray, 0, T_FAR).expect("the ray points at the sphere");
    assert_eq!(rec.t, S / 2);
    assert_eq!(rec.normal, Vec3::new(0, 0, S));
    assert!(rec.front_face);
    assert_eq!(rec.p, Vec3::new(0, 0, -S / 2));
}

#[test]
fn hit_point_lies_at_radius_from_center() {
    let ray = Ray::new(Vec3::new(0, 0, 0), Vec3::new(0, 0, -S));
    let center = Vec3::new(0, 0, -S);
    let radius = S / 2;
    let sphere = Sphere::new(center, radius, gray());
    let rec = sphere.hit(&ray, 0, T_FAR).expect("the ray points at the sphere");
    assert!(0 <= rec.t && rec.t <= T_FAR);
    let dist = ray.at(rec.t).sub(center).length();
    assert!((dist - radius).abs() <= 1);
}

#[test]
fn hit_respects_near_bound() {
    let ray = Ray::new(Vec3::new(0, 0, 0), Vec3::new(0, 0, -S));
    let sphere = Sphere::new(Vec3::new(0, 0, -S), S / 2, gray());
    // Both roots (0.5 and 1.5) lie below a near bound of 2.
    assert!(sphere.hit(&ray, 2 * S, T_FAR).is_none());
    // The far root is taken when the near bound excludes the close one.
    let rec = sphere.hit(&ray, S, T_FAR).expect("the far root is in range");
    assert_eq!(rec.t, 3 * S / 2);
    assert!(!rec.front_face);
}

#[test]
fn ray_behind_sphere_misses() {
    let ray = Ray::new(Vec3::new(0, 0, 0), Vec3::new(0, 0, S));
    let sphere = Sphere::new(Vec3::new(0, 0, -S), S / 2, gray());
    assert!(sphere.hit(&ray, 0, T_FAR).is_none());
}

#[test]
fn normal_flips_when_ray_starts_inside() {
    let ray = Ray::new(Vec3::new(0, 0, 0), Vec3::new(0, 0, -S));
    let sphere = Sphere::new(Vec3::new(0, 0, 0), S, gray());
    let rec = sphere.hit(&ray, 0, T_FAR).expect("the ray exits the sphere");
    assert_eq!(rec.t, S);
    assert!(!rec.front_face);
    assert_eq!(rec.normal, Vec3::new(0, 0, S));
}

#[test]
fn collection_returns_closest_member_hit() {
    let ray = Ray::new(Vec3::new(0, 0, 0), Vec3::new(0, 0, -S));
    let near = Sphere::new(Vec3::new(0, 0, -2 * S), S / 2, gray());
    let far = Sphere::new(Vec3::new(0, 0, -4 * S), S / 2, gray());
    let mut world = HittableCollection::new();
    world.add(Hittable::Sphere(far));
    world.add(Hittable::Sphere(near));
    let rec = world.hit(&ray, 0, T_FAR).expect("both spheres are ahead");
    assert_eq!(rec.t, 3 * S / 2);

    // Insertion order does not change the closest hit.
    let mut other = HittableCollection::new();
    other.add(Hittable::Sphere(near));
    other.add(Hittable::Sphere(far));
    let rec2 = other.hit(&ray, 0, T_FAR).expect("both spheres are ahead");
    assert_eq!(rec2.t, rec.t);

    let nt = near.hit(&ray, 0, T_FAR).unwrap().t;
    let ft = far.hit(&ray, 0, T_FAR).unwrap().t;
    assert!(rec.t <= nt && rec.t <= ft);
}

#[test]
fn hittable_dispatch_and_flattening() {
    let ray = Ray::new(Vec3::new(0, 0, 0), Vec3::new(0, 0, -S));
    let near = Sphere::new(Vec3::new(0, 0, -2 * S), S / 2, gray());
    let far = Sphere::new(Vec3::new(0, 0, -4 * S), S / 2, gray());
    let single = Hittable::Sphere(near);
    assert_eq!(single.hit(&ray, 0, T_FAR).unwrap().t, 3 * S / 2);

    let mut inner = HittableCollection::new();
    inner.add(Hittable::Sphere(far));
    let mut world = HittableCollection::new();
    world.add(Hittable::Sphere(near));
    world.add(Hittable::Collection(inner));
    let group = Hittable::Collection(world);
    assert_eq!(group.hit(&ray, 0, T_FAR).unwrap().t, 3 * S / 2);
}

#[test]
fn empty_collection_misses() {
    let ray = Ray::new(Vec3::new(0, 0, 0), Vec3::new(0, 0, -S));
    let world = HittableCollection::new();
    assert!(world.hit(&ray, 0, T_FAR).is_none());
}

#[test]
fn depth_zero_is_black() {
    let ray = Ray::new(Vec3::new(0, 0, 0), Vec3::new(0, 0, -S));
    let mut world = HittableCollection::new();
    world.add(Hittable::Sphere(Sphere::new(Vec3::new(0, 0, -S), S / 2, gray())));
    assert_eq!(ray_color(&ray, &world, 0), Color::new(0, 0, 0));
}

#[test]
fn miss_returns_horizon_gradient() {
    let world = HittableCollection::new();
    let level = Ray::new(Vec3::new(0, 0, 0), Vec3::new(0, 0, -S));
    // unit.y is zero: the blend sits halfway between white and sky blue.
    assert_eq!(ray_color(&level, &world, 8), Color::new(49152, 55705, S));
    let up = Ray::new(Vec3::new(0, 0, 0), Vec3::new(0, S, 0));
    // unit.y is one: the blend lands exactly on sky blue.
    assert_eq!(ray_color(&up, &world, 8), Color::new(32768, 45875, S));
}

#[test]
fn lambertian_always_scatters_with_albedo() {
    let albedo = Color::new(S / 2, S / 4, S / 8);
    let mat = Material::Lambertian(Lambertian::new(albedo));
    let ray = Ray::new(Vec3::new(0, 0, 0), Vec3::new(0, 0, -S));
    let rec = HitRecord::new(Vec3::new(0, 0, S), S / 2, &ray, mat);
    for _ in 0..16 {
        let (scattered, attenuation) = mat.scatter(&ray, &rec).expect("diffuse always scatters");
        assert_eq!(attenuation, albedo);
        assert_eq!(scattered.origin, rec.p);
        assert!(!scattered.direction.near_zero());
    }
}

#[test]
fn smooth_metal_reflects_exactly() {
    let mat = Material::Metal(Metal::new(Color::new(S, S, S), 0));
    let ray = Ray::new(Vec3::new(0, S, 0), Vec3::new(0, -S, 0));
    let rec = HitRecord::new(Vec3::new(0, S, 0), S, &ray, mat);
    let (scattered, _) = mat.scatter(&ray, &rec).expect("head-on reflection faces out");
    assert_eq!(scattered.direction, Vec3::new(0, S, 0));
}

#[test]
fn metal_absorbs_when_reflection_points_inward() {
    let mat = Material::Metal(Metal::new(Color::new(S, S, S), 0));
    let ray = Ray::new(Vec3::new(0, -S, 0), Vec3::new(0, S, 0));
    let rec = HitRecord {
        p: Vec3::new(0, 0, 0),
        normal: Vec3::new(0, S, 0),
        t: S,
        front_face: false,
        material: mat,
    };
    assert!(mat.scatter(&ray, &rec).is_none());
}

#[test]
fn dielectric_always_scatters_white() {
    let mat = Material::Dielectric(Dielectric::new(3 * S / 2));
    let ray = Ray::new(Vec3::new(0, 0, 0), Vec3::new(0, 0, -S));
    let rec = HitRecord::new(Vec3::new(0, 0, S), S / 2, &ray, mat);
    for _ in 0..16 {
        let (scattered, attenuation) = mat.scatter(&ray, &rec).expect("glass never absorbs");
        assert_eq!(attenuation, Color::new(S, S, S));
        assert_eq!(scattered.origin, rec.p);
    }
}

#[test]
fn deterministic_two_bounce_regression() {
    // A smooth metal floor reflects the ray straight up into the sky:
    // no random draw enters, so the radiance is an exact constant.
    let albedo = Color::new(S / 2, S / 4, S / 8);
    let mut world = HittableCollection::new();
    world.add(Hittable::Sphere(Sphere::new(
        Vec3::new(0, -2 * S, 0),
        S,
        Material::Metal(Metal::new(albedo, 0)),
    )));
    let ray = Ray::new(Vec3::new(0, 0, 0), Vec3::new(0, -S, 0));
    let c = ray_color(&ray, &world, 2);
    assert_eq!(c, Color::new(16384, 11468, 8192));
}

#[test]
fn default_camera_basis() {
    let cam = Camera::default();
    assert_eq!(cam.origin, Vec3::new(0, 0, 0));
    assert_eq!(cam.horizontal, Vec3::new(233016, 0, 0));
    assert_eq!(cam.vertical, Vec3::new(0, 131072, 0));
    assert_eq!(cam.lower_left_corner, Vec3::new(-116508, -65536, -65536));
}

#[test]
fn camera_center_ray_points_down_axis() {
    let cam = Camera::default();
    let ray = cam.get_ray(S / 2, S / 2);
    assert_eq!(ray.origin, Vec3::new(0, 0, 0));
    assert_eq!(ray.direction, Vec3::new(0, 0, -S));
}

#[test]
fn camera_corner_ray() {
    let cam = Camera::default();
    let ray = cam.get_ray(0, 0);
    assert_eq!(ray.direction, Vec3::new(-116508, -65536, -65536));
}

#[test]
fn render_pixel_produces_display_bytes() {
    let mut world = HittableCollection::new();
    world.add(Hittable::Sphere(Sphere::new(
        Vec3::new(0, -6586368, -S),
        6553600,
        Material::Lambertian(Lambertian::new(Color::new(52428, 52428, 0))),
    )));
    world.add(Hittable::Sphere(Sphere::new(
        Vec3::new(0, 0, -S),
        S / 2,
        Material::Lambertian(Lambertian::new(Color::new(S / 2, S / 2, S / 2))),
    )));
    let cam = Camera::default();
    // A sky pixel near the top of the frame stays bright blue-ish.
    let (r, g, b) = render_pixel(&world, &cam, 4, 70, 80, 72, 4, 8);
    assert!(b >= g && g >= r);
    assert!(b > 128);
}

#[test]
fn shadow_acne_epsilon_is_small_and_positive() {
    assert!(0 < T_EPSILON && T_EPSILON < S / 100);
    assert!(T_FAR > 1000 * S);
}
