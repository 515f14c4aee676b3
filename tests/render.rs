use raytracer::animated_sphere::{AnimatedHittableList, AnimatedSphere, Motion};
use raytracer::bvh::BVHScene;
use raytracer::camera::Camera;
use raytracer::hittable::{Accuracy, HitRecord};
use raytracer::image::{Image, Resolution};
use raytracer::intensity::Intensity;
use raytracer::material::{Attenuation, Material, ScatteringResult};
use raytracer::ppm::SavableToPPM;
use raytracer::ray::Ray;
use raytracer::renderer::{ray_intensity, ray_intensity_with, RenderError, Renderer};
use raytracer::rgb::RGB;
use raytracer::scene::{Scene, SceneObject};
use raytracer::sphere::Sphere;
use raytracer::time::{sample_time_point, sample_time_point_with, TimeInterval, TimePoint};
use raytracer::utils::{direction_from_point, from_draw, random_from, random_in_unit_disk, random_on_unit_sphere};
use raytracer::vec3::{Vec3, FAR, LIMIT, SCALE};

fn unit(x: i64, y: i64, z: i64) -> Vec3 {
    Vec3::new(x * SCALE, y * SCALE, z * SCALE)
}

fn full_range() -> Accuracy {
    Accuracy { min: 1, max: FAR }
}

/// A camera at the origin looking down -z with a 90 degree field of view.
fn camera() -> Camera {
    Camera::new(&Vec3::zero(), &unit(0, 0, -1), &unit(0, 1, 0), SCALE, SCALE, SCALE, 0, TimeInterval(0))
}

fn sphere(center: Vec3, radius: i64, material: Material) -> SceneObject {
    SceneObject::Sphere(Sphere::new(&center, radius, material))
}

fn hit_at(point: Vec3, normal: Vec3) -> HitRecord {
    HitRecord::new(point, normal, Material::light(Intensity::zero()), 0, true)
}

#[test]
fn light_filling_the_view_renders_its_color() {
    let emit = Intensity::new(SCALE, SCALE / 4, 0);
    let scene = Scene(vec![sphere(Vec3::zero(), 100 * SCALE, Material::light(emit))]);
    for depth in [1usize, 2, 7] {
        let renderer = Renderer::new(camera(), Resolution { width: 2, height: 2 })
            .samples_per_pixel(1)
            .max_depth(depth);
        let image = renderer.render(&scene).expect("the configuration is valid");
        assert_eq!(image.content.len(), 4);
        for row in 0..2 {
            for col in 0..2 {
                // sqrt(1) = 1, sqrt(1/4) = 1/2, sqrt(0) = 0.
                assert_eq!(image.index(row, col), RGB::new(SCALE, SCALE / 2, 0));
            }
        }
    }
}

#[test]
fn empty_view_renders_background() {
    let scene = Scene(vec![sphere(unit(0, 0, 50), SCALE, Material::light(Intensity::new(SCALE, 0, 0)))]);
    for (depth, samples) in [(1usize, 1usize), (0, 3), (5, 4)] {
        let renderer = Renderer::new(camera(), Resolution { width: 3, height: 2 })
            .samples_per_pixel(samples)
            .max_depth(depth);
        let image = renderer.render(&scene).unwrap();
        let expected = if depth == 0 { RGB::black() } else { RGB::white() };
        for row in 0..2 {
            for col in 0..3 {
                assert_eq!(image.index(row, col), expected);
            }
        }
    }
}

#[test]
fn bad_configurations_are_refused() {
    let scene = Scene(vec![sphere(unit(0, 0, -5), SCALE, Material::light(Intensity::new(1, 1, 1)))]);
    let narrow = Renderer::new(camera(), Resolution { width: 1, height: 4 });
    assert_eq!(narrow.render(&scene).err(), Some(RenderError::ResolutionTooSmall));
    let flat = Renderer::new(camera(), Resolution { width: 4, height: 1 }).samples_per_pixel(0);
    assert_eq!(flat.render(&scene).err(), Some(RenderError::ResolutionTooSmall));
    let unsampled = Renderer::new(camera(), Resolution { width: 2, height: 2 }).samples_per_pixel(0);
    assert_eq!(unsampled.render(&scene).err(), Some(RenderError::NoSamples));
}

#[test]
fn no_bounce_left_gives_zero() {
    let scene = Scene(vec![sphere(unit(0, 0, -5), SCALE, Material::light(Intensity::new(SCALE, SCALE, SCALE)))]);
    let bvh = BVHScene::new(&scene);
    let white = Intensity::new(SCALE, SCALE, SCALE);
    let toward = Ray::new(&Vec3::zero(), &unit(0, 0, -1));
    let away = Ray::new(&Vec3::zero(), &unit(0, 0, 1));
    assert_eq!(ray_intensity(&bvh, &white, &toward, &full_range(), 0), Intensity::zero());
    assert_eq!(ray_intensity(&bvh, &white, &away, &full_range(), 0), Intensity::zero());
    assert_eq!(ray_intensity(&bvh, &white, &toward, &full_range(), 1), white);
    assert_eq!(ray_intensity(&bvh, &white, &away, &full_range(), 1), white);
}

#[test]
fn metal_bounce_scales_background_by_albedo() {
    let albedo = Attenuation::new(SCALE / 2, SCALE, SCALE / 4);
    let scene = Scene(vec![sphere(Vec3::zero(), SCALE, Material::metal(albedo, 0))]);
    let bvh = BVHScene::new(&scene);
    let white = Intensity::new(SCALE, SCALE, SCALE);
    let down = Ray::new(&unit(0, 5, 0), &unit(0, -1, 0));
    let got = ray_intensity(&bvh, &white, &down, &full_range(), 3);
    assert_eq!(got, Intensity::new(SCALE / 2, SCALE, SCALE / 4));
    // Each channel stays within the continuation's largest channel.
    assert!(got.r() <= SCALE && got.g() <= SCALE && got.b() <= SCALE);
    // With a single bounce allowed the reflected ray brings nothing.
    assert_eq!(ray_intensity(&bvh, &white, &down, &full_range(), 1), Intensity::zero());
}

#[test]
fn absorbed_and_emitted_paths() {
    let scene = Scene(vec![sphere(Vec3::zero(), SCALE, Material::lambertian(Attenuation::new(0, 0, 0)))]);
    let bvh = BVHScene::new(&scene);
    let white = Intensity::new(SCALE, SCALE, SCALE);
    let down = Ray::new(&unit(0, 5, 0), &unit(0, -1, 0));
    let jitters = vec![unit(1, 0, 0), unit(1, 0, 0)];
    assert_eq!(ray_intensity_with(&bvh, &white, &down, &full_range(), 2, &jitters), Intensity::zero());
}

#[test]
fn lambertian_scatter_with_given_jitter() {
    let albedo = Attenuation::new(SCALE / 2, SCALE, 0);
    let m = Material::lambertian(albedo);
    let incoming = Ray::new(&unit(0, 5, 0), &unit(0, -1, 0));
    match m.scatter_with(&incoming, &hit_at(unit(0, 1, 0), unit(0, 1, 0)), unit(1, 0, 0)) {
        ScatteringResult::ScatterredRay(a, r) => {
            assert_eq!(a, albedo);
            assert_eq!(r.origin(), unit(0, 1, 0));
            assert_eq!(r.direction(), Vec3::new(724, 724, 0));
        }
        _ => panic!("a diffuse surface scatters"),
    }
    // A jitter cancelling the normal falls back on the normal.
    match m.scatter_with(&incoming, &hit_at(unit(0, 1, 0), unit(0, 1, 0)), unit(0, -1, 0)) {
        ScatteringResult::ScatterredRay(_, r) => assert_eq!(r.direction(), unit(0, 1, 0)),
        _ => panic!("a diffuse surface scatters"),
    }
}

#[test]
fn metal_below_surface_is_absorbed() {
    let m = Material::metal(Attenuation::new(SCALE, SCALE, SCALE), SCALE);
    // An incoming ray leaving the surface reflects into it.
    let incoming = Ray::new(&unit(0, 5, 0), &unit(0, 1, 0));
    let r = m.scatter_with(&incoming, &hit_at(unit(0, 1, 0), unit(0, 1, 0)), unit(1, 0, 0));
    assert!(matches!(r, ScatteringResult::Absorbed));
}

#[test]
fn metal_roughened_below_surface_is_absorbed() {
    let m = Material::metal(Attenuation::new(SCALE, SCALE, SCALE), SCALE);
    let incoming = Ray::new(&unit(-5, 5, 0), &Vec3::new(SCALE, -SCALE, 0));
    let hit = hit_at(unit(0, 1, 0), unit(0, 1, 0));
    // The mirror direction leaves the surface, but the roughening pushes it back in.
    assert!(matches!(m.scatter_with(&incoming, &hit, unit(0, -1, 0)), ScatteringResult::Absorbed));
    // Roughened sideways it still leaves the surface.
    match m.scatter_with(&incoming, &hit, unit(0, 0, 1)) {
        ScatteringResult::ScatterredRay(_, r) => assert!(r.direction().y > 0),
        _ => panic!("the roughened reflection leaves the surface"),
    }
}

#[test]
fn dielectric_transmits_everything() {
    let m = Material::dielectric(SCALE + SCALE / 2);
    let incoming = Ray::new(&unit(0, 5, 0), &unit(0, -1, 0));
    match m.scatter(&incoming, &hit_at(unit(0, 1, 0), unit(0, 1, 0))) {
        ScatteringResult::ScatterredRay(a, r) => {
            assert_eq!(a, Attenuation::new(SCALE, SCALE, SCALE));
            assert_eq!(r.direction(), unit(0, -1, 0));
        }
        _ => panic!("glass always lets the ray go on"),
    }
}

#[test]
fn light_always_emits() {
    let e = Intensity::new(10 * SCALE, 0, 0);
    let m = Material::light(e);
    let incoming = Ray::new(&unit(0, 5, 0), &unit(0, -1, 0));
    match m.scatter(&incoming, &hit_at(unit(0, 1, 0), unit(0, 1, 0))) {
        ScatteringResult::Light(x) => assert_eq!(x, e),
        _ => panic!("a light emits"),
    }
}

#[test]
fn camera_center_ray() {
    let c = camera();
    let r = c.get_ray_with(SCALE / 2, SCALE / 2, (0, 0));
    assert_eq!(r.origin(), Vec3::zero());
    assert_eq!(r.direction(), unit(0, 0, -1));
    let corner = c.get_ray_with(0, 0, (0, 0));
    assert_eq!(corner.direction(), Vec3::new(-592, -592, -592));
}

#[test]
fn image_pixels_and_ppm() {
    let mut img = Image::new(Resolution { width: 2, height: 1 });
    assert_eq!(img.width(), 2);
    assert_eq!(img.height(), 1);
    assert_eq!(img.index(0, 1), RGB::black());
    img.set(0, 1, RGB::new(SCALE, SCALE / 2, 0));
    assert_eq!(img.index(0, 1), RGB::new(SCALE, 512, 0));
    let text = String::from_utf8(img.to_ppm()).unwrap();
    assert_eq!(text, "P3\n2 1\n255\n0 0 0\n255 127 0\n");
}

#[test]
fn colors_and_clamping() {
    assert_eq!(RGB::red(), RGB::new(SCALE, 0, 0));
    assert_eq!(RGB::green(), RGB::new(0, SCALE, 0));
    assert_eq!(RGB::blue(), RGB::new(0, 0, SCALE));
    let c = RGB::from_intensity(Intensity::new(3 * SCALE, SCALE / 3, 0));
    assert_eq!((c.r(), c.g(), c.b()), (SCALE, SCALE / 3, 0));
}

#[test]
fn moving_sphere_follows_its_path() {
    let m = Material::lambertian(Attenuation::new(1, 1, 1));
    let moving = AnimatedSphere::new(unit(0, 0, -5), SCALE, m, Motion::Linear { velocity: unit(2, 0, 0) });
    let still = AnimatedSphere::new(unit(0, 0, -9), SCALE, m, Motion::Static);
    let list = AnimatedHittableList { list: vec![moving, still] };
    let ray = Ray::new(&Vec3::zero(), &unit(0, 0, -1));
    // At time 0 the moving sphere sits on the ray.
    assert_eq!(list.hit(TimePoint(0), &ray, &full_range()).map(|h| h.t()), Some(4 * SCALE));
    // One unit of time later it has moved two units aside; the still one remains.
    assert_eq!(list.hit(TimePoint(SCALE), &ray, &full_range()).map(|h| h.t()), Some(8 * SCALE));
    // A quarter unit of time later it has moved half a unit aside and is met off center.
    let h = moving.hit(TimePoint(SCALE / 4), &ray, &full_range()).unwrap();
    assert!(h.t() > 4 * SCALE && h.t() < 5 * SCALE);
}

#[test]
fn time_sampling() {
    assert_eq!(sample_time_point(TimePoint(7), TimeInterval(0)), TimePoint(7));
    assert_eq!(sample_time_point(TimePoint(7), TimeInterval(1)), TimePoint(7));
    for _ in 0..50 {
        let t = sample_time_point(TimePoint(100), TimeInterval(40)).0;
        assert!(80 <= t && t < 120);
    }
}

#[test]
fn random_draws_stay_in_range() {
    for _ in 0..100 {
        let x = random_from(-3, 4);
        assert!(-3 <= x && x < 4);
        let d = random_on_unit_sphere();
        assert!(d.x.abs() <= SCALE && d.y.abs() <= SCALE && d.z.abs() <= SCALE);
        let (a, b) = random_in_unit_disk();
        assert!(a.abs() <= SCALE && b.abs() <= SCALE);
    }
}

#[test]
fn gradient_test_image() {
    let img = raytracer::image::test_image(3, 3);
    assert_eq!(img.index(0, 0), RGB::new(0, 0, SCALE / 4));
    assert_eq!(img.index(1, 2), RGB::new(SCALE / 2, SCALE, SCALE / 4));
    assert_eq!(img.index(2, 1), RGB::new(SCALE, SCALE / 2, SCALE / 4));
}

#[test]
fn intensity_converts_to_clamped_color() {
    let c: RGB = Intensity::new(2 * SCALE, SCALE / 2, 0).into();
    assert_eq!(c, RGB::new(SCALE, SCALE / 2, 0));
}

#[test]
fn drawn_values_map_exactly() {
    assert_eq!(from_draw(-3, 4, 0), -3);
    assert_eq!(from_draw(-3, 4, 9), -1);
    assert_eq!(from_draw(10, 11, u64::MAX), 10);
    assert_eq!(sample_time_point_with(TimePoint(100), TimeInterval(40), -20), TimePoint(80));
    assert_eq!(sample_time_point_with(TimePoint(7), TimeInterval(1), 0), TimePoint(7));
    assert_eq!(direction_from_point(Vec3::new(0, 0, -SCALE / 2)), unit(0, 0, -1));
}

#[test]
fn diffuse_scatter_near_the_range_edge() {
    let albedo = Attenuation::new(SCALE / 2, SCALE / 2, SCALE / 2);
    let m = Material::lambertian(albedo);
    let incoming = Ray::new(&Vec3::zero(), &unit(1, 0, 0));
    let edge = Vec3::new(LIMIT, 0, 0);
    match m.scatter_with(&incoming, &hit_at(edge, unit(-1, 0, 0)), unit(0, 1, 0)) {
        ScatteringResult::ScatterredRay(a, r) => {
            assert_eq!(a, albedo);
            assert_eq!(r.origin(), edge);
            assert_eq!(r.direction(), Vec3::new(-725, 724, 0));
        }
        _ => panic!("a diffuse surface always scatters"),
    }
}
