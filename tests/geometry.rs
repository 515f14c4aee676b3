use raytracer::bbox::BBox;
use raytracer::bvh::{has_intersection, split, BVHScene, Bvh};
use raytracer::renderer::tone;
use raytracer::hittable::{Accuracy, HitRecord};
use raytracer::intensity::Intensity;
use raytracer::material::{Attenuation, Material};
use raytracer::ray::Ray;
use raytracer::scene::{Scene, SceneObject};
use raytracer::sphere::Sphere;
use raytracer::vec3::{div_floor, isqrt, reflect, refract, Vec3, FAR, SCALE};

fn unit(x: i64, y: i64, z: i64) -> Vec3 {
    Vec3::new(x * SCALE, y * SCALE, z * SCALE)
}

fn gray() -> Material {
    Material::lambertian(Attenuation::new(SCALE / 2, SCALE / 2, SCALE / 2))
}

fn full_range() -> Accuracy {
    Accuracy { min: 1, max: FAR }
}

#[test]
fn head_on_hit_along_x() {
    let s = Sphere::new(&Vec3::zero(), 2 * SCALE, gray());
    let ray = Ray::new(&unit(5, 0, 0), &unit(-1, 0, 0));
    let h = s.hit(&ray, &full_range()).expect("the ray points at the center");
    assert_eq!(h.t(), 3 * SCALE);
    assert!(h.front());
    assert_eq!(h.point(), unit(2, 0, 0));
    assert_eq!(h.normal(), unit(1, 0, 0));
}

#[test]
fn head_on_hit_along_z() {
    let s = Sphere::new(&Vec3::zero(), 3 * SCALE, gray());
    let ray = Ray::new(&unit(0, 0, 7), &unit(0, 0, -2));
    let h = s.hit(&ray, &full_range()).expect("the ray points at the center");
    assert_eq!(h.t(), 4 * SCALE);
    assert!(h.front());
    assert_eq!(h.normal(), unit(0, 0, 1));
}

#[test]
fn hit_from_inside_faces_inward() {
    let s = Sphere::new(&Vec3::zero(), 2 * SCALE, gray());
    let ray = Ray::new(&Vec3::zero(), &unit(1, 0, 0));
    let h = s.hit(&ray, &full_range()).expect("a ray from the center leaves the sphere");
    assert_eq!(h.t(), 2 * SCALE);
    assert!(!h.front());
    assert_eq!(h.normal(), unit(-1, 0, 0));
}

#[test]
fn ray_passing_beside_misses() {
    let s = Sphere::new(&Vec3::zero(), 2 * SCALE, gray());
    let ray = Ray::new(&unit(0, 3, -10), &unit(0, 0, 1));
    assert!(s.hit(&ray, &full_range()).is_none());
}

#[test]
fn hit_outside_window_is_skipped() {
    let s = Sphere::new(&Vec3::zero(), 2 * SCALE, gray());
    let ray = Ray::new(&unit(5, 0, 0), &unit(-1, 0, 0));
    // The near root (3) is excluded, the far one (7) is taken.
    let h = s.hit(&ray, &Accuracy { min: 4 * SCALE, max: FAR }).unwrap();
    assert_eq!(h.t(), 7 * SCALE);
    assert!(!h.front());
    // Neither root lies in the window.
    assert!(s.hit(&ray, &Accuracy { min: 1, max: 2 * SCALE }).is_none());
}

#[test]
fn sphere_box_reaches_one_radius() {
    let s = SceneObject::Sphere(Sphere::new(&Vec3::new(SCALE, 2 * SCALE, 3 * SCALE), SCALE / 2, gray()));
    let b = s.bbox();
    assert_eq!(b.min, Vec3::new(512, 1536, 2560));
    assert_eq!(b.max, Vec3::new(1536, 2560, 3584));
    assert!(b.contains(&Vec3::new(SCALE, 2 * SCALE + SCALE / 2, 3 * SCALE)));
    assert!(!b.contains(&Vec3::new(SCALE, 2 * SCALE + SCALE / 2 + 1, 3 * SCALE)));
}

#[test]
fn merge_and_center() {
    let a = BBox { min: unit(0, 0, 0), max: unit(1, 1, 1) };
    let b = BBox { min: unit(-2, 1, 0), max: unit(0, 3, 4) };
    let m = BBox::merge(&a, &b);
    assert_eq!(m.min, unit(-2, 0, 0));
    assert_eq!(m.max, unit(1, 3, 4));
    assert_eq!(m.center(), Vec3::new(-512, 1536, 2048));
}

#[test]
fn slab_test_cases() {
    let b = BBox { min: unit(-1, -1, -1), max: unit(1, 1, 1) };
    // Origin inside the box.
    assert!(has_intersection(&Ray::new(&Vec3::zero(), &unit(0, 1, 0)), &b));
    // Aimed at the box.
    assert!(has_intersection(&Ray::new(&unit(-5, 0, 0), &unit(1, 0, 0)), &b));
    // Aimed away from it.
    assert!(!has_intersection(&Ray::new(&unit(-5, 0, 0), &unit(-1, 0, 0)), &b));
    // Parallel to a face, outside the slab.
    assert!(!has_intersection(&Ray::new(&unit(-5, 2, 0), &unit(1, 0, 0)), &b));
    // Diagonal miss.
    assert!(!has_intersection(&Ray::new(&unit(-5, 0, 0), &unit(1, 3, 0)), &b));
    // Diagonal hit.
    assert!(has_intersection(&Ray::new(&unit(-5, -5, -5), &unit(1, 1, 1)), &b));
}

fn field() -> Scene {
    let mut objects = Vec::new();
    for i in 0..7i64 {
        for j in 0..5i64 {
            let center = Vec3::new((i - 3) * 3 * SCALE, (j % 3) * SCALE, -(j + 4) * 3 * SCALE);
            let radius = SCALE + (i * 97 + j * 31) % SCALE;
            objects.push(SceneObject::Sphere(Sphere::new(&center, radius, gray())));
        }
    }
    Scene(objects)
}

fn t_of(h: &Option<HitRecord>) -> Option<i64> {
    h.as_ref().map(|r| r.t())
}

#[test]
fn hierarchy_agrees_with_linear_scan() {
    let scene = field();
    let range = full_range();
    let mut hits = 0;
    for build in 0..3 {
        let bvh = BVHScene::new(&scene);
        for a in -12..=12i64 {
            for b in -4..=4i64 {
                let ray = Ray::new(&unit(0, 1, 2), &Vec3::new(a * 200, b * 150, -SCALE));
                let fast = bvh.hit(&ray, &range);
                let slow = scene.hit_linear(&ray, &range);
                assert_eq!(t_of(&fast), t_of(&slow), "build {} ray {} {}", build, a, b);
                if slow.is_some() {
                    hits += 1;
                }
            }
        }
        // A ray leaving the scene behind meets nothing in either search.
        let away = Ray::new(&unit(0, 1, 2), &unit(0, 0, 1));
        assert!(bvh.hit(&away, &range).is_none());
        assert!(scene.hit_linear(&away, &range).is_none());
    }
    assert!(hits > 0);
}

#[test]
fn single_primitive_hierarchy() {
    let scene = Scene(vec![SceneObject::Sphere(Sphere::new(&unit(0, 0, -5), SCALE, gray()))]);
    let bvh = BVHScene::new(&scene);
    let ray = Ray::new(&Vec3::zero(), &unit(0, 0, -1));
    assert_eq!(t_of(&bvh.hit(&ray, &full_range())), Some(4 * SCALE));
}

#[test]
fn integer_helpers() {
    assert_eq!(isqrt(0), 0);
    assert_eq!(isqrt(15), 3);
    assert_eq!(isqrt(16), 4);
    assert_eq!(isqrt(2 * 1024 * 1024), 1448);
    assert_eq!(isqrt(u128::MAX), u64::MAX);
    assert_eq!(div_floor(-7, 2), -4);
    assert_eq!(div_floor(-8, 2), -4);
    assert_eq!(div_floor(7, 2), 3);
}

#[test]
fn normalize_and_length() {
    assert_eq!(Vec3::new(3 * SCALE, 0, 4 * SCALE).length(), 5 * SCALE);
    assert_eq!(Vec3::new(SCALE, SCALE, 0).normalize(), Vec3::new(724, 724, 0));
    assert_eq!(Vec3::zero().normalize(), Vec3::zero());
}

#[test]
fn mirror_reflection() {
    assert_eq!(reflect(unit(0, -1, 0), unit(0, 1, 0)), unit(0, 1, 0));
    assert_eq!(reflect(Vec3::new(724, -724, 0), unit(0, 1, 0)), Vec3::new(724, 724, 0));
}

#[test]
fn refraction_cases() {
    // Straight through a surface between equal indices.
    assert_eq!(refract(unit(0, -1, 0), unit(0, 1, 0), SCALE), Some(unit(0, -1, 0)));
    // Grazing ray into a less dense medium: wholly reflected.
    assert_eq!(refract(Vec3::new(SCALE, -1, 0), unit(0, 1, 0), 2 * SCALE), None);
}

#[test]
fn material_constructors() {
    let a = Attenuation::new(1, 2, 3);
    assert_eq!((a.r(), a.g(), a.b()), (1, 2, 3));
    assert_eq!(Material::metal(a, 5), Material::Metal { albedo: a, fuzz: 5 });
    assert_eq!(Material::dielectric(1536), Material::Dielectric { refraction_index: 1536 });
    let e = Intensity::new(4, 5, 6);
    assert_eq!(Material::light(e), Material::Light { emit: e });
    let r = Attenuation::random();
    assert!(0 <= r.r() && r.r() <= SCALE && 0 <= r.g() && r.g() <= SCALE && 0 <= r.b() && r.b() <= SCALE);
}

fn count_shape(n: &Bvh, leaves: &mut Vec<usize>) -> (usize, usize) {
    match n {
        Bvh::Leaf { index, .. } => {
            leaves.push(*index);
            (0, 0)
        }
        Bvh::Node { child_a, child_b, bbox } => {
            assert_eq!(*bbox, BBox::merge(child_a.bbox(), child_b.bbox()));
            let (na, ha) = count_shape(child_a, leaves);
            let (nb, hb) = count_shape(child_b, leaves);
            (1 + na + nb, 1 + ha.max(hb))
        }
    }
}

#[test]
fn single_index_gives_its_leaf() {
    let scene = field();
    match Bvh::new_impl(&scene.0, vec![4]) {
        Bvh::Leaf { index, bbox } => {
            assert_eq!(index, 4);
            assert_eq!(bbox, scene.0[4].bbox());
        }
        _ => panic!("one index makes one leaf"),
    }
}

#[test]
fn hierarchy_shape() {
    let scene = field();
    let n = scene.0.len();
    let tree = Bvh::new(&scene);
    let mut leaves = Vec::new();
    let (nodes, height) = count_shape(&tree, &mut leaves);
    leaves.sort();
    assert_eq!(leaves, (0..n).collect::<Vec<_>>());
    assert_eq!(nodes, n - 1);
    // n = 35, so the height is at most 6.
    assert!(height <= 6);
}

#[test]
fn split_keeps_repeated_indices() {
    let scene = field();
    let (a, b) = split(&scene.0, vec![3, 3, 1, 3, 0], unit(1, 0, 0));
    assert_eq!(a.len(), 2);
    assert_eq!(b.len(), 3);
    let mut all: Vec<usize> = a.iter().chain(b.iter()).copied().collect();
    all.sort();
    assert_eq!(all, vec![0, 1, 3, 3, 3]);
}

#[test]
fn tone_mapping_values() {
    // Average 1/4 over two samples: square root 1/2.
    assert_eq!(tone(2 * 256, 2), SCALE / 2);
    // Above one unit: clamped.
    assert_eq!(tone(4 * SCALE as i128, 1), SCALE);
    assert_eq!(tone(0, 3), 0);
}
