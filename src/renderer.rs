//! Path integration, per-pixel sampling, tone mapping and the row-by-row render.

use vstd::prelude::*;
use crate::bvh::{BVHScene, tree_hit};
use crate::camera::{Camera, camera_ray};
use crate::hittable::{Accuracy, HitRecord};
use crate::image::{Image, Resolution, flat_index};
use crate::intensity::{Intensity, zero_intensity};
use crate::material::{
    Attenuation, Material, ScatteringResult, attenuate_spec, lemma_attenuated_channel, scatter_spec,
    unit_channel,
};
use crate::ray::Ray;
use crate::rgb::{RGB, clamp_unit};
use crate::scene::Scene;
use crate::utils::{random_from, random_on_unit_sphere, unit_draw};
use crate::vec3::{Vec3, is_direction, isqrt, isqrt_spec, FAR, LIMIT, SCALE};

verus! {

/// Radiance arriving along `ray`, following at most `depth` bounces, with
/// `jitters[k]` the random unit vector used at the bounce made with `k + 1`
/// bounces left.  A path that runs out of bounces brings nothing; a ray that
/// meets nothing brings the background.
pub open spec fn radiance_spec(
    bvh: BVHScene,
    background: Intensity,
    ray: Ray,
    acc: Accuracy,
    depth: nat,
    jitters: Seq<Vec3>,
) -> Intensity
    decreases depth,
{
    if depth == 0 {
        zero_intensity()
    } else {
        match tree_hit(bvh.bvh, bvh.scene.0@, ray, acc) {
            None => background,
            Some(h) => match scatter_spec(h.material, ray, h, jitters[depth - 1]) {
                ScatteringResult::ScatterredRay(a, next) => attenuate_spec(
                    a,
                    radiance_spec(bvh, background, next, acc, (depth - 1) as nat, jitters),
                ),
                ScatteringResult::Light(e) => e,
                ScatteringResult::Absorbed => zero_intensity(),
            },
        }
    }
}

fn attenuate(a: &Attenuation, c: &Intensity) -> (r: Intensity)
    requires
        a.wf(),
        c.wf(),
    ensures
        r == attenuate_spec(*a, *c),
        r.wf(),
{
    proof {
        lemma_attenuated_channel(a.r as int, c.r as int, LIMIT as int);
        lemma_attenuated_channel(a.g as int, c.g as int, LIMIT as int);
        lemma_attenuated_channel(a.b as int, c.b as int, LIMIT as int);
    }
    Intensity { r: a.r * c.r / SCALE, g: a.g * c.g / SCALE, b: a.b * c.b / SCALE }
}

/// Radiance along `ray` with the random unit vectors of every bounce given.
pub fn ray_intensity_with(
    hittable_list: &BVHScene,
    background: &Intensity,
    ray: &Ray,
    accuracy: &Accuracy,
    depth: usize,
    jitters: &Vec<Vec3>,
) -> (r: Intensity)
    requires
        hittable_list.wf(),
        background.wf(),
        ray.wf(),
        accuracy.wf(),
        jitters.len() >= depth,
        forall|k: int| 0 <= k < jitters.len() ==> is_direction(#[trigger] jitters@[k]),
    ensures
        r == radiance_spec(*hittable_list, *background, *ray, *accuracy, depth as nat, jitters@),
        r.wf(),
    decreases depth,
{
    if depth == 0 {
        return Intensity::zero();
    }
    match hittable_list.hit(ray, accuracy) {
        Some(hit_record) => match hit_record.material.scatter_with(
            ray,
            &hit_record,
            jitters[depth - 1],
        ) {
            ScatteringResult::ScatterredRay(attenuation, scattered) => {
                let color = ray_intensity_with(
                    hittable_list,
                    background,
                    &scattered,
                    accuracy,
                    depth - 1,
                    jitters,
                );
                attenuate(&attenuation, &color)
            },
            ScatteringResult::Light(rgb) => rgb,
            ScatteringResult::Absorbed => Intensity::zero(),
        },
        None => *background,
    }
}

/// Radiance along `ray` over at most `depth` bounces, each drawing its own
/// random unit vector.  With no bounce left the result is zero, whatever the scene.
pub fn ray_intensity(
    hittable_list: &BVHScene,
    background: &Intensity,
    ray: &Ray,
    accuracy: &Accuracy,
    depth: usize,
) -> (r: Intensity)
    requires
        hittable_list.wf(),
        background.wf(),
        ray.wf(),
        accuracy.wf(),
    ensures
        exists|jitters: Seq<Vec3>|
            jitters.len() == depth && (forall|k: int|
                0 <= k < jitters.len() ==> is_direction(#[trigger] jitters[k]) && unit_draw(jitters[k])) && r
                == radiance_spec(*hittable_list, *background, *ray, *accuracy, depth as nat, jitters),
        depth == 0 ==> r == zero_intensity(),
        r.wf(),
{
    let mut jitters: Vec<Vec3> = Vec::new();
    let mut k: usize = 0;
    while k < depth
        invariant
            k <= depth,
            jitters.len() == k,
            forall|j: int|
                0 <= j < jitters.len() ==> is_direction(#[trigger] jitters@[j]) && unit_draw(
                    jitters@[j],
                ),
        decreases depth - k,
    {
        jitters.push(random_on_unit_sphere());
        k = k + 1;
    }
    ray_intensity_with(hittable_list, background, ray, accuracy, depth, &jitters)
}

/// Why a renderer refuses to start.
#[derive(Clone, Copy, Debug, PartialEq, Eq, Structural)]
pub enum RenderError {
    /// Width or height under two pixels.
    ResolutionTooSmall,
    /// No sample per pixel.
    NoSamples,
}

/// Renders a scene through a camera.
pub struct Renderer {
    pub samples_per_pixel: usize,
    pub accuracy: Accuracy,
    pub max_depth: usize,
    pub camera: Camera,
    pub background: Intensity,
    pub resolution: Resolution,
}

/// One channel of an intensity: 0 for red, 1 for green, 2 for blue.
pub open spec fn channel(i: Intensity, c: int) -> int {
    if c == 0 {
        i.r as int
    } else if c == 1 {
        i.g as int
    } else {
        i.b as int
    }
}

/// Sum of one channel over the samples.
pub open spec fn total(samples: Seq<Intensity>, c: int) -> int
    decreases samples.len(),
{
    if samples.len() == 0 {
        0
    } else {
        total(samples.drop_last(), c) + channel(samples.last(), c)
    }
}

/// Tone mapping of one channel: the average over `n` samples, its square root
/// (gamma correction), clamped to `[0, 1]`.
pub open spec fn tone_spec(sum: int, n: int) -> int {
    clamp_unit(isqrt_spec((sum / n) * SCALE))
}

/// The pixel that a set of samples makes.
pub open spec fn pixel_spec(samples: Seq<Intensity>) -> RGB {
    RGB {
        r: tone_spec(total(samples, 0), samples.len() as int) as i64,
        g: tone_spec(total(samples, 1), samples.len() as int) as i64,
        b: tone_spec(total(samples, 2), samples.len() as int) as i64,
    }
}

/// Horizontal viewport coordinate of column `col` jittered by `du` (in ticks).
pub open spec fn u_of(width: int, col: int, du: int) -> int {
    (col * SCALE + du) / (width - 1)
}

/// Vertical viewport coordinate of row `row` jittered by `dv`: row 0 is the top
/// of the image but the bottom of the viewport's parameterization is 0.
pub open spec fn v_of(height: int, row: int, dv: int) -> int {
    ((height - 1 - row) * SCALE + dv) / (height - 1)
}

impl Renderer {
    /// The parts of the configuration that no caller can get wrong.
    pub open spec fn wf(&self) -> bool {
        self.camera.wf() && self.accuracy.wf() && self.background.wf()
    }

    /// The configuration is one that `render` accepts.
    pub open spec fn ready(&self) -> bool {
        self.wf() && self.samples_per_pixel >= 1 && self.resolution.width >= 2
            && self.resolution.height >= 2
    }

    /// `s` is the radiance of one sample of pixel `row`, `col`: for some jitter
    /// within the pixel, some point of the lens and some random bounces.
    pub open spec fn is_sample(&self, bvh: BVHScene, row: int, col: int, s: Intensity) -> bool {
        exists|du: int, dv: int, rx: int, ry: int, js: Seq<Vec3>|
            0 <= du < SCALE && 0 <= dv < SCALE && -SCALE <= rx <= SCALE && -SCALE <= ry <= SCALE
                && js.len() == self.max_depth && (forall|k: int|
                0 <= k < js.len() ==> is_direction(#[trigger] js[k]) && unit_draw(js[k])) && s
                == radiance_spec(
                bvh,
                self.background,
                camera_ray(
                    self.camera,
                    u_of(self.resolution.width as int, col, du),
                    v_of(self.resolution.height as int, row, dv),
                    rx,
                    ry,
                ),
                self.accuracy,
                self.max_depth as nat,
                js,
            )
    }

    /// `p` is what pixel `row`, `col` can come out as: the tone-mapped average of
    /// `samples_per_pixel` samples.
    pub open spec fn is_pixel(&self, bvh: BVHScene, row: int, col: int, p: RGB) -> bool {
        exists|samples: Seq<Intensity>|
            samples.len() == self.samples_per_pixel && (forall|k: int|
                0 <= k < samples.len() ==> self.is_sample(bvh, row, col, #[trigger] samples[k]))
                && p == pixel_spec(samples)
    }

    /// A renderer with a hundred samples per pixel, twenty bounces, a white
    /// background and hits counted from one tick on.
    pub fn new(camera: Camera, resolution: Resolution) -> (r: Renderer)
        ensures
            r == (Renderer {
                samples_per_pixel: 100,
                accuracy: Accuracy { min: 1, max: FAR },
                max_depth: 20,
                camera,
                background: Intensity { r: SCALE, g: SCALE, b: SCALE },
                resolution,
            }),
    {
        Renderer {
            samples_per_pixel: 100,
            accuracy: Accuracy { min: 1, max: FAR },
            max_depth: 20,
            camera,
            background: Intensity { r: SCALE, g: SCALE, b: SCALE },
            resolution,
        }
    }

    pub fn samples_per_pixel(self, samples_per_pixel: usize) -> (r: Renderer)
        ensures
            r == (Renderer { samples_per_pixel, ..self }),
    {
        Renderer { samples_per_pixel, ..self }
    }

    pub fn max_depth(self, max_depth: usize) -> (r: Renderer)
        ensures
            r == (Renderer { max_depth, ..self }),
    {
        Renderer { max_depth, ..self }
    }

    pub fn background(self, background: Intensity) -> (r: Renderer)
        ensures
            r == (Renderer { background, ..self }),
    {
        Renderer { background, ..self }
    }

    /// One pixel: the samples' radiance summed, averaged, gamma corrected and
    /// clamped.
    pub fn render_pixel(&self, bvh: &BVHScene, row: usize, col: usize) -> (r: RGB)
        requires
            self.ready(),
            bvh.wf(),
            row < self.resolution.height,
            col < self.resolution.width,
        ensures
            self.is_pixel(*bvh, row as int, col as int, r),
            r.wf(),
    {
        let width = self.resolution.width;
        let height = self.resolution.height;
        let n = self.samples_per_pixel;
        let mut sum_r: i128 = 0;
        let mut sum_g: i128 = 0;
        let mut sum_b: i128 = 0;
        let ghost mut samples: Seq<Intensity> = Seq::empty();
        let mut k: usize = 0;
        while k < n
            invariant
                self.ready(),
                bvh.wf(),
                row < height,
                col < width,
                width == self.resolution.width,
                height == self.resolution.height,
                n == self.samples_per_pixel,
                k <= n,
                samples.len() == k,
                forall|j: int|
                    0 <= j < samples.len() ==> self.is_sample(
                        *bvh,
                        row as int,
                        col as int,
                        #[trigger] samples[j],
                    ),
                sum_r == total(samples, 0),
                sum_g == total(samples, 1),
                sum_b == total(samples, 2),
                0 <= sum_r <= k * LIMIT,
                0 <= sum_g <= k * LIMIT,
                0 <= sum_b <= k * LIMIT,
            decreases n - k,
        {
            let du = random_from(0, SCALE);
            let dv = random_from(0, SCALE);
            let u = ((col as i128) * (SCALE as i128) + du as i128) / ((width - 1) as i128);
            let v = (((height - 1 - row) as i128) * (SCALE as i128) + dv as i128) / ((height
                - 1) as i128);
            proof {
                lemma_viewport_coord(width as int, col as int, du as int);
                lemma_viewport_coord(height as int, (height - 1 - row) as int, dv as int);
            }
            let ray = self.camera.get_ray(u as i64, v as i64);
            let s = ray_intensity(bvh, &self.background, &ray, &self.accuracy, self.max_depth);
            proof {
                let (rx, ry) = choose|rx: int, ry: int|
                    -SCALE <= rx <= SCALE && -SCALE <= ry <= SCALE && ray == camera_ray(
                        self.camera,
                        u as int,
                        v as int,
                        rx,
                        ry,
                    );
                let js = choose|js: Seq<Vec3>|
                    js.len() == self.max_depth && (forall|k: int|
                        0 <= k < js.len() ==> is_direction(#[trigger] js[k]) && unit_draw(js[k])) && s
                == radiance_spec(
                        *bvh,
                        self.background,
                        ray,
                        self.accuracy,
                        self.max_depth as nat,
                        js,
                    );
                assert(u == u_of(width as int, col as int, du as int));
                assert(v == v_of(height as int, row as int, dv as int));
                assert(self.is_sample(*bvh, row as int, col as int, s));
                let old_samples = samples;
                samples = samples.push(s);
                assert(samples.drop_last() == old_samples);
                assert forall|j: int| 0 <= j < samples.len() implies self.is_sample(
                    *bvh,
                    row as int,
                    col as int,
                    #[trigger] samples[j],
                ) by {
                    if j < old_samples.len() {
                        assert(samples[j] == old_samples[j]);
                    }
                }
            }
            sum_r = sum_r + s.r as i128;
            sum_g = sum_g + s.g as i128;
            sum_b = sum_b + s.b as i128;
            k = k + 1;
        }
        let r = tone(sum_r, n);
        let g = tone(sum_g, n);
        let b = tone(sum_b, n);
        RGB { r, g, b }
    }

    /// One row of pixels, left to right.
    pub fn render_row(&self, bvh: &BVHScene, row: usize) -> (r: Vec<RGB>)
        requires
            self.ready(),
            bvh.wf(),
            row < self.resolution.height,
        ensures
            r.len() == self.resolution.width,
            forall|col: int|
                0 <= col < r.len() ==> self.is_pixel(*bvh, row as int, col, #[trigger] r@[col])
                    && r@[col].wf(),
    {
        let mut row_pixels: Vec<RGB> = Vec::new();
        let mut col: usize = 0;
        while col < self.resolution.width
            invariant
                self.ready(),
                bvh.wf(),
                row < self.resolution.height,
                col <= self.resolution.width,
                row_pixels.len() == col,
                forall|c: int|
                    0 <= c < row_pixels.len() ==> self.is_pixel(
                        *bvh,
                        row as int,
                        c,
                        #[trigger] row_pixels@[c],
                    ) && row_pixels@[c].wf(),
            decreases self.resolution.width - col,
        {
            let p = self.render_pixel(bvh, row, col);
            row_pixels.push(p);
            col = col + 1;
        }
        row_pixels
    }

    /// Checks the configuration: at least two pixels each way and one sample per
    /// pixel.
    pub fn validate(&self) -> (r: Result<(), RenderError>)
        ensures
            r == (if self.resolution.width < 2 || self.resolution.height < 2 {
                Err(RenderError::ResolutionTooSmall)
            } else if self.samples_per_pixel == 0 {
                Err(RenderError::NoSamples)
            } else {
                Ok(())
            }),
    {
        if self.resolution.width < 2 || self.resolution.height < 2 {
            Err(RenderError::ResolutionTooSmall)
        } else if self.samples_per_pixel == 0 {
            Err(RenderError::NoSamples)
        } else {
            Ok(())
        }
    }

    /// Renders the scene row by row, after checking the configuration.
    pub fn render(&self, scene: &Scene) -> (r: Result<Image, RenderError>)
        requires
            self.wf(),
            scene.wf(),
            scene.0.len() >= 1,
            self.resolution.width * self.resolution.height <= usize::MAX,
        ensures
            r is Err <==> (self.resolution.width < 2 || self.resolution.height < 2
                || self.samples_per_pixel == 0),
            r matches Err(e) ==> e == (if self.resolution.width < 2 || self.resolution.height < 2 {
                RenderError::ResolutionTooSmall
            } else {
                RenderError::NoSamples
            }),
            r matches Ok(img) ==> img.wf() && img.resolution == self.resolution && exists|
                bvh: BVHScene,
            |
                bvh.wf() && bvh.scene == scene && forall|row: int, col: int|
                    0 <= row < self.resolution.height && 0 <= col < self.resolution.width
                        ==> self.is_pixel(
                        bvh,
                        row,
                        col,
                        #[trigger] img.content@[flat_index(self.resolution.width as int, row, col)],
                    ),
    {
        match self.validate() {
            Err(e) => {
                return Err(e);
            },
            Ok(()) => {},
        }
        let width = self.resolution.width;
        let height = self.resolution.height;
        let bvh = BVHScene::new(scene);
        let mut content: Vec<RGB> = Vec::new();
        let mut row: usize = 0;
        while row < height
            invariant
                self.ready(),
                bvh.wf(),
                bvh.scene == scene,
                width == self.resolution.width,
                height == self.resolution.height,
                width * height <= usize::MAX,
                row <= height,
                content.len() == row * width,
                forall|i: int| 0 <= i < content.len() ==> (#[trigger] content@[i]).wf(),
                forall|r: int, c: int|
                    0 <= r < row && 0 <= c < width ==> self.is_pixel(
                        bvh,
                        r,
                        c,
                        #[trigger] content@[flat_index(width as int, r, c)],
                    ),
            decreases height - row,
        {
            let pixels = self.render_row(&bvh, row);
            let ghost before = content@;
            let mut col: usize = 0;
            proof {
                assert((row + 1) * width <= width * height) by (nonlinear_arith)
                    requires
                        row < height,
                ;
            }
            while col < width
                invariant
                    pixels.len() == width,
                    col <= width,
                    content.len() == row * width + col,
                    (row + 1) * width <= width * height,
                    before.len() == row * width,
                    forall|i: int| 0 <= i < before.len() ==> content@[i] == before[i],
                    forall|i: int| 0 <= i < before.len() ==> (#[trigger] before[i]).wf(),
                    forall|c: int| 0 <= c < width ==> (#[trigger] pixels@[c]).wf(),
                    forall|c: int|
                        0 <= c < width ==> self.is_pixel(bvh, row as int, c, #[trigger] pixels@[c]),
                    forall|r: int, c: int|
                        0 <= r < row && 0 <= c < width ==> self.is_pixel(
                            bvh,
                            r,
                            c,
                            #[trigger] before[flat_index(width as int, r, c)],
                        ),
                    forall|c: int| 0 <= c < col ==> content@[row * width + c] == pixels@[c],
                decreases width - col,
            {
                content.push(pixels[col]);
                col = col + 1;
            }
            proof {
                assert forall|i: int| 0 <= i < content.len() implies (#[trigger] content@[i]).wf() by {
                    if i >= before.len() {
                        let c = i - row * width;
                        assert(0 <= c < width);
                        assert(content@[row * width + c] == pixels@[c]);
                        assert(pixels@[c].wf());
                    } else {
                        assert(content@[i] == before[i]);
                        assert(before[i].wf());
                    }
                }
                assert forall|r: int, c: int| 0 <= r < row + 1 && 0 <= c < width implies self.is_pixel(
                    bvh,
                    r,
                    c,
                    #[trigger] content@[flat_index(width as int, r, c)],
                ) by {
                    lemma_flat_index_bound(width as int, r, c, row as int);
                    if r < row {
                        assert(content@[flat_index(width as int, r, c)] == before[flat_index(
                            width as int,
                            r,
                            c,
                        )]);
                    } else {
                        assert(flat_index(width as int, r, c) == row * width + c);
                        assert(content@[row * width + c] == pixels@[c]);
                    }
                }
                assert(content.len() == (row + 1) * width) by (nonlinear_arith)
                    requires
                        content.len() == row * width + width,
                ;
            }
            row = row + 1;
        }
        assert(content.len() == width * height) by (nonlinear_arith)
            requires
                content.len() == row * width,
                row == height,
        ;
        Ok(Image::new_with_content(self.resolution, content))
    }
}

proof fn lemma_flat_index_bound(width: int, r: int, c: int, row: int)
    requires
        0 <= r <= row,
        0 <= c < width,
    ensures
        r < row ==> flat_index(width, r, c) < row * width,
        flat_index(width, r, c) >= r * width,
{
    assert(r < row ==> r * width + c < row * width) by (nonlinear_arith)
        requires
            0 <= c < width,
    ;
}

/// Viewport coordinates of a jittered pixel stay within two units.
proof fn lemma_viewport_coord(size: int, idx: int, d: int)
    requires
        size >= 2,
        0 <= idx < size,
        0 <= d < SCALE,
    ensures
        0 <= (idx * SCALE + d) / (size - 1) <= 2 * SCALE,
{
    assert(0 <= idx * SCALE + d <= 2 * SCALE * (size - 1)) by (nonlinear_arith)
        requires
            size >= 2,
            0 <= idx < size,
            0 <= d < SCALE,
    ;
    vstd::arithmetic::div_mod::lemma_div_is_ordered(idx * SCALE + d, 2 * SCALE * (size - 1), size - 1);
    vstd::arithmetic::div_mod::lemma_div_is_ordered(0, idx * SCALE + d, size - 1);
    vstd::arithmetic::div_mod::lemma_fundamental_div_mod_converse(2 * SCALE * (size - 1), size - 1, 2 * SCALE, 0);
}

/// Tone mapping of one channel's sum over `n` samples: the average, its square
/// root, clamped to `[0, 1]`.
pub fn tone(sum: i128, n: usize) -> (r: i64)
    requires
        n >= 1,
        0 <= sum <= n * LIMIT,
    ensures
        r == tone_spec(sum as int, n as int),
        unit_channel(r as int),
{
    let avg = sum / (n as i128);
    assert(avg <= LIMIT) by (nonlinear_arith)
        requires
            avg == sum as int / n as int,
            0 <= sum <= n * LIMIT,
            n >= 1,
    ;
    let g = isqrt((avg * (SCALE as i128)) as u128);
    proof {
        assert(g <= 0x20_0000) by (nonlinear_arith)
            requires
                g * g <= avg * SCALE,
                avg <= LIMIT,
                g >= 0,
        ;
    }
    let g = g as i64;
    if g > SCALE {
        SCALE
    } else {
        g
    }
}

/// The ray met a surface of a light emitting `emit`.
pub open spec fn meets_light(h: Option<HitRecord>, emit: Intensity) -> bool {
    match h {
        Some(r) => r.material == (Material::Light { emit }),
        None => false,
    }
}

/// A pixel whose samples all bring `v`: each channel's square root, clamped.
pub open spec fn pixel_of(v: Intensity) -> RGB {
    RGB {
        r: clamp_unit(isqrt_spec(v.r * SCALE)) as i64,
        g: clamp_unit(isqrt_spec(v.g * SCALE)) as i64,
        b: clamp_unit(isqrt_spec(v.b * SCALE)) as i64,
    }
}

proof fn lemma_total_constant(samples: Seq<Intensity>, c: int, v: Intensity)
    requires
        forall|k: int| 0 <= k < samples.len() ==> #[trigger] samples[k] == v,
    ensures
        total(samples, c) == samples.len() * channel(v, c),
    decreases samples.len(),
{
    if samples.len() > 0 {
        lemma_total_constant(samples.drop_last(), c, v);
        assert(samples.last() == v);
        assert(total(samples, c) == (samples.len() - 1) * channel(v, c) + channel(v, c));
        assert((samples.len() - 1) * channel(v, c) + channel(v, c) == samples.len() * channel(v, c))
            by (nonlinear_arith);
    }
}

proof fn lemma_average_constant(n: int, c: int)
    requires
        n >= 1,
    ensures
        (n * c) / n == c,
{
    assert(n * c == c * n) by (nonlinear_arith);
    vstd::arithmetic::div_mod::lemma_fundamental_div_mod_converse(n * c, n, c, 0);
}

impl Renderer {
    /// When every sample of a pixel brings the same radiance `v`, the pixel is
    /// `pixel_of(v)`, whatever the number of samples.
    pub proof fn lemma_uniform_pixel(&self, bvh: BVHScene, row: int, col: int, p: RGB, v: Intensity)
        requires
            self.samples_per_pixel >= 1,
            forall|s: Intensity| #[trigger] self.is_sample(bvh, row, col, s) ==> s == v,
            self.is_pixel(bvh, row, col, p),
        ensures
            p == pixel_of(v),
    {
        let samples = choose|samples: Seq<Intensity>|
            samples.len() == self.samples_per_pixel && (forall|k: int|
                0 <= k < samples.len() ==> self.is_sample(bvh, row, col, #[trigger] samples[k]))
                && p == pixel_spec(samples);
        let n = samples.len() as int;
        assert forall|k: int| 0 <= k < samples.len() implies #[trigger] samples[k] == v by {
            assert(self.is_sample(bvh, row, col, samples[k]));
        }
        lemma_total_constant(samples, 0, v);
        lemma_total_constant(samples, 1, v);
        lemma_total_constant(samples, 2, v);
        lemma_average_constant(n, v.r as int);
        lemma_average_constant(n, v.g as int);
        lemma_average_constant(n, v.b as int);
    }

    /// A light that fills the view: when every ray that the camera can cast for a
    /// pixel first meets a surface of `Light { emit }`, and at least one bounce is
    /// allowed, every pixel of the image is `emit` gamma corrected and clamped.
    pub proof fn lemma_light_fills_view(&self, bvh: BVHScene, emit: Intensity, row: int, col: int, p: RGB)
        requires
            self.samples_per_pixel >= 1,
            self.max_depth >= 1,
            forall|u: int, v: int, rx: int, ry: int|
                0 <= u <= 2 * SCALE && 0 <= v <= 2 * SCALE && -SCALE <= rx <= SCALE && -SCALE <= ry
                    <= SCALE ==> meets_light(#[trigger] tree_hit(
                    bvh.bvh,
                    bvh.scene.0@,
                    camera_ray(self.camera, u, v, rx, ry),
                    self.accuracy,
                ), emit),
            0 <= row < self.resolution.height,
            0 <= col < self.resolution.width,
            self.resolution.width >= 2,
            self.resolution.height >= 2,
            self.is_pixel(bvh, row, col, p),
        ensures
            p == pixel_of(emit),
    {
        assert forall|s: Intensity| #[trigger] self.is_sample(bvh, row, col, s) implies s == emit by {
            let (du, dv, rx, ry, js) = choose|du: int, dv: int, rx: int, ry: int, js: Seq<Vec3>|
                0 <= du < SCALE && 0 <= dv < SCALE && -SCALE <= rx <= SCALE && -SCALE <= ry <= SCALE
                    && js.len() == self.max_depth && (forall|k: int|
                    0 <= k < js.len() ==> is_direction(#[trigger] js[k]) && unit_draw(js[k])) && s
                    == radiance_spec(
                    bvh,
                    self.background,
                    camera_ray(
                        self.camera,
                        u_of(self.resolution.width as int, col, du),
                        v_of(self.resolution.height as int, row, dv),
                        rx,
                        ry,
                    ),
                    self.accuracy,
                    self.max_depth as nat,
                    js,
                );
            lemma_viewport_coord(self.resolution.width as int, col, du);
            lemma_viewport_coord(self.resolution.height as int, self.resolution.height - 1 - row, dv);
            let u = u_of(self.resolution.width as int, col, du);
            let v = v_of(self.resolution.height as int, row, dv);
            assert(tree_hit(bvh.bvh, bvh.scene.0@, camera_ray(self.camera, u, v, rx, ry), self.accuracy) is Some);
        }
        self.lemma_uniform_pixel(bvh, row, col, p, emit);
    }

    /// An empty view: when no ray that the camera can cast for a pixel meets
    /// anything, and at least one bounce is allowed, every pixel is the
    /// background gamma corrected and clamped; for the default white background
    /// that is white, whatever the number of samples.
    pub proof fn lemma_background_fills_view(&self, bvh: BVHScene, row: int, col: int, p: RGB)
        requires
            self.samples_per_pixel >= 1,
            self.max_depth >= 1,
            forall|u: int, v: int, rx: int, ry: int|
                0 <= u <= 2 * SCALE && 0 <= v <= 2 * SCALE && -SCALE <= rx <= SCALE && -SCALE <= ry
                    <= SCALE ==> (#[trigger] tree_hit(
                    bvh.bvh,
                    bvh.scene.0@,
                    camera_ray(self.camera, u, v, rx, ry),
                    self.accuracy,
                )) is None,
            0 <= row < self.resolution.height,
            0 <= col < self.resolution.width,
            self.resolution.width >= 2,
            self.resolution.height >= 2,
            self.is_pixel(bvh, row, col, p),
        ensures
            p == pixel_of(self.background),
            self.background == (Intensity { r: SCALE, g: SCALE, b: SCALE }) ==> p == (RGB {
                r: SCALE,
                g: SCALE,
                b: SCALE,
            }),
    {
        assert forall|s: Intensity| #[trigger] self.is_sample(bvh, row, col, s) implies s
            == self.background by {
            let (du, dv, rx, ry, js) = choose|du: int, dv: int, rx: int, ry: int, js: Seq<Vec3>|
                0 <= du < SCALE && 0 <= dv < SCALE && -SCALE <= rx <= SCALE && -SCALE <= ry <= SCALE
                    && js.len() == self.max_depth && (forall|k: int|
                    0 <= k < js.len() ==> is_direction(#[trigger] js[k]) && unit_draw(js[k])) && s
                    == radiance_spec(
                    bvh,
                    self.background,
                    camera_ray(
                        self.camera,
                        u_of(self.resolution.width as int, col, du),
                        v_of(self.resolution.height as int, row, dv),
                        rx,
                        ry,
                    ),
                    self.accuracy,
                    self.max_depth as nat,
                    js,
                );
            lemma_viewport_coord(self.resolution.width as int, col, du);
            lemma_viewport_coord(self.resolution.height as int, self.resolution.height - 1 - row, dv);
            let u = u_of(self.resolution.width as int, col, du);
            let v = v_of(self.resolution.height as int, row, dv);
            assert(tree_hit(bvh.bvh, bvh.scene.0@, camera_ray(self.camera, u, v, rx, ry), self.accuracy) is None);
        }
        self.lemma_uniform_pixel(bvh, row, col, p, self.background);
        crate::vec3::lemma_isqrt_of_square(SCALE as int);
    }
}

} // verus!
