//! Materials and how they scatter rays.

use vstd::prelude::*;
use crate::hittable::HitRecord;
use crate::intensity::Intensity;
use crate::ray::Ray;
use crate::utils::{random_from, random_on_unit_sphere, unit_draw};
use crate::vec3::{
    Vec3, add_spec, dot_spec, in_range, is_direction, lemma_scale_bound, length_spec,
    normalize_spec, reflect, reflect_spec, refract, refract_spec, scale_spec, SCALE,
};

verus! {

/// Share of light kept on each channel, in ticks: `SCALE` keeps all of it.
#[derive(Clone, Copy, Debug, PartialEq, Eq, Structural)]
pub struct Attenuation {
    pub r: i64,
    pub g: i64,
    pub b: i64,
}

/// A channel value that an attenuation may hold.
pub open spec fn unit_channel(c: int) -> bool {
    0 <= c <= SCALE
}

impl Attenuation {
    pub open spec fn wf(&self) -> bool {
        unit_channel(self.r as int) && unit_channel(self.g as int) && unit_channel(self.b as int)
    }

    pub fn new(r: i64, g: i64, b: i64) -> (res: Attenuation)
        requires
            unit_channel(r as int),
            unit_channel(g as int),
            unit_channel(b as int),
        ensures
            res.r == r && res.g == g && res.b == b,
            res.wf(),
    {
        Attenuation { r, g, b }
    }

    pub fn r(&self) -> (res: i64)
        ensures
            res == self.r,
    {
        self.r
    }

    pub fn g(&self) -> (res: i64)
        ensures
            res == self.g,
    {
        self.g
    }

    pub fn b(&self) -> (res: i64)
        ensures
            res == self.b,
    {
        self.b
    }

    /// Channels drawn from `[0, SCALE]`.
    pub fn random() -> (res: Attenuation)
        ensures
            res.wf(),
    {
        Attenuation {
            r: random_from(0, SCALE + 1),
            g: random_from(0, SCALE + 1),
            b: random_from(0, SCALE + 1),
        }
    }
}

/// What a surface does with a ray that reaches it.
#[derive(Clone, Copy, Debug)]
pub enum ScatteringResult {
    /// The ray is absorbed.
    Absorbed,
    /// The surface emits this radiance and the path ends.
    Light(Intensity),
    /// The path goes on along the ray, its radiance scaled by the attenuation.
    ScatterredRay(Attenuation, Ray),
}

/// How a surface responds to light.
#[derive(Clone, Copy, Debug, PartialEq, Eq, Structural)]
pub enum Material {
    /// Diffuse reflection.
    Lambertian { albedo: Attenuation },
    /// Refraction, with the index in ticks (`SCALE` is the index of vacuum).
    Dielectric { refraction_index: i64 },
    /// Mirror reflection, roughened by `fuzz` (in ticks).
    Metal { albedo: Attenuation, fuzz: i64 },
    /// An emitter.
    Light { emit: Intensity },
}

impl Material {
    pub open spec fn wf(&self) -> bool {
        match *self {
            Material::Lambertian { albedo } => albedo.wf(),
            Material::Dielectric { refraction_index } => 0 < refraction_index <= SCALE * SCALE,
            Material::Metal { albedo, fuzz } => albedo.wf() && 0 <= fuzz <= SCALE,
            Material::Light { emit } => emit.wf(),
        }
    }

    pub fn lambertian(albedo: Attenuation) -> (r: Material)
        ensures
            r == (Material::Lambertian { albedo }),
    {
        Material::Lambertian { albedo }
    }

    pub fn dielectric(refraction_index: i64) -> (r: Material)
        ensures
            r == (Material::Dielectric { refraction_index }),
    {
        Material::Dielectric { refraction_index }
    }

    pub fn metal(albedo: Attenuation, fuzz: i64) -> (r: Material)
        ensures
            r == (Material::Metal { albedo, fuzz }),
    {
        Material::Metal { albedo, fuzz }
    }

    pub fn light(emit: Intensity) -> (r: Material)
        ensures
            r == (Material::Light { emit }),
    {
        Material::Light { emit }
    }
}

/// The outcome of a ray meeting `m` at `hit`, with `jitter` the random unit
/// vector that roughens diffuse and metal bounces.
pub open spec fn scatter_spec(m: Material, input: Ray, hit: HitRecord, jitter: Vec3) -> ScatteringResult {
    match m {
        Material::Lambertian { albedo } => {
            let d = add_spec(hit.normal, jitter);
            let dir = if length_spec(d) == 0 {
                hit.normal
            } else {
                d
            };
            ScatteringResult::ScatterredRay(
                albedo,
                Ray { orig: hit.point, dir: normalize_spec(dir) },
            )
        },
        Material::Metal { albedo, fuzz } => {
            let rough = add_spec(
                reflect_spec(input.dir, hit.normal),
                scale_spec(jitter, fuzz as int),
            );
            if dot_spec(rough, hit.normal) > 0 {
                ScatteringResult::ScatterredRay(
                    albedo,
                    Ray { orig: hit.point, dir: normalize_spec(rough) },
                )
            } else {
                ScatteringResult::Absorbed
            }
        },
        Material::Dielectric { refraction_index } => {
            let ratio = if hit.front {
                SCALE * SCALE / refraction_index as int
            } else {
                refraction_index as int
            };
            let dir = match refract_spec(input.dir, hit.normal, ratio) {
                Some(d) => d,
                None => reflect_spec(input.dir, hit.normal),
            };
            ScatteringResult::ScatterredRay(
                Attenuation { r: SCALE, g: SCALE, b: SCALE },
                Ray { orig: hit.point, dir: normalize_spec(dir) },
            )
        },
        Material::Light { emit } => ScatteringResult::Light(emit),
    }
}

/// Radiance `c` after passing through attenuation `a`, channel by channel.
pub open spec fn attenuate_spec(a: Attenuation, c: Intensity) -> Intensity {
    Intensity {
        r: (a.r * c.r / SCALE as int) as i64,
        g: (a.g * c.g / SCALE as int) as i64,
        b: (a.b * c.b / SCALE as int) as i64,
    }
}

/// What a scattering result promises its user.
pub open spec fn scattering_wf(r: ScatteringResult) -> bool {
    match r {
        ScatteringResult::Absorbed => true,
        ScatteringResult::Light(e) => e.wf(),
        ScatteringResult::ScatterredRay(a, ray) => a.wf() && ray.wf(),
    }
}

impl Material {
    /// The response to `input_ray` at `hit`, with the random unit vector given.
    pub fn scatter_with(&self, input_ray: &Ray, hit_record: &HitRecord, jitter: Vec3) -> (r:
        ScatteringResult)
        requires
            self.wf(),
            input_ray.wf(),
            is_direction(hit_record.normal),
            in_range(hit_record.point),
            is_direction(jitter),
        ensures
            r == scatter_spec(*self, *input_ray, *hit_record, jitter),
            scattering_wf(r),
    {
        match *self {
            Material::Light { emit } => {
                return ScatteringResult::Light(emit);
            },
            _ => {},
        }
        let p = hit_record.point;
        let n = hit_record.normal;
        match *self {
            Material::Lambertian { albedo } => {
                let d = n.add(&jitter);
                let dir = if d.length() == 0 {
                    n
                } else {
                    d
                };
                ScatteringResult::ScatterredRay(albedo, Ray::new(&p, &dir))
            },
            Material::Metal { albedo, fuzz } => {
                let reflected = reflect(input_ray.dir, n);
                proof {
                    lemma_scale_bound(jitter, fuzz as int, SCALE as int, SCALE as int);
                    vstd::arithmetic::div_mod::lemma_fundamental_div_mod_converse(
                        SCALE * SCALE,
                        SCALE as int,
                        SCALE as int,
                        0,
                    );
                }
                let rough = reflected.add(&jitter.scale(fuzz));
                if rough.dot(&n) > 0 {
                    ScatteringResult::ScatterredRay(albedo, Ray::new(&p, &rough))
                } else {
                    ScatteringResult::Absorbed
                }
            },
            Material::Dielectric { refraction_index } => {
                let ratio = if hit_record.front {
                    proof {
                        vstd::arithmetic::div_mod::lemma_div_is_ordered_by_denominator(
                            SCALE * SCALE,
                            1,
                            refraction_index as int,
                        );
                        vstd::arithmetic::div_mod::lemma_div_pos_is_pos(
                            SCALE * SCALE,
                            refraction_index as int,
                        );
                    }
                    ((SCALE as i64) * (SCALE as i64)) / refraction_index
                } else {
                    refraction_index
                };
                let dir = match refract(input_ray.dir, n, ratio) {
                    Some(d) => d,
                    None => reflect(input_ray.dir, n),
                };
                ScatteringResult::ScatterredRay(
                    Attenuation { r: SCALE, g: SCALE, b: SCALE },
                    Ray::new(&p, &dir),
                )
            },
            Material::Light { emit } => ScatteringResult::Light(emit),
        }
    }

    /// The response to `input_ray` at `hit`, drawing the random unit vector.
    pub fn scatter(&self, input_ray: &Ray, hit_record: &HitRecord) -> (r: ScatteringResult)
        requires
            self.wf(),
            input_ray.wf(),
            is_direction(hit_record.normal),
            in_range(hit_record.point),
        ensures
            exists|jitter: Vec3|
                is_direction(jitter) && unit_draw(jitter) && r == scatter_spec(
                    *self,
                    *input_ray,
                    *hit_record,
                    jitter,
                ),
            scattering_wf(r),
    {
        let jitter = random_on_unit_sphere();
        self.scatter_with(input_ray, hit_record, jitter)
    }
}

/// Diffuse and metal surfaces never amplify light: each channel of the
/// continuation's radiance, once attenuated, stays between zero and that
/// radiance's largest channel `top`, because every attenuation channel lies in
/// `[0, 1]`.
pub proof fn lemma_no_amplification(
    m: Material,
    input: Ray,
    hit: HitRecord,
    jitter: Vec3,
    c: Intensity,
    top: int,
)
    requires
        m.wf(),
        m is Lambertian || m is Metal,
        0 <= c.r <= top && 0 <= c.g <= top && 0 <= c.b <= top,
    ensures
        scatter_spec(m, input, hit, jitter) matches ScatteringResult::ScatterredRay(a, _) ==> {
            let out = attenuate_spec(a, c);
            a.wf() && 0 <= out.r <= top && 0 <= out.g <= top && 0 <= out.b <= top
        },
{
    if let ScatteringResult::ScatterredRay(a, _) = scatter_spec(m, input, hit, jitter) {
        lemma_attenuated_channel(a.r as int, c.r as int, top);
        lemma_attenuated_channel(a.g as int, c.g as int, top);
        lemma_attenuated_channel(a.b as int, c.b as int, top);
    }
}

/// One channel scaled by a share within `[0, 1]` stays within `[0, c]`.
pub proof fn lemma_attenuated_channel(a: int, c: int, top: int)
    requires
        0 <= a <= SCALE,
        0 <= c <= top,
    ensures
        0 <= a * c / SCALE as int <= c <= top,
{
    assert(0 <= a * c <= SCALE * c) by (nonlinear_arith)
        requires
            0 <= a <= SCALE,
            0 <= c,
    ;
    vstd::arithmetic::div_mod::lemma_div_is_ordered(a * c, SCALE * c, SCALE as int);
    vstd::arithmetic::div_mod::lemma_div_is_ordered(0, a * c, SCALE as int);
    vstd::arithmetic::div_mod::lemma_fundamental_div_mod_converse(SCALE * c, SCALE as int, c, 0);
}

} // verus!
