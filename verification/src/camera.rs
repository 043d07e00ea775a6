//! The camera and the path integrator.
use vstd::prelude::*;
use crate::bvh::BvhNode;
use crate::color::{
    lemma_sky_bytes, spec_color_bytes, spec_is_sky_bytes, spec_pixmap, write_color,
    write_header,
};
use crate::hit_record::HitRecord;
use crate::hittables::{materials_below, spec_scene_hit, Hittable, Hittables};
use crate::bvh::lemma_bvh_hit_is_direct;
use crate::material::{
    is_uniform_draw, lemma_attenuation_in_unit, material_in_unit, scatter_ray,
    spec_scatter_with, Material,
};
use crate::random::random_in_range;
use crate::random_vector::is_random_vector;
use crate::ray::Ray;
use crate::scalar::{
    lemma_floor_div_compare, Fixed, HALF, MINUS_HALF, MINUS_ONE, SCALE, TWO,
};
use crate::trig::{degrees_to_radians, spec_degrees_to_radians, spec_tan_quarter, tan_quarter};
use crate::vector::{
    calc_cross_product, lemma_hadamard_in_unit, lemma_normalized_in_unit,
    lemma_product_with_unit, spec_cross_product, spec_in_unit, Color, Vector3,
};
use rand::rngs::ThreadRng;

verus! {

/// The least ray parameter at which a hit counts, in raw units: a thousandth. It keeps
/// a scattered ray from hitting the surface it leaves.
pub const NEAREST_HIT: i64 = 1_000_000;

/// The green channel of the sky's blue, in raw units: 0.7. Its red channel is one
/// half, its blue channel one.
pub const SKY_GREEN: i64 = 700_000_000;

/// How many points of the square are drawn for a point of the lens before its centre
/// is used instead.
pub const LENS_ATTEMPTS: u32 = 64;

/// A camera: where it stands, how the pixels of its image lie in space, and how wide
/// its lens is.
#[derive(Clone, Copy, Debug, PartialEq, Eq, Structural)]
pub struct Camera {
    pub image_width: i32,
    pub image_height: i32,
    /// The centre of the pixel in the top left corner.
    pub top_left_pixel: Vector3,
    /// The step from a pixel to the next one to the right.
    pub pixel_spacing_u: Vector3,
    /// The step from a pixel to the next one below.
    pub pixel_spacing_v: Vector3,
    pub center: Vector3,
    /// The angle of the cone from the focus point to the lens, in degrees; a lens of
    /// angle zero or less is a pinhole.
    pub defocus_angle: Fixed,
    /// The horizontal and the vertical radius of the lens.
    pub defocus_disk_u: Vector3,
    pub defocus_disk_v: Vector3,
    pub pixel_sample_count: i32,
    /// One over the number of samples, rounded down to the numbers' resolution. A
    /// pixel's colour is the sum of its samples divided by their number, which rounds
    /// once; this value is kept for those who need it.
    pub one_over_pixel_sample_count: Fixed,
}

/// Half a millionth, in raw units.
pub const HALF_MILLIONTH: i64 = 500;

/// The number of rows of an image of the given width and aspect ratio, at least one:
/// the width over the ratio, taken to the nearest millionth and rounded down. A ratio
/// such as 16 to 9 has no exact value among the numbers; with the quotient taken to a
/// millionth, either of its neighbours gives the rows that the ratio stands for.
pub open spec fn spec_image_height(image_width: i32, aspect_ratio: Fixed) -> i32 {
    let rows = Fixed::spec_from_int(image_width as i64).spec_div(aspect_ratio).spec_add(
        Fixed { raw: HALF_MILLIONTH },
    ).spec_floor();
    if rows < 1 {
        1
    } else if rows > i32::MAX {
        i32::MAX
    } else {
        rows as i32
    }
}

fn image_height(image_width: i32, aspect_ratio: Fixed) -> (r: i32)
    ensures
        r == spec_image_height(image_width, aspect_ratio),
        r >= 1,
{
    let rows: i64 = Fixed::from_int(image_width as i64).div(aspect_ratio).add(
        Fixed { raw: HALF_MILLIONTH },
    ).floor();
    if rows < 1 {
        1
    } else if rows > i32::MAX as i64 {
        i32::MAX
    } else {
        rows as i32
    }
}

/// The tangent of half an angle given in degrees.
pub open spec fn spec_half_angle_tan(degrees: Fixed) -> Fixed {
    spec_tan_quarter(spec_degrees_to_radians(degrees).spec_mul(Fixed { raw: HALF }))
}

fn half_angle_tan(degrees: Fixed) -> (r: Fixed)
    ensures
        r == spec_half_angle_tan(degrees),
{
    tan_quarter(degrees_to_radians(degrees).mul(Fixed { raw: HALF }))
}

impl Camera {
    /// The camera at `center` that looks at `look_at` with `vup` upwards. The plane of
    /// the image lies at the focus distance; its height follows from the vertical
    /// field of view, its width from the height and the shape of the image. The
    /// pixels' centres divide the plane evenly.
    pub open spec fn spec_new(
        center: Vector3,
        look_at: Vector3,
        vup: Vector3,
        defocus_angle: Fixed,
        focus_dist: Fixed,
        aspect_ratio: Fixed,
        image_width: i32,
        vfov: Fixed,
        pixel_sample_count: i32,
    ) -> Camera {
        let image_height = spec_image_height(image_width, aspect_ratio);
        let width = Fixed::spec_from_int(image_width as i64);
        let height = Fixed::spec_from_int(image_height as i64);
        let viewport_height = Fixed { raw: TWO }.spec_mul(spec_half_angle_tan(vfov)).spec_mul(
            focus_dist,
        );
        let viewport_width = viewport_height.spec_mul(width.spec_div(height));
        let w = center.spec_sub(look_at).spec_normalized();
        let u = spec_cross_product(vup, w).spec_normalized();
        let v = spec_cross_product(w, u);
        let viewport_u = u.spec_scale(viewport_width);
        let viewport_v = v.spec_scale(viewport_height).spec_neg();
        let pixel_spacing_u = viewport_u.spec_unscale(width);
        let pixel_spacing_v = viewport_v.spec_unscale(height);
        let viewport_upper_left = center.spec_sub(w.spec_scale(focus_dist)).spec_sub(
            viewport_u.spec_scale(Fixed { raw: HALF }),
        ).spec_sub(viewport_v.spec_scale(Fixed { raw: HALF }));
        let defocus_radius = focus_dist.spec_mul(spec_half_angle_tan(defocus_angle));
        Camera {
            image_width,
            image_height,
            top_left_pixel: viewport_upper_left.spec_add(
                pixel_spacing_u.spec_scale(Fixed { raw: HALF }),
            ).spec_add(pixel_spacing_v.spec_scale(Fixed { raw: HALF })),
            pixel_spacing_u,
            pixel_spacing_v,
            center,
            defocus_angle,
            defocus_disk_u: u.spec_scale(defocus_radius),
            defocus_disk_v: v.spec_scale(defocus_radius),
            pixel_sample_count,
            one_over_pixel_sample_count: Fixed { raw: SCALE }.spec_div(
                Fixed::spec_from_int(pixel_sample_count as i64),
            ),
        }
    }

    /// Sets a camera up. Angles are in degrees.
    pub fn new(
        center: Vector3,
        look_at: Vector3,
        vup: Vector3,
        defocus_angle: Fixed,
        focus_dist: Fixed,
        aspect_ratio: Fixed,
        image_width: i32,
        vfov: Fixed,
        pixel_sample_count: i32,
    ) -> (r: Camera)
        ensures
            r == Self::spec_new(
                center,
                look_at,
                vup,
                defocus_angle,
                focus_dist,
                aspect_ratio,
                image_width,
                vfov,
                pixel_sample_count,
            ),
            r.image_height >= 1,
    {
        let image_height = image_height(image_width, aspect_ratio);
        let width = Fixed::from_int(image_width as i64);
        let height = Fixed::from_int(image_height as i64);
        let viewport_height = Fixed { raw: TWO }.mul(half_angle_tan(vfov)).mul(focus_dist);
        let viewport_width = viewport_height.mul(width.div(height));
        let w = Vector3::calc_normalized_vector(&center.sub(look_at));
        let u = Vector3::calc_normalized_vector(&calc_cross_product(&vup, &w));
        let v = calc_cross_product(&w, &u);
        let viewport_u = u.scale(viewport_width);
        let viewport_v = v.scale(viewport_height).neg();
        let pixel_spacing_u = viewport_u.unscale(width);
        let pixel_spacing_v = viewport_v.unscale(height);
        let viewport_upper_left = center.sub(w.scale(focus_dist)).sub(
            viewport_u.scale(Fixed { raw: HALF }),
        ).sub(viewport_v.scale(Fixed { raw: HALF }));
        let defocus_radius = focus_dist.mul(half_angle_tan(defocus_angle));
        Camera {
            image_width,
            image_height,
            top_left_pixel: viewport_upper_left.add(pixel_spacing_u.scale(Fixed { raw: HALF })).add(
                pixel_spacing_v.scale(Fixed { raw: HALF }),
            ),
            pixel_spacing_u,
            pixel_spacing_v,
            center,
            defocus_angle,
            defocus_disk_u: u.scale(defocus_radius),
            defocus_disk_v: v.scale(defocus_radius),
            pixel_sample_count,
            one_over_pixel_sample_count: Fixed { raw: SCALE }.div(
                Fixed::from_int(pixel_sample_count as i64),
            ),
        }
    }

    /// The ray for the pixel in column `x` and row `y`, through the point of the image
    /// plane that lies `jitter` pixels off the pixel's centre, from the point of the
    /// lens with the coordinates `lens` on the unit disk (from the camera's centre for
    /// a pinhole), at the instant `time`.
    pub open spec fn spec_ray_through(
        self,
        x: i32,
        y: i32,
        jitter: (Fixed, Fixed),
        lens: (Fixed, Fixed),
        time: Fixed,
    ) -> Ray {
        let sample_pixel = self.top_left_pixel.spec_add(
            self.pixel_spacing_u.spec_scale(Fixed::spec_from_int(x as i64).spec_add(jitter.0)),
        ).spec_add(
            self.pixel_spacing_v.spec_scale(Fixed::spec_from_int(y as i64).spec_add(jitter.1)),
        );
        let origin = if self.defocus_angle.raw <= 0 {
            self.center
        } else {
            self.center.spec_add(self.defocus_disk_u.spec_scale(lens.0)).spec_add(
                self.defocus_disk_v.spec_scale(lens.1),
            )
        };
        Ray { origin, direction: sample_pixel.spec_sub(origin), time }
    }

    pub fn ray_through(
        &self,
        x: i32,
        y: i32,
        jitter: (Fixed, Fixed),
        lens: (Fixed, Fixed),
        time: Fixed,
    ) -> (r: Ray)
        ensures
            r == self.spec_ray_through(x, y, jitter, lens, time),
    {
        let sample_pixel = self.top_left_pixel.add(
            self.pixel_spacing_u.scale(Fixed::from_int(x as i64).add(jitter.0)),
        ).add(self.pixel_spacing_v.scale(Fixed::from_int(y as i64).add(jitter.1)));
        let origin = if self.defocus_angle.raw <= 0 {
            self.center
        } else {
            self.center.add(self.defocus_disk_u.scale(lens.0)).add(self.defocus_disk_v.scale(lens.1))
        };
        Ray { origin, direction: sample_pixel.sub(origin), time }
    }

    /// Draws a ray for the pixel in column `x` and row `y`: through a random point of
    /// the pixel's square, from a random point of the lens, at a random instant.
    pub fn sample_ray(&self, x: i32, y: i32, rng: &mut ThreadRng) -> (r: Ray)
        ensures
            exists|jitter: (Fixed, Fixed), lens: (Fixed, Fixed), time: Fixed|
                is_jitter(jitter) && on_lens(lens) && 0 <= time.raw < SCALE && r
                    == #[trigger] self.spec_ray_through(x, y, jitter, lens, time),
    {
        let jitter = (
            Fixed { raw: random_in_range(rng, MINUS_HALF, HALF) },
            Fixed { raw: random_in_range(rng, MINUS_HALF, HALF) },
        );
        let lens = random_in_unit_disk(rng);
        let time = Fixed { raw: random_in_range(rng, 0, SCALE) };
        self.ray_through(x, y, jitter, lens, time)
    }
}

/// Whether both offsets lie in `[-1/2, 1/2)`.
pub open spec fn is_jitter(jitter: (Fixed, Fixed)) -> bool {
    MINUS_HALF <= jitter.0.raw < HALF && MINUS_HALF <= jitter.1.raw < HALF
}

/// Whether the point lies on the unit disk.
pub open spec fn on_lens(p: (Fixed, Fixed)) -> bool {
    p.0.spec_mul(p.0).spec_add(p.1.spec_mul(p.1)).raw < SCALE
}

/// Draws a point of the unit disk: the first of up to [`LENS_ATTEMPTS`] points of the
/// square around it that falls on the disk, else the centre.
pub fn random_in_unit_disk(rng: &mut ThreadRng) -> (p: (Fixed, Fixed))
    ensures
        on_lens(p),
{
    let mut attempt: u32 = 0;
    while attempt < LENS_ATTEMPTS
        invariant
            attempt <= LENS_ATTEMPTS,
        decreases LENS_ATTEMPTS - attempt,
    {
        let x = Fixed { raw: random_in_range(rng, MINUS_ONE, SCALE) };
        let y = Fixed { raw: random_in_range(rng, MINUS_ONE, SCALE) };
        if x.mul(x).add(y.mul(y)).raw < SCALE {
            return (x, y);
        }
        attempt += 1;
    }
    assert((0int * 0int) / (SCALE as int) == 0);
    (Fixed { raw: 0 }, Fixed { raw: 0 })
}

/// The colour of the sky in the direction of a ray: white at the horizon's lower end,
/// blue at the upper, blended by the height of the unit direction.
pub open spec fn spec_sky_color(ray_in: Ray) -> Color {
    let one = Fixed { raw: SCALE };
    let unit_vector = ray_in.direction.spec_normalized();
    let lerp_value = unit_vector.y.spec_add(one).spec_mul(Fixed { raw: HALF });
    let white = Vector3 { x: one, y: one, z: one };
    let blue = Vector3 { x: Fixed { raw: HALF }, y: Fixed { raw: SKY_GREEN }, z: one };
    white.spec_scale(one.spec_sub(lerp_value)).spec_add(blue.spec_scale(lerp_value))
}

pub fn sky_color(ray_in: &Ray) -> (r: Color)
    ensures
        r == spec_sky_color(*ray_in),
{
    let one = Fixed { raw: SCALE };
    let unit_vector = Vector3::calc_normalized_vector(&ray_in.direction);
    let lerp_value = unit_vector.y.add(one).mul(Fixed { raw: HALF });
    let white = Vector3 { x: one, y: one, z: one };
    let blue = Vector3 { x: Fixed { raw: HALF }, y: Fixed { raw: SKY_GREEN }, z: one };
    white.scale(one.sub(lerp_value)).add(blue.scale(lerp_value))
}

/// What a surface makes of a ray that hits it at `rec`, given the random unit vector
/// and the uniform draw that its material may use.
pub open spec fn spec_scatter_at(
    material: Material,
    ray_in: Ray,
    rec: HitRecord,
    unit: Vector3,
    draw: Fixed,
) -> Option<(Color, Ray)> {
    spec_scatter_with(
        material,
        ray_in,
        rec.point,
        rec.normal,
        rec.front_face,
        rec.u,
        rec.v,
        unit,
        draw,
    )
}

/// The light from a surface, given what the surface makes of the ray and the light
/// `inner` along the scattered ray: black where the ray is absorbed, else `inner`
/// attenuated by the surface's colour.
pub open spec fn spec_light_from(outcome: Option<(Color, Ray)>, inner: Color) -> Color {
    match outcome {
        None => Vector3::spec_zero(),
        Some((attenuation, _)) => inner.spec_hadamard(attenuation),
    }
}

/// Whether `colour` may be the light that arrives along a ray, followed over at most
/// `depth` surfaces: black when the depth is used up; the sky's colour where the ray
/// leaves the scene; else the light from the surface that is hit, for some random
/// unit vector and uniform draw and for some light that may arrive along the
/// scattered ray, followed over one surface less.
pub open spec fn is_light_along(
    objects: Seq<Hittable>,
    nodes: Seq<BvhNode>,
    materials: Seq<Material>,
    ray_in: Ray,
    depth: int,
    colour: Color,
) -> bool
    decreases depth,
{
    if depth <= 0 {
        colour == Vector3::spec_zero()
    } else {
        match spec_scene_hit(
            objects,
            nodes,
            ray_in,
            Fixed { raw: NEAREST_HIT },
            Fixed { raw: i64::MAX },
        ) {
            None => colour == spec_sky_color(ray_in),
            Some(rec) => exists|unit: Vector3, draw: Fixed, inner: Color|
                is_random_vector(unit) && is_uniform_draw(draw) && colour
                    == #[trigger] spec_light_from(
                    spec_scatter_at(materials[rec.material as int], ray_in, rec, unit, draw),
                    inner,
                ) && (spec_scatter_at(
                    materials[rec.material as int],
                    ray_in,
                    rec,
                    unit,
                    draw,
                ) matches Some(scattered) ==> is_light_along(
                    objects,
                    nodes,
                    materials,
                    scattered.1,
                    depth - 1,
                    inner,
                )),
        }
    }
}

/// The sky's colour is a colour: every channel lies in `[0, 1]`.
pub proof fn lemma_sky_in_unit(ray_in: Ray)
    ensures
        spec_in_unit(spec_sky_color(ray_in)),
{
    let one = Fixed { raw: SCALE };
    let half = Fixed { raw: HALF };
    let green = Fixed { raw: SKY_GREEN };
    lemma_normalized_in_unit(ray_in.direction);
    let unit_vector = ray_in.direction.spec_normalized();
    let raised = unit_vector.y.spec_add(one);
    assert(0 <= raised.raw <= 2 * SCALE);
    let lerp_value = raised.spec_mul(half);
    assert(0 <= lerp_value.raw <= SCALE) by {
        assert(0 <= (raised.raw * HALF) / (SCALE as int) <= SCALE) by (nonlinear_arith)
            requires
                0 <= raised.raw <= 2 * SCALE,
                HALF == 500_000_000,
                SCALE == 1_000_000_000,
        ;
    }
    let rest = one.spec_sub(lerp_value);
    lemma_product_with_unit(rest, one);
    lemma_product_with_unit(lerp_value, half);
    lemma_product_with_unit(lerp_value, green);
    lemma_product_with_unit(lerp_value, one);
}

/// Whether every material of the table attenuates by a colour.
pub open spec fn materials_in_unit(materials: Seq<Material>) -> bool {
    forall|i: int| 0 <= i < materials.len() ==> material_in_unit(#[trigger] materials[i])
}

/// Where every material attenuates by a colour, the light along a ray is a colour:
/// every channel lies in `[0, 1]`.
pub proof fn lemma_light_in_unit(
    objects: Seq<Hittable>,
    nodes: Seq<BvhNode>,
    materials: Seq<Material>,
    ray_in: Ray,
    depth: int,
    colour: Color,
)
    requires
        is_light_along(objects, nodes, materials, ray_in, depth, colour),
        materials_in_unit(materials),
        materials_below(objects, materials.len() as int),
    ensures
        spec_in_unit(colour),
    decreases depth,
{
    if depth > 0 {
        let tmin = Fixed { raw: NEAREST_HIT };
        let tmax = Fixed { raw: i64::MAX };
        match spec_scene_hit(objects, nodes, ray_in, tmin, tmax) {
            None => {
                lemma_sky_in_unit(ray_in);
            },
            Some(rec) => {
                lemma_bvh_hit_is_direct(objects, nodes, ray_in, tmin, tmax);
                let k = choose|k: int|
                    0 <= k < objects.len() && (#[trigger] objects[k]).spec_material()
                        == rec.material;
                assert(0 <= rec.material < materials.len());
                let (unit, draw, inner) = choose|unit: Vector3, draw: Fixed, inner: Color|
                    is_random_vector(unit) && is_uniform_draw(draw) && colour
                        == #[trigger] spec_light_from(
                        spec_scatter_at(materials[rec.material as int], ray_in, rec, unit, draw),
                        inner,
                    ) && (spec_scatter_at(
                        materials[rec.material as int],
                        ray_in,
                        rec,
                        unit,
                        draw,
                    ) matches Some(scattered) ==> is_light_along(
                        objects,
                        nodes,
                        materials,
                        scattered.1,
                        depth - 1,
                        inner,
                    ));
                let outcome = spec_scatter_at(
                    materials[rec.material as int],
                    ray_in,
                    rec,
                    unit,
                    draw,
                );
                match outcome {
                    None => {},
                    Some(scattered) => {
                        lemma_light_in_unit(
                            objects,
                            nodes,
                            materials,
                            scattered.1,
                            depth - 1,
                            inner,
                        );
                        lemma_attenuation_in_unit(
                            &materials[rec.material as int],
                            ray_in,
                            rec.point,
                            rec.normal,
                            rec.front_face,
                            rec.u,
                            rec.v,
                            unit,
                            draw,
                        );
                        lemma_hadamard_in_unit(inner, scattered.0);
                    },
                }
            },
        }
    }
}

/// Computes the light that arrives along a ray, followed over at most `max_depth`
/// surfaces. The scene's hierarchy is built if it has none; the ray is followed
/// through the hierarchy that the scene holds afterwards.
///
/// In a scene without primitives the result is the sky's colour.
pub fn ray_color(
    ray_in: &Ray,
    scene: &mut Hittables,
    rng: &mut ThreadRng,
    materials: &Vec<Material>,
    max_depth: i32,
) -> (r: Color)
    requires
        max_depth > 0 ==> materials_below(old(scene).objects(), materials.len() as int),
    ensures
        final(scene).objects() == old(scene).objects(),
        max_depth > 0 ==> final(scene).settled(),
        old(scene).settled() ==> final(scene).settled() && final(scene).nodes() == old(
            scene,
        ).nodes(),
        is_light_along(
            final(scene).objects(),
            final(scene).nodes(),
            materials@,
            *ray_in,
            max_depth as int,
            r,
        ),
        max_depth <= 0 ==> r == Vector3::spec_zero(),
        max_depth > 0 && old(scene).objects().len() == 0 ==> r == spec_sky_color(*ray_in),
        materials_in_unit(materials@) ==> spec_in_unit(r),
    decreases max_depth,
{
    if max_depth <= 0 {
        return Vector3::zero();
    }
    let closest_record = scene.get_hit_record(
        ray_in,
        Fixed { raw: NEAREST_HIT },
        Fixed { raw: i64::MAX },
    );
    let ghost nodes = scene.nodes();
    let colour = match closest_record {
        Some(closest_record) => {
            let material = &materials[closest_record.material];
            let scattered = scatter_ray(
                material,
                ray_in,
                closest_record.point,
                closest_record.normal,
                closest_record.front_face,
                closest_record.u,
                closest_record.v,
                rng,
            );
            let ghost (unit, draw) = choose|unit: Vector3, draw: Fixed|
                is_random_vector(unit) && is_uniform_draw(draw) && scattered
                    == #[trigger] spec_scatter_with(
                    *material,
                    *ray_in,
                    closest_record.point,
                    closest_record.normal,
                    closest_record.front_face,
                    closest_record.u,
                    closest_record.v,
                    unit,
                    draw,
                );
            match scattered {
                Some((attenuation, scattered_ray)) => {
                    let recursive_result = ray_color(
                        &scattered_ray,
                        scene,
                        rng,
                        materials,
                        max_depth - 1,
                    );
                    let colour = recursive_result.hadamard(attenuation);
                    proof {
                        assert(colour == spec_light_from(
                            spec_scatter_at(*material, *ray_in, closest_record, unit, draw),
                            recursive_result,
                        ));
                    }
                    colour
                },
                None => {
                    proof {
                        assert(Vector3::spec_zero() == spec_light_from(
                            spec_scatter_at(*material, *ray_in, closest_record, unit, draw),
                            Vector3::spec_zero(),
                        ));
                    }
                    Vector3::zero()
                },
            }
        },
        None => sky_color(ray_in),
    };
    proof {
        assert(is_light_along(scene.objects(), scene.nodes(), materials@, *ray_in, max_depth as int, colour));
        if materials_in_unit(materials@) {
            lemma_light_in_unit(
                scene.objects(),
                scene.nodes(),
                materials@,
                *ray_in,
                max_depth as int,
                colour,
            );
        }
    }
    colour
}

/// Whether a colour is one of the sky's: the blue channel is one, the red channel at
/// least a half and the green channel at least seven tenths.
pub open spec fn spec_is_sky(c: Color) -> bool {
    &&& c.z.raw == SCALE
    &&& HALF <= c.x.raw <= SCALE
    &&& SKY_GREEN <= c.y.raw <= SCALE
}

/// The sky's colour in any direction is one of the sky's colours.
pub proof fn lemma_sky_is_sky(ray_in: Ray)
    ensures
        spec_is_sky(spec_sky_color(ray_in)),
{
    let one = Fixed { raw: SCALE };
    let half = Fixed { raw: HALF };
    let green = Fixed { raw: SKY_GREEN };
    lemma_normalized_in_unit(ray_in.direction);
    let unit_vector = ray_in.direction.spec_normalized();
    let raised = unit_vector.y.spec_add(one);
    let lerp_value = raised.spec_mul(half);
    assert(0 <= lerp_value.raw <= SCALE) by {
        assert(0 <= (raised.raw * HALF) / (SCALE as int) <= SCALE) by (nonlinear_arith)
            requires
                0 <= raised.raw <= 2 * SCALE,
                HALF == 500_000_000,
                SCALE == 1_000_000_000,
        ;
    }
    let l = lerp_value.raw as int;
    let rest = one.spec_sub(lerp_value);
    lemma_product_with_unit(rest, one);
    lemma_product_with_unit(lerp_value, half);
    lemma_product_with_unit(lerp_value, green);
    lemma_product_with_unit(lerp_value, one);
    assert(SCALE * (l - 500_000_000) <= l * HALF && SCALE * (l - 300_000_000) <= l * SKY_GREEN)
        by (nonlinear_arith)
        requires
            0 <= l <= SCALE,
            HALF == 500_000_000,
            SKY_GREEN == 700_000_000,
            SCALE == 1_000_000_000,
    ;
    lemma_floor_div_compare(l * HALF, SCALE as int, l - 500_000_000);
    lemma_floor_div_compare(l * SKY_GREEN, SCALE as int, l - 300_000_000);
}

/// The most samples that a pixel can have: the largest 32-bit number.
pub open spec fn spec_most_samples() -> int {
    0x7fff_ffff
}

/// The sum of sky colours: the blue channel is their number, the red channel at
/// least half and the green channel at least seven tenths of it.
pub proof fn lemma_sum_of_sky(samples: Seq<Color>)
    requires
        samples.len() <= spec_most_samples(),
        forall|i: int| 0 <= i < samples.len() ==> spec_is_sky(#[trigger] samples[i]),
    ensures
        spec_sum(samples).z.raw == samples.len() * SCALE,
        samples.len() * HALF <= spec_sum(samples).x.raw <= samples.len() * SCALE,
        samples.len() * SKY_GREEN <= spec_sum(samples).y.raw <= samples.len() * SCALE,
    decreases samples.len(),
{
    let n = samples.len() as int;
    if n > 0 {
        let before = samples.drop_last();
        assert forall|i: int| 0 <= i < before.len() implies spec_is_sky(#[trigger] before[i]) by {
            assert(before[i] == samples[i]);
        }
        lemma_sum_of_sky(before);
        assert(spec_is_sky(samples[n - 1]));
        assert((n - 1) * SCALE + SCALE == n * SCALE && (n - 1) * HALF + HALF == n * HALF && (n
            - 1) * SKY_GREEN + SKY_GREEN == n * SKY_GREEN && 0 <= n * SCALE
            <= 0x7fff_ffff * 1_000_000_000) by (nonlinear_arith)
            requires
                0 < n <= 0x7fff_ffff,
                SCALE == 1_000_000_000,
        ;
    } else {
        assert(0 * SCALE == 0 && 0 * HALF == 0 && 0 * SKY_GREEN == 0) by (nonlinear_arith);
    }
}

/// The mean of any number of sky colours is one of the sky's colours.
pub proof fn lemma_mean_of_sky(samples: Seq<Color>, count: i32)
    requires
        count >= 1,
        samples.len() == count,
        forall|i: int| 0 <= i < samples.len() ==> spec_is_sky(#[trigger] samples[i]),
    ensures
        spec_is_sky(spec_sum(samples).spec_unscale(Fixed::spec_from_int(count as i64))),
{
    lemma_sum_of_sky(samples);
    let n = count as int;
    let sum = spec_sum(samples);
    let d = n * SCALE;
    assert(0 < d <= 0x7fff_ffff * 1_000_000_000) by (nonlinear_arith)
        requires
            1 <= n <= 0x7fff_ffff,
            d == n * SCALE,
            SCALE == 1_000_000_000,
    ;
    assert(Fixed::spec_from_int(count as i64).raw == d);
    assert(d * SCALE == sum.z.raw * SCALE && d * HALF <= sum.x.raw * SCALE && sum.x.raw * SCALE
        <= d * SCALE && d * SKY_GREEN <= sum.y.raw * SCALE && sum.y.raw * SCALE <= d * SCALE)
        by (nonlinear_arith)
        requires
            d == n * SCALE,
            sum.z.raw == n * SCALE,
            n * HALF <= sum.x.raw <= n * SCALE,
            n * SKY_GREEN <= sum.y.raw <= n * SCALE,
            SCALE == 1_000_000_000,
    ;
    lemma_floor_div_compare(sum.z.raw * SCALE, d, SCALE as int);
    lemma_floor_div_compare(sum.z.raw * SCALE, d, SCALE + 1);
    lemma_floor_div_compare(sum.x.raw * SCALE, d, HALF as int);
    lemma_floor_div_compare(sum.x.raw * SCALE, d, SCALE + 1);
    lemma_floor_div_compare(sum.y.raw * SCALE, d, SKY_GREEN as int);
    lemma_floor_div_compare(sum.y.raw * SCALE, d, SCALE + 1);
    assert(sum.z.raw * SCALE < d * (SCALE + 1) && sum.x.raw * SCALE < d * (SCALE + 1) && sum.y.raw
        * SCALE < d * (SCALE + 1)) by (nonlinear_arith)
        requires
            sum.z.raw * SCALE <= d * SCALE,
            sum.x.raw * SCALE <= d * SCALE,
            sum.y.raw * SCALE <= d * SCALE,
            d > 0,
    ;
}

/// In a scene without primitives every pixel has one of the sky's colours.
pub proof fn lemma_empty_scene_pixel(
    camera: Camera,
    x: i32,
    y: i32,
    nodes: Seq<BvhNode>,
    materials: Seq<Material>,
    depth: int,
    colour: Color,
)
    requires
        depth > 0,
        camera.pixel_sample_count >= 1,
        is_pixel_colour(camera, x, y, Seq::empty(), nodes, materials, depth, colour),
    ensures
        spec_is_sky(colour),
{
    let samples = choose|samples: Seq<Color>|
        samples.len() == spec_extent(camera.pixel_sample_count) && (forall|i: int|
            0 <= i < samples.len() ==> is_sample_colour(
                camera,
                x,
                y,
                Seq::empty(),
                nodes,
                materials,
                depth,
                #[trigger] samples[i],
            )) && colour == #[trigger] spec_sum(samples).spec_unscale(
            Fixed::spec_from_int(camera.pixel_sample_count as i64),
        );
    assert forall|i: int| 0 <= i < samples.len() implies spec_is_sky(#[trigger] samples[i]) by {
        assert(is_sample_colour(
            camera,
            x,
            y,
            Seq::empty(),
            nodes,
            materials,
            depth,
            samples[i],
        ));
        let (jitter, lens, time) = choose|jitter: (Fixed, Fixed), lens: (Fixed, Fixed), time: Fixed|
            is_jitter(jitter) && on_lens(lens) && 0 <= time.raw < SCALE && is_light_along(
                Seq::empty(),
                nodes,
                materials,
                #[trigger] camera.spec_ray_through(x, y, jitter, lens, time),
                depth,
                samples[i],
            );
        lemma_sky_is_sky(camera.spec_ray_through(x, y, jitter, lens, time));
    }
    lemma_mean_of_sky(samples, camera.pixel_sample_count);
}

/// The sum of a sequence of colours, from the first on.
pub open spec fn spec_sum(colours: Seq<Color>) -> Color
    decreases colours.len(),
{
    if colours.len() == 0 {
        Vector3::spec_zero()
    } else {
        spec_sum(colours.drop_last()).spec_add(colours.last())
    }
}

/// Whether `colour` may be the light along a ray drawn for the pixel in column `x`
/// and row `y`.
pub open spec fn is_sample_colour(
    camera: Camera,
    x: i32,
    y: i32,
    objects: Seq<Hittable>,
    nodes: Seq<BvhNode>,
    materials: Seq<Material>,
    depth: int,
    colour: Color,
) -> bool {
    exists|jitter: (Fixed, Fixed), lens: (Fixed, Fixed), time: Fixed|
        is_jitter(jitter) && on_lens(lens) && 0 <= time.raw < SCALE && is_light_along(
            objects,
            nodes,
            materials,
            #[trigger] camera.spec_ray_through(x, y, jitter, lens, time),
            depth,
            colour,
        )
}

/// Whether `colour` may be the colour of the pixel in column `x` and row `y`: the sum
/// of the light along `pixel_sample_count` rays drawn for it, divided by their
/// number.
pub open spec fn is_pixel_colour(
    camera: Camera,
    x: i32,
    y: i32,
    objects: Seq<Hittable>,
    nodes: Seq<BvhNode>,
    materials: Seq<Material>,
    depth: int,
    colour: Color,
) -> bool {
    exists|samples: Seq<Color>|
        samples.len() == spec_extent(camera.pixel_sample_count) && (forall|i: int|
            0 <= i < samples.len() ==> is_sample_colour(
                camera,
                x,
                y,
                objects,
                nodes,
                materials,
                depth,
                #[trigger] samples[i],
            )) && colour == #[trigger] spec_sum(samples).spec_unscale(
            Fixed::spec_from_int(camera.pixel_sample_count as i64),
        )
}

/// Computes the colour of the pixel in column `x` and row `y`: the mean of the light
/// along `pixel_sample_count` rays drawn for it.
pub fn pixel_color(
    camera: &Camera,
    x: i32,
    y: i32,
    scene: &mut Hittables,
    rng: &mut ThreadRng,
    materials: &Vec<Material>,
    max_depth: i32,
) -> (r: Color)
    requires
        max_depth > 0 ==> materials_below(old(scene).objects(), materials.len() as int),
    ensures
        final(scene).objects() == old(scene).objects(),
        final(scene).settled(),
        old(scene).settled() ==> final(scene).nodes() == old(scene).nodes(),
        is_pixel_colour(
            *camera,
            x,
            y,
            final(scene).objects(),
            final(scene).nodes(),
            materials@,
            max_depth as int,
            r,
        ),
{
    scene.prepare();
    let ghost nodes = scene.nodes();
    let ghost mut samples: Seq<Color> = Seq::empty();
    let mut sum = Vector3::zero();
    let mut sample: i32 = 0;
    while sample < camera.pixel_sample_count
        invariant
            0 <= sample,
            sample <= camera.pixel_sample_count || sample == 0,
            scene.objects() == old(scene).objects(),
            scene.settled(),
            scene.nodes() == nodes,
            max_depth > 0 ==> materials_below(scene.objects(), materials.len() as int),
            samples.len() == sample,
            sum == spec_sum(samples),
            forall|i: int|
                0 <= i < samples.len() ==> is_sample_colour(
                    *camera,
                    x,
                    y,
                    scene.objects(),
                    nodes,
                    materials@,
                    max_depth as int,
                    #[trigger] samples[i],
                ),
        decreases camera.pixel_sample_count - sample,
    {
        let ray = camera.sample_ray(x, y, rng);
        let light = ray_color(&ray, scene, rng, materials, max_depth);
        sum = sum.add(light);
        proof {
            let longer = samples.push(light);
            assert(longer.drop_last() =~= samples);
            assert forall|i: int| 0 <= i < longer.len() implies is_sample_colour(
                *camera,
                x,
                y,
                scene.objects(),
                nodes,
                materials@,
                max_depth as int,
                #[trigger] longer[i],
            ) by {
                if i < samples.len() {
                    assert(longer[i] == samples[i]);
                }
            }
            samples = longer;
        }
        sample += 1;
    }
    sum.unscale(Fixed::from_int(camera.pixel_sample_count as i64))
}

/// The number of pixels along a side of the given signed length: none for a negative
/// one.
pub open spec fn spec_extent(length: i32) -> nat {
    if length < 0 {
        0
    } else {
        length as nat
    }
}

/// Whether `colours` may be the pixels of an image of the scene, row by row from the
/// top: there is one for each pixel, and each may be the colour of its pixel.
pub open spec fn is_image(
    camera: Camera,
    objects: Seq<Hittable>,
    nodes: Seq<BvhNode>,
    materials: Seq<Material>,
    depth: int,
    colours: Seq<Color>,
) -> bool {
    let width = spec_extent(camera.image_width) as int;
    let height = spec_extent(camera.image_height) as int;
    &&& colours.len() == width * height
    &&& forall|x: int, y: int|
        0 <= x < width && 0 <= y < height ==> is_pixel_colour(
            camera,
            x as i32,
            y as i32,
            objects,
            nodes,
            materials,
            depth,
            #[trigger] colours[y * width + x],
        )
}

/// An image of a scene without primitives is all sky: whatever rays are drawn, every
/// pixel's line holds the bytes of one of the sky's colours, with blue 255, red at
/// least 181 and green at least 214.
pub proof fn lemma_empty_scene_image(
    camera: Camera,
    nodes: Seq<BvhNode>,
    materials: Seq<Material>,
    depth: int,
    colours: Seq<Color>,
)
    requires
        depth > 0,
        camera.pixel_sample_count >= 1,
        is_image(camera, Seq::empty(), nodes, materials, depth, colours),
    ensures
        forall|x: int, y: int|
            0 <= x < spec_extent(camera.image_width) && 0 <= y < spec_extent(camera.image_height)
                ==> spec_is_sky_bytes(
                spec_color_bytes(#[trigger] colours[y * spec_extent(camera.image_width) + x]),
            ),
{
    let width = spec_extent(camera.image_width) as int;
    let height = spec_extent(camera.image_height) as int;
    assert forall|x: int, y: int| 0 <= x < width && 0 <= y < height implies spec_is_sky_bytes(
        spec_color_bytes(#[trigger] colours[y * width + x]),
    ) by {
        let colour = colours[y * width + x];
        assert(is_pixel_colour(
            camera,
            x as i32,
            y as i32,
            Seq::empty(),
            nodes,
            materials,
            depth,
            colour,
        ));
        lemma_empty_scene_pixel(camera, x as i32, y as i32, nodes, materials, depth, colour);
        lemma_sky_bytes(colour);
    }
}

/// Renders the scene as the text of a plain pixmap: the head, then one line for each
/// pixel, row by row from the top. The scene's hierarchy is built if it has none.
pub fn render(
    camera: &Camera,
    scene: &mut Hittables,
    rng: &mut ThreadRng,
    materials: &Vec<Material>,
    max_depth: i32,
) -> (out: Vec<u8>)
    requires
        max_depth > 0 ==> materials_below(old(scene).objects(), materials.len() as int),
    ensures
        final(scene).objects() == old(scene).objects(),
        final(scene).settled(),
        old(scene).settled() ==> final(scene).nodes() == old(scene).nodes(),
        exists|colours: Seq<Color>|
            is_image(
                *camera,
                final(scene).objects(),
                final(scene).nodes(),
                materials@,
                max_depth as int,
                colours,
            ) && out@ == #[trigger] spec_pixmap(
                spec_extent(camera.image_width),
                spec_extent(camera.image_height),
                colours,
            ),
{
    let width: i32 = if camera.image_width < 0 {
        0
    } else {
        camera.image_width
    };
    let height: i32 = if camera.image_height < 0 {
        0
    } else {
        camera.image_height
    };
    scene.prepare();
    let ghost nodes = scene.nodes();
    let mut out: Vec<u8> = Vec::new();
    write_header(&mut out, width as u32, height as u32);
    let ghost mut colours: Seq<Color> = Seq::empty();
    let mut y: i32 = 0;
    while y < height
        invariant
            0 <= y <= height,
            width >= 0,
            width as nat == spec_extent(camera.image_width),
            height as nat == spec_extent(camera.image_height),
            scene.objects() == old(scene).objects(),
            scene.settled(),
            scene.nodes() == nodes,
            max_depth > 0 ==> materials_below(scene.objects(), materials.len() as int),
            colours.len() == y * width,
            out@ == spec_pixmap(width as nat, height as nat, colours),
            forall|i: int, j: int|
                0 <= i < width && 0 <= j < y ==> is_pixel_colour(
                    *camera,
                    i as i32,
                    j as i32,
                    scene.objects(),
                    nodes,
                    materials@,
                    max_depth as int,
                    #[trigger] colours[j * width + i],
                ),
        decreases height - y,
    {
        let mut x: i32 = 0;
        while x < width
            invariant
                0 <= x <= width,
                0 <= y < height,
                width as nat == spec_extent(camera.image_width),
                height as nat == spec_extent(camera.image_height),
                scene.objects() == old(scene).objects(),
                scene.settled(),
                scene.nodes() == nodes,
                max_depth > 0 ==> materials_below(scene.objects(), materials.len() as int),
                colours.len() == y * width + x,
                out@ == spec_pixmap(width as nat, height as nat, colours),
                forall|i: int, j: int|
                    0 <= i < width && 0 <= j <= y && (j < y || i < x) ==> is_pixel_colour(
                        *camera,
                        i as i32,
                        j as i32,
                        scene.objects(),
                        nodes,
                        materials@,
                        max_depth as int,
                        #[trigger] colours[j * width + i],
                    ),
            decreases width - x,
        {
            let pixel = pixel_color(camera, x, y, scene, rng, materials, max_depth);
            write_color(&mut out, &pixel);
            proof {
                let longer = colours.push(pixel);
                assert(longer.drop_last() =~= colours);
                assert(out@ =~= spec_pixmap(width as nat, height as nat, longer));
                assert forall|i: int, j: int|
                    0 <= i < width && 0 <= j <= y && (j < y || i < x + 1) implies is_pixel_colour(
                    *camera,
                    i as i32,
                    j as i32,
                    scene.objects(),
                    nodes,
                    materials@,
                    max_depth as int,
                    #[trigger] longer[j * width + i],
                ) by {
                    lemma_pixel_index(i, j, x as int, y as int, width as int);
                    if j < y || i < x {
                        assert(longer[j * width + i] == colours[j * width + i]);
                    }
                }
                colours = longer;
            }
            x += 1;
        }
        proof {
            assert((y + 1) * width == y * width + width) by (nonlinear_arith);
        }
        y += 1;
    }
    proof {
        assert(width * height == height * width) by (nonlinear_arith);
        assert(is_image(
            *camera,
            scene.objects(),
            nodes,
            materials@,
            max_depth as int,
            colours,
        ));
    }
    out
}

/// Pixels are numbered row by row: a pixel that comes before the pixel in column `x`
/// of row `y` has a smaller number, and the pixel itself has the number `y * width +
/// x`.
pub proof fn lemma_pixel_index(i: int, j: int, x: int, y: int, width: int)
    requires
        0 <= i < width,
        0 <= j <= y,
        0 <= x < width,
    ensures
        (j < y || i < x) ==> 0 <= j * width + i < y * width + x,
        (j == y && i == x) ==> j * width + i == y * width + x,
        0 <= j * width + i,
{
    assert(0 <= j * width) by (nonlinear_arith)
        requires
            0 <= j,
            0 < width,
    ;
    if j < y {
        assert(j * width + width <= y * width) by (nonlinear_arith)
            requires
                j < y,
                0 < width,
        ;
    }
}

} // verus!
