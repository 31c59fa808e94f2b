#![allow(dead_code)]

use rand::rngs::SmallRng;
use rand::{Rng, SeedableRng};
use raytracer_weekend_lib::aabb::{Aabb, Slab};
use raytracer_weekend_lib::hittable::{HitRecord, Hittable};
use raytracer_weekend_lib::material::{Material, Scatter, SurfacePoint};
use raytracer_weekend_lib::ray::Ray;
use raytracer_weekend_lib::scalar::Scalar;
use raytracer_weekend_lib::spherical::hit_sphere;
use raytracer_weekend_lib::texture::Point2d;
use raytracer_weekend_lib::vec3::{Color, Point3, Vec3};

fn s(x: f32) -> Scalar {
    Scalar::from_bits(x.to_bits())
}

fn f(x: Scalar) -> f32 {
    f32::from_bits(x.to_bits())
}

type V = [f32; 3];

fn pack(v: V) -> Vec3 {
    Vec3::new(s(v[0]), s(v[1]), s(v[2]))
}

fn unpack(v: Vec3) -> V {
    [f(v.x()), f(v.y()), f(v.z())]
}

fn plus(a: V, b: V) -> V {
    [a[0] + b[0], a[1] + b[1], a[2] + b[2]]
}

fn minus(a: V, b: V) -> V {
    [a[0] - b[0], a[1] - b[1], a[2] - b[2]]
}

fn scale(k: f32, a: V) -> V {
    [k * a[0], k * a[1], k * a[2]]
}

fn dot(a: V, b: V) -> f32 {
    a[0] * b[0] + a[1] * b[1] + a[2] * b[2]
}

fn length(a: V) -> f32 {
    dot(a, a).sqrt()
}

fn unit(a: V) -> V {
    scale(1.0 / length(a), a)
}

fn ray(origin: V, direction: V) -> Ray {
    Ray::new(pack(origin), pack(direction), s(0.0))
}

fn at(r: &Ray, t: f32) -> V {
    plus(unpack(r.origin()), scale(t, unpack(r.direction())))
}

fn boxed(min: V, max: V) -> Aabb {
    Aabb::new(pack(min), pack(max))
}

fn corners(b: &Aabb) -> (V, V) {
    (unpack(b.min()), unpack(b.max()))
}

/// The arithmetic of the slab test, in the hardware's numbers.
fn slabs(b: &Aabb, r: &Ray) -> [Slab; 3] {
    let min = unpack(b.min());
    let max = unpack(b.max());
    let origin = unpack(r.origin());
    let direction = unpack(r.direction());
    let slab = |a: usize| {
        let inverted_denominator = 1.0 / direction[a];
        Slab {
            inverted_denominator: s(inverted_denominator),
            t0: s((min[a] - origin[a]) * inverted_denominator),
            t1: s((max[a] - origin[a]) * inverted_denominator),
        }
    };
    [slab(0), slab(1), slab(2)]
}

/// A material that absorbs everything and glows in one colour.
struct Glow {
    color: V,
}

impl Material for Glow {
    fn emission(&self, _uv: Point2d, _p: Point3) -> Color {
        pack(self.color)
    }

    fn absorbs(&self) -> bool {
        true
    }

    fn scatter(&self, _r_in: &Ray, _rec: &SurfacePoint, _rng: &mut SmallRng) -> Option<Scatter> {
        None
    }

    fn emitted(&self, _uv: Point2d, _p: &Point3) -> Color {
        pack(self.color)
    }
}

/// A material that scatters every ray straight back along the normal.
struct Mirror {
    albedo: V,
}

impl Material for Mirror {
    fn emission(&self, _uv: Point2d, _p: Point3) -> Color {
        pack([0.0, 0.0, 0.0])
    }

    fn absorbs(&self) -> bool {
        false
    }

    fn scatter(&self, r_in: &Ray, rec: &SurfacePoint, _rng: &mut SmallRng) -> Option<Scatter> {
        Some(Scatter {
            attenuation: pack(self.albedo),
            scattered_ray: Ray::new(rec.p, rec.normal, r_in.time()),
        })
    }

    fn emitted(&self, _uv: Point2d, _p: &Point3) -> Color {
        pack([0.0, 0.0, 0.0])
    }
}

/// A diffuse material: scatters into the hemisphere about the normal.
struct Matte {
    albedo: V,
}

fn random_in_unit_sphere(rng: &mut SmallRng) -> V {
    loop {
        let p = [
            rng.gen_range(-1.0f32..1.0),
            rng.gen_range(-1.0f32..1.0),
            rng.gen_range(-1.0f32..1.0),
        ];
        if dot(p, p) < 1.0 {
            return p;
        }
    }
}

impl Material for Matte {
    fn emission(&self, _uv: Point2d, _p: Point3) -> Color {
        pack([0.0, 0.0, 0.0])
    }

    fn absorbs(&self) -> bool {
        false
    }

    fn scatter(&self, r_in: &Ray, rec: &SurfacePoint, rng: &mut SmallRng) -> Option<Scatter> {
        let mut direction = plus(unpack(rec.normal), unit(random_in_unit_sphere(rng)));
        if length(direction) < 1.0e-6 {
            direction = unpack(rec.normal);
        }
        Some(Scatter {
            attenuation: pack(self.albedo),
            scattered_ray: Ray::new(rec.p, pack(direction), r_in.time()),
        })
    }

    fn emitted(&self, _uv: Point2d, _p: &Point3) -> Color {
        pack([0.0, 0.0, 0.0])
    }
}

/// A sphere: the arithmetic here, the choice of the root in the library.
struct Sphere {
    center: V,
    radius: f32,
    material: Box<dyn Material>,
}

impl Sphere {
    fn new(center: V, radius: f32, material: Box<dyn Material>) -> Sphere {
        Sphere { center, radius, material }
    }

    fn glowing(center: V, radius: f32, color: V) -> Sphere {
        Sphere::new(center, radius, Box::new(Glow { color }))
    }
}

impl Hittable for Sphere {
    fn bounds(&self, time0: Scalar, time1: Scalar) -> Option<Aabb> {
        self.bounding_box(time0, time1)
    }

    fn repeatable(&self) -> bool {
        true
    }

    fn hit_spec<'a>(&'a self, r: Ray, t_min: Scalar, t_max: Scalar) -> Option<HitRecord<'a>> {
        self.hit(&r, t_min, t_max, &mut SmallRng::seed_from_u64(0))
    }

    fn hit<'a>(
        &'a self,
        r: &Ray,
        t_min: Scalar,
        t_max: Scalar,
        _rng: &mut SmallRng,
    ) -> Option<HitRecord<'a>> {
        let origin = unpack(r.origin());
        let direction = unpack(r.direction());
        let origin_to_center = minus(origin, self.center);
        let a = dot(direction, direction);
        let half_b = dot(origin_to_center, direction);
        let c = dot(origin_to_center, origin_to_center) - self.radius * self.radius;
        let discriminant = half_b * half_b - a * c;
        let sqrtd = discriminant.sqrt();
        let near = (-half_b - sqrtd) / a;
        let far = (-half_b + sqrtd) / a;
        let root = hit_sphere(s(discriminant), s(near), s(far), t_min, t_max)?;
        let p = at(r, f(root));
        let outward_normal = scale(1.0 / self.radius, minus(p, self.center));
        let uv = Point2d { u: s(0.0), v: s(0.0) };
        Some(HitRecord::new_with_face_normal(
            pack(p),
            root,
            uv,
            &self.material,
            s(dot(direction, outward_normal)),
            pack(outward_normal),
        ))
    }

    fn bounding_box(&self, _time0: Scalar, _time1: Scalar) -> Option<Aabb> {
        let r = [self.radius, self.radius, self.radius];
        Some(boxed(minus(self.center, r), plus(self.center, r)))
    }
}

use raytracer_weekend_lib::aabb::Aabb as LibAabb;

#[test]
fn surrounding_box_takes_the_least_and_the_greatest_corner() {
    let a = boxed([0.0, -1.0, 2.0], [1.0, 0.5, 3.0]);
    let b = boxed([-2.0, 0.0, 2.5], [0.5, 4.0, 2.75]);
    let u = LibAabb::surrounding_box(&a, &b);
    assert_eq!(corners(&u), ([-2.0, -1.0, 2.0], [1.0, 4.0, 3.0]));
    let v = LibAabb::surrounding_box(&b, &a);
    assert_eq!(corners(&v), corners(&u));
}

#[test]
fn surrounding_box_agrees_with_the_hardware_on_random_boxes() {
    let mut rng = SmallRng::seed_from_u64(11);
    for _ in 0..500 {
        let mut corner = |rng: &mut SmallRng| {
            [
                rng.gen_range(-100.0f32..100.0),
                rng.gen_range(-100.0f32..100.0),
                rng.gen_range(-100.0f32..100.0),
            ]
        };
        let (a0, a1, b0, b1) = (corner(&mut rng), corner(&mut rng), corner(&mut rng), corner(&mut rng));
        let u = LibAabb::surrounding_box(&boxed(a0, a1), &boxed(b0, b1));
        let (min, max) = corners(&u);
        for k in 0..3 {
            assert_eq!(min[k].to_bits(), a0[k].min(b0[k]).to_bits());
            assert_eq!(max[k].to_bits(), a1[k].max(b1[k]).to_bits());
        }
    }
}

#[test]
fn surrounding_box_of_a_box_with_itself_is_the_box() {
    let a = boxed([0.25, -1.0, 2.0], [1.0, 0.5, 3.0]);
    let u = LibAabb::surrounding_box(&a, &a);
    assert_eq!(corners(&u), corners(&a));
}

#[test]
fn surrounding_box_passes_over_a_nan() {
    let a = boxed([f32::NAN, 0.0, 0.0], [1.0, f32::NAN, 1.0]);
    let b = boxed([2.0, 1.0, -1.0], [3.0, 4.0, 0.5]);
    let u = LibAabb::surrounding_box(&a, &b);
    assert_eq!(corners(&u), ([2.0, 0.0, -1.0], [3.0, 4.0, 1.0]));
}

#[test]
fn the_extent_of_no_points_is_the_empty_box() {
    let e = LibAabb::extent(&Vec::new());
    let (min, max) = corners(&e);
    assert_eq!(min, [f32::INFINITY; 3]);
    assert_eq!(max, [f32::NEG_INFINITY; 3]);
}

#[test]
fn the_extent_reaches_every_point_and_no_farther() {
    let points = vec![
        pack([1.0, 5.0, -3.0]),
        pack([-2.0, 0.0, 4.0]),
        pack([0.5, 7.0, 0.0]),
        pack([0.0, -1.0, 1.0]),
    ];
    let e = LibAabb::extent(&points);
    assert_eq!(corners(&e), ([-2.0, -1.0, -3.0], [1.0, 7.0, 4.0]));
}

#[test]
fn the_extent_of_the_rotated_corners_of_a_box_bounds_the_rotated_box() {
    let (min, max) = ([-1.0f32, 0.0, -2.0], [1.0f32, 3.0, 2.0]);
    let angle = 30.0f32.to_radians();
    let (sin_theta, cos_theta) = (angle.sin(), angle.cos());
    let mut rotated = Vec::new();
    for i in 0..2 {
        for j in 0..2 {
            for k in 0..2 {
                let x = if i == 1 { max[0] } else { min[0] };
                let y = if j == 1 { max[1] } else { min[1] };
                let z = if k == 1 { max[2] } else { min[2] };
                rotated.push([cos_theta * x + sin_theta * z, y, -sin_theta * x + cos_theta * z]);
            }
        }
    }
    let e = LibAabb::extent(&rotated.iter().map(|p| pack(*p)).collect());
    let (lo, hi) = corners(&e);
    for p in &rotated {
        for a in 0..3 {
            assert!(lo[a] <= p[a] && p[a] <= hi[a]);
        }
    }
    for a in 0..3 {
        assert!(rotated.iter().any(|p| p[a] == lo[a]));
        assert!(rotated.iter().any(|p| p[a] == hi[a]));
    }
}

#[test]
fn a_ray_through_the_middle_hits_the_box() {
    let b = boxed([-1.0, -1.0, -1.0], [1.0, 1.0, 1.0]);
    let r = ray([0.0, 0.0, 5.0], [0.0, 0.0, -1.0]);
    assert!(LibAabb::hit(&slabs(&b, &r), s(0.001), s(f32::INFINITY)));
}

#[test]
fn a_ray_that_points_away_misses_the_box() {
    let b = boxed([-1.0, -1.0, -1.0], [1.0, 1.0, 1.0]);
    let r = ray([0.0, 0.0, 5.0], [0.0, 0.0, 1.0]);
    assert!(!LibAabb::hit(&slabs(&b, &r), s(0.001), s(f32::INFINITY)));
}

#[test]
fn a_ray_that_stops_short_misses_the_box() {
    let b = boxed([-1.0, -1.0, -1.0], [1.0, 1.0, 1.0]);
    let r = ray([0.0, 0.0, 5.0], [0.0, 0.0, -1.0]);
    assert!(!LibAabb::hit(&slabs(&b, &r), s(0.001), s(3.5)));
    assert!(LibAabb::hit(&slabs(&b, &r), s(0.001), s(4.5)));
}

#[test]
fn a_ray_parallel_to_an_axis_is_compared_through_infinities() {
    let b = boxed([-1.0, -1.0, -1.0], [1.0, 1.0, 1.0]);
    let inside = ray([0.5, 0.5, 5.0], [0.0, 0.0, -1.0]);
    let test = slabs(&b, &inside);
    assert!(f(test[0].inverted_denominator).is_infinite());
    assert!(LibAabb::hit(&test, s(0.001), s(f32::INFINITY)));
    let outside = ray([1.5, 0.5, 5.0], [0.0, 0.0, -1.0]);
    assert!(!LibAabb::hit(&slabs(&b, &outside), s(0.001), s(f32::INFINITY)));
}

#[test]
fn a_slab_without_a_number_constrains_nothing() {
    let b = boxed([-1.0, -1.0, -1.0], [1.0, 1.0, 1.0]);
    let grazing = ray([1.0, 0.0, 5.0], [0.0, 0.0, -1.0]);
    let test = slabs(&b, &grazing);
    assert!(f(test[0].t1).is_nan());
    assert!(LibAabb::hit(&test, s(0.001), s(f32::INFINITY)));
}

#[test]
fn a_ray_against_the_axis_enters_through_the_far_plane() {
    let test = [
        Slab { inverted_denominator: s(-1.0), t0: s(6.0), t1: s(4.0) },
        Slab { inverted_denominator: s(1.0), t0: s(0.0), t1: s(10.0) },
        Slab { inverted_denominator: s(1.0), t0: s(0.0), t1: s(10.0) },
    ];
    assert!(LibAabb::hit(&test, s(0.0), s(100.0)));
    assert!(!LibAabb::hit(&test, s(0.0), s(4.0)));
    assert!(LibAabb::hit(&test, s(5.0), s(5.5)));
    assert!(!LibAabb::hit(&test, s(6.0), s(7.0)));
    let unswapped = [
        Slab { inverted_denominator: s(1.0), t0: s(6.0), t1: s(4.0) },
        test[1],
        test[2],
    ];
    assert!(!LibAabb::hit(&unswapped, s(0.0), s(100.0)));
}

/// Whether the ray is in the box, a little widened or narrowed, at `t`.
fn within(min: V, max: V, r: &Ray, t: f32, slack: f32) -> bool {
    let p = at(r, t);
    (0..3).all(|a| min[a] - slack <= p[a] && p[a] <= max[a] + slack)
}

#[test]
fn the_slab_test_agrees_with_testing_all_six_planes() {
    let mut rng = SmallRng::seed_from_u64(5);
    let mut hits = 0;
    let mut misses = 0;
    for _ in 0..4000 {
        let mut number = |lo: f32, hi: f32| rng.gen_range(lo..hi);
        let c = [number(-3.0, 3.0), number(-3.0, 3.0), number(-3.0, 3.0)];
        let h = [number(0.1, 2.0), number(0.1, 2.0), number(0.1, 2.0)];
        let (min, max) = (minus(c, h), plus(c, h));
        let origin = [number(-6.0, 6.0), number(-6.0, 6.0), number(-6.0, 6.0)];
        let direction = [number(-1.0, 1.0), number(-1.0, 1.0), number(-1.0, 1.0)];
        let t_min = number(0.0, 1.0);
        let t_max = t_min + number(0.5, 20.0);
        let r = ray(origin, direction);
        let answer = LibAabb::hit(&slabs(&boxed(min, max), &r), s(t_min), s(t_max));

        // The candidates: the two ends of the interval and the six planes.
        let mut candidates = vec![t_min, t_max];
        for a in 0..3 {
            candidates.push((min[a] - origin[a]) / direction[a]);
            candidates.push((max[a] - origin[a]) / direction[a]);
        }
        let in_interval: Vec<f32> =
            candidates.into_iter().filter(|t| t_min <= *t && *t <= t_max).collect();
        let surely_inside = in_interval.iter().any(|t| within(min, max, &r, *t, -1.0e-3))
            || {
                let mut crossing = in_interval.clone();
                crossing.sort_by(|x, y| x.partial_cmp(y).unwrap());
                crossing
                    .windows(2)
                    .any(|w| w[1] - w[0] > 1.0e-3 && within(min, max, &r, 0.5 * (w[0] + w[1]), -1.0e-3))
            };
        let maybe_inside = in_interval.iter().any(|t| within(min, max, &r, *t, 1.0e-3));
        if surely_inside {
            assert!(answer, "missed a box that the ray goes through");
            hits += 1;
        }
        if !maybe_inside {
            assert!(!answer, "hit a box that the ray stays out of");
            misses += 1;
        }
    }
    assert!(hits > 100 && misses > 100);
}
