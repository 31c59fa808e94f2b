#![allow(dead_code)]

use rand::rngs::SmallRng;
use rand::{Rng, SeedableRng};
use raytracer_weekend_lib::aabb::{Aabb, Slab};
use raytracer_weekend_lib::hittable::{HitRecord, Hittable};
use raytracer_weekend_lib::material::{Material, Scatter, SurfacePoint};
use raytracer_weekend_lib::ray::Ray;
use raytracer_weekend_lib::scalar::Scalar;
use raytracer_weekend_lib::spherical::hit_sphere;
use raytracer_weekend_lib::texture::Point2d;
use raytracer_weekend_lib::vec3::{Color, Point3, Vec3};

fn s(x: f32) -> Scalar {
    Scalar::from_bits(x.to_bits())
}

fn f(x: Scalar) -> f32 {
    f32::from_bits(x.to_bits())
}

type V = [f32; 3];

fn pack(v: V) -> Vec3 {
    Vec3::new(s(v[0]), s(v[1]), s(v[2]))
}

fn unpack(v: Vec3) -> V {
    [f(v.x()), f(v.y()), f(v.z())]
}

fn plus(a: V, b: V) -> V {
    [a[0] + b[0], a[1] + b[1], a[2] + b[2]]
}

fn minus(a: V, b: V) -> V {
    [a[0] - b[0], a[1] - b[1], a[2] - b[2]]
}

fn scale(k: f32, a: V) -> V {
    [k * a[0], k * a[1], k * a[2]]
}

fn dot(a: V, b: V) -> f32 {
    a[0] * b[0] + a[1] * b[1] + a[2] * b[2]
}

fn length(a: V) -> f32 {
    dot(a, a).sqrt()
}

fn unit(a: V) -> V {
    scale(1.0 / length(a), a)
}

fn ray(origin: V, direction: V) -> Ray {
    Ray::new(pack(origin), pack(direction), s(0.0))
}

fn at(r: &Ray, t: f32) -> V {
    plus(unpack(r.origin()), scale(t, unpack(r.direction())))
}

fn boxed(min: V, max: V) -> Aabb {
    Aabb::new(pack(min), pack(max))
}

fn corners(b: &Aabb) -> (V, V) {
    (unpack(b.min()), unpack(b.max()))
}

/// The arithmetic of the slab test, in the hardware's numbers.
fn slabs(b: &Aabb, r: &Ray) -> [Slab; 3] {
    let min = unpack(b.min());
    let max = unpack(b.max());
    let origin = unpack(r.origin());
    let direction = unpack(r.direction());
    let slab = |a: usize| {
        let inverted_denominator = 1.0 / direction[a];
        Slab {
            inverted_denominator: s(inverted_denominator),
            t0: s((min[a] - origin[a]) * inverted_denominator),
            t1: s((max[a] - origin[a]) * inverted_denominator),
        }
    };
    [slab(0), slab(1), slab(2)]
}

/// A material that absorbs everything and glows in one colour.
struct Glow {
    color: V,
}

impl Material for Glow {
    fn emission(&self, _uv: Point2d, _p: Point3) -> Color {
        pack(self.color)
    }

    fn absorbs(&self) -> bool {
        true
    }

    fn scatter(&self, _r_in: &Ray, _rec: &SurfacePoint, _rng: &mut SmallRng) -> Option<Scatter> {
        None
    }

    fn emitted(&self, _uv: Point2d, _p: &Point3) -> Color {
        pack(self.color)
    }
}

/// A material that scatters every ray straight back along the normal.
struct Mirror {
    albedo: V,
}

impl Material for Mirror {
    fn emission(&self, _uv: Point2d, _p: Point3) -> Color {
        pack([0.0, 0.0, 0.0])
    }

    fn absorbs(&self) -> bool {
        false
    }

    fn scatter(&self, r_in: &Ray, rec: &SurfacePoint, _rng: &mut SmallRng) -> Option<Scatter> {
        Some(Scatter {
            attenuation: pack(self.albedo),
            scattered_ray: Ray::new(rec.p, rec.normal, r_in.time()),
        })
    }

    fn emitted(&self, _uv: Point2d, _p: &Point3) -> Color {
        pack([0.0, 0.0, 0.0])
    }
}

/// A diffuse material: scatters into the hemisphere about the normal.
struct Matte {
    albedo: V,
}

fn random_in_unit_sphere(rng: &mut SmallRng) -> V {
    loop {
        let p = [
            rng.gen_range(-1.0f32..1.0),
            rng.gen_range(-1.0f32..1.0),
            rng.gen_range(-1.0f32..1.0),
        ];
        if dot(p, p) < 1.0 {
            return p;
        }
    }
}

impl Material for Matte {
    fn emission(&self, _uv: Point2d, _p: Point3) -> Color {
        pack([0.0, 0.0, 0.0])
    }

    fn absorbs(&self) -> bool {
        false
    }

    fn scatter(&self, r_in: &Ray, rec: &SurfacePoint, rng: &mut SmallRng) -> Option<Scatter> {
        let mut direction = plus(unpack(rec.normal), unit(random_in_unit_sphere(rng)));
        if length(direction) < 1.0e-6 {
            direction = unpack(rec.normal);
        }
        Some(Scatter {
            attenuation: pack(self.albedo),
            scattered_ray: Ray::new(rec.p, pack(direction), r_in.time()),
        })
    }

    fn emitted(&self, _uv: Point2d, _p: &Point3) -> Color {
        pack([0.0, 0.0, 0.0])
    }
}

/// A sphere: the arithmetic here, the choice of the root in the library.
struct Sphere {
    center: V,
    radius: f32,
    material: Box<dyn Material>,
}

impl Sphere {
    fn new(center: V, radius: f32, material: Box<dyn Material>) -> Sphere {
        Sphere { center, radius, material }
    }

    fn glowing(center: V, radius: f32, color: V) -> Sphere {
        Sphere::new(center, radius, Box::new(Glow { color }))
    }
}

impl Hittable for Sphere {
    fn bounds(&self, time0: Scalar, time1: Scalar) -> Option<Aabb> {
        self.bounding_box(time0, time1)
    }

    fn repeatable(&self) -> bool {
        true
    }

    fn hit_spec<'a>(&'a self, r: Ray, t_min: Scalar, t_max: Scalar) -> Option<HitRecord<'a>> {
        self.hit(&r, t_min, t_max, &mut SmallRng::seed_from_u64(0))
    }

    fn hit<'a>(
        &'a self,
        r: &Ray,
        t_min: Scalar,
        t_max: Scalar,
        _rng: &mut SmallRng,
    ) -> Option<HitRecord<'a>> {
        let origin = unpack(r.origin());
        let direction = unpack(r.direction());
        let origin_to_center = minus(origin, self.center);
        let a = dot(direction, direction);
        let half_b = dot(origin_to_center, direction);
        let c = dot(origin_to_center, origin_to_center) - self.radius * self.radius;
        let discriminant = half_b * half_b - a * c;
        let sqrtd = discriminant.sqrt();
        let near = (-half_b - sqrtd) / a;
        let far = (-half_b + sqrtd) / a;
        let root = hit_sphere(s(discriminant), s(near), s(far), t_min, t_max)?;
        let p = at(r, f(root));
        let outward_normal = scale(1.0 / self.radius, minus(p, self.center));
        let uv = Point2d { u: s(0.0), v: s(0.0) };
        Some(HitRecord::new_with_face_normal(
            pack(p),
            root,
            uv,
            &self.material,
            s(dot(direction, outward_normal)),
            pack(outward_normal),
        ))
    }

    fn bounding_box(&self, _time0: Scalar, _time1: Scalar) -> Option<Aabb> {
        let r = [self.radius, self.radius, self.radius];
        Some(boxed(minus(self.center, r), plus(self.center, r)))
    }
}

use raytracer_weekend_lib::light_source::DiffuseLight;
use raytracer_weekend_lib::texture::{SolidColor, Texture, UVDebug};

/// Something that no box contains.
struct Plane;

impl Hittable for Plane {
    fn bounds(&self, _time0: Scalar, _time1: Scalar) -> Option<Aabb> {
        None
    }

    fn repeatable(&self) -> bool {
        true
    }

    fn hit_spec<'a>(&'a self, _r: Ray, _t_min: Scalar, _t_max: Scalar) -> Option<HitRecord<'a>> {
        None
    }

    fn hit<'a>(
        &'a self,
        _r: &Ray,
        _t_min: Scalar,
        _t_max: Scalar,
        _rng: &mut SmallRng,
    ) -> Option<HitRecord<'a>> {
        None
    }

    fn bounding_box(&self, _time0: Scalar, _time1: Scalar) -> Option<Aabb> {
        None
    }
}

#[test]
fn a_sphere_at_the_origin_is_hit_where_the_ray_meets_it() {
    let mut rng = SmallRng::seed_from_u64(0);
    for radius in [0.5f32, 1.0, 2.0, 3.25] {
        let sphere = Sphere::glowing([0.0, 0.0, 0.0], radius, [1.0, 1.0, 1.0]);
        let r = ray([0.0, 0.0, 5.0], [0.0, 0.0, -1.0]);
        let hit = sphere.hit(&r, s(0.001), s(f32::INFINITY), &mut rng).unwrap();
        assert_eq!(unpack(hit.p), [0.0, 0.0, radius]);
        assert_eq!(f(hit.t), 5.0 - radius);
        assert_eq!(unpack(hit.normal), [0.0, 0.0, 1.0]);
        assert!(hit.is_front_face);
    }
}

#[test]
fn from_inside_a_sphere_the_far_root_is_the_hit_and_the_normal_is_turned() {
    let mut rng = SmallRng::seed_from_u64(0);
    let sphere = Sphere::glowing([0.0, 0.0, 0.0], 2.0, [1.0, 1.0, 1.0]);
    let r = ray([0.0, 0.0, 0.0], [0.0, 0.0, -1.0]);
    let hit = sphere.hit(&r, s(0.001), s(f32::INFINITY), &mut rng).unwrap();
    assert_eq!(f(hit.t), 2.0);
    assert_eq!(unpack(hit.p), [0.0, 0.0, -2.0]);
    assert_eq!(unpack(hit.normal), [-0.0, -0.0, 1.0]);
    assert!(!hit.is_front_face);
}

#[test]
fn the_record_of_a_hit_keeps_what_it_is_given() {
    let material: Box<dyn Material> = Box::new(Glow { color: [0.5, 0.25, 0.125] });
    let uv = Point2d { u: s(0.25), v: s(0.75) };
    let rec = HitRecord::new(
        pack([1.0, 2.0, 3.0]),
        pack([0.0, 1.0, 0.0]),
        &material,
        s(4.5),
        uv,
        true,
    );
    assert_eq!(unpack(rec.p), [1.0, 2.0, 3.0]);
    assert_eq!(unpack(rec.normal), [0.0, 1.0, 0.0]);
    assert_eq!(f(rec.t), 4.5);
    assert_eq!((f(rec.texture_uv.u), f(rec.texture_uv.v)), (0.25, 0.75));
    assert!(rec.is_front_face);
    assert_eq!(unpack(rec.material.emitted(uv, &rec.p)), [0.5, 0.25, 0.125]);
    let surface = rec.surface();
    assert_eq!(unpack(surface.p), [1.0, 2.0, 3.0]);
    assert_eq!(unpack(surface.normal), [0.0, 1.0, 0.0]);
    assert_eq!(f(surface.t), 4.5);
    assert!(surface.is_front_face);
}

#[test]
fn the_normal_of_a_record_opposes_the_ray() {
    let material: Box<dyn Material> = Box::new(Glow { color: [0.0, 0.0, 0.0] });
    let uv = Point2d { u: s(0.0), v: s(0.0) };
    let outward = pack([0.0, 0.6, -0.8]);
    let front = HitRecord::new_with_face_normal(pack([0.0; 3]), s(1.0), uv, &material, s(-0.5), outward);
    assert!(front.is_front_face);
    assert_eq!(unpack(front.normal), [0.0, 0.6, -0.8]);
    let back = HitRecord::new_with_face_normal(pack([0.0; 3]), s(1.0), uv, &material, s(0.5), outward);
    assert!(!back.is_front_face);
    assert_eq!(unpack(back.normal).map(f32::to_bits), [-0.0f32, -0.6, 0.8].map(f32::to_bits));
    let edge_on = HitRecord::new_with_face_normal(pack([0.0; 3]), s(1.0), uv, &material, s(0.0), outward);
    assert!(!edge_on.is_front_face);
    let undecided =
        HitRecord::new_with_face_normal(pack([0.0; 3]), s(1.0), uv, &material, s(f32::NAN), outward);
    assert!(!undecided.is_front_face);
}

#[test]
fn an_empty_list_is_never_hit_and_has_no_box() {
    let mut rng = SmallRng::seed_from_u64(0);
    let list: Vec<Sphere> = Vec::new();
    let r = ray([0.0, 0.0, 5.0], [0.0, 0.0, -1.0]);
    assert!(list.hit(&r, s(0.001), s(f32::INFINITY), &mut rng).is_none());
    assert!(list.bounding_box(s(0.0), s(1.0)).is_none());
}

#[test]
fn a_list_reports_its_nearest_member_whatever_the_order() {
    let mut rng = SmallRng::seed_from_u64(0);
    let r = ray([0.0, 0.0, 10.0], [0.0, 0.0, -1.0]);
    for order in [[0usize, 1, 2], [2, 1, 0], [1, 0, 2], [1, 2, 0]] {
        let list: Vec<Sphere> = order
            .iter()
            .map(|k| Sphere::glowing([0.0, 0.0, 3.0 * (*k as f32)], 1.0, [*k as f32, 0.0, 0.0]))
            .collect();
        let hit = list.hit(&r, s(0.001), s(f32::INFINITY), &mut rng).unwrap();
        assert_eq!(f(hit.t), 3.0);
        assert_eq!(unpack(hit.p), [0.0, 0.0, 7.0]);
        assert_eq!(unpack(hit.material.emitted(hit.texture_uv, &hit.p)), [2.0, 0.0, 0.0]);
    }
}

#[test]
fn a_list_is_hit_only_within_the_interval() {
    let mut rng = SmallRng::seed_from_u64(0);
    let list = vec![
        Sphere::glowing([0.0, 0.0, 0.0], 1.0, [1.0, 0.0, 0.0]),
        Sphere::glowing([0.0, 0.0, 6.0], 1.0, [2.0, 0.0, 0.0]),
    ];
    let r = ray([0.0, 0.0, 10.0], [0.0, 0.0, -1.0]);
    assert!(list.hit(&r, s(0.001), s(2.5), &mut rng).is_none());
    assert_eq!(f(list.hit(&r, s(0.001), s(3.0), &mut rng).unwrap().t), 3.0);
    assert_eq!(f(list.hit(&r, s(3.5), s(100.0), &mut rng).unwrap().t), 5.0);
    assert_eq!(f(list.hit(&r, s(6.0), s(100.0), &mut rng).unwrap().t), 9.0);
    assert!(list.hit(&r, s(11.5), s(100.0), &mut rng).is_none());
}

#[test]
fn the_box_of_a_list_is_the_union_of_its_members_boxes() {
    let list = vec![
        Sphere::glowing([0.0, 0.0, 0.0], 1.0, [1.0, 0.0, 0.0]),
        Sphere::glowing([4.0, -2.0, 6.0], 0.5, [2.0, 0.0, 0.0]),
        Sphere::glowing([-3.0, 1.0, 1.0], 2.0, [2.0, 0.0, 0.0]),
    ];
    let b = list.bounding_box(s(0.0), s(1.0)).unwrap();
    assert_eq!(corners(&b), ([-5.0, -2.5, -1.0], [4.5, 3.0, 6.5]));
    let one = vec![Sphere::glowing([1.0, 2.0, 3.0], 1.0, [1.0, 0.0, 0.0])];
    assert_eq!(corners(&one.bounding_box(s(0.0), s(1.0)).unwrap()), ([0.0, 1.0, 2.0], [2.0, 3.0, 4.0]));
}

#[test]
fn a_list_with_an_unbounded_member_has_no_box() {
    let list: Vec<Box<dyn Hittable>> = vec![
        Box::new(Sphere::glowing([0.0, 0.0, 0.0], 1.0, [1.0, 0.0, 0.0])),
        Box::new(Plane),
        Box::new(Sphere::glowing([4.0, -2.0, 6.0], 0.5, [2.0, 0.0, 0.0])),
    ];
    assert!(list.bounding_box(s(0.0), s(1.0)).is_none());
    let r = ray([0.0, 0.0, 10.0], [0.0, 0.0, -1.0]);
    let mut rng = SmallRng::seed_from_u64(0);
    assert_eq!(f(list.hit(&r, s(0.001), s(f32::INFINITY), &mut rng).unwrap().t), 9.0);
    assert_eq!(corners(&list[0].bounding_box(s(0.0), s(1.0)).unwrap()), ([-1.0; 3], [1.0; 3]));
}

#[test]
fn a_light_never_scatters_and_emits_its_texture() {
    let mut rng = SmallRng::seed_from_u64(0);
    let light = DiffuseLight::new(SolidColor::new_rgb(s(4.0), s(3.0), s(2.0)));
    let material: Box<dyn Material> = Box::new(Glow { color: [0.0; 3] });
    let uv = Point2d { u: s(0.3), v: s(0.6) };
    for direction in [[0.0, 0.0, -1.0], [1.0, 2.0, 3.0], [-1.0, 0.0, 0.0]] {
        let r = ray([0.0, 0.0, 5.0], direction);
        for front in [true, false] {
            let rec = HitRecord::new(pack([1.0, 2.0, 3.0]), pack([0.0, 1.0, 0.0]), &material, s(1.0), uv, front);
            assert!(light.scatter(&r, &rec.surface(), &mut rng).is_none());
        }
    }
    for p in [[0.0, 0.0, 0.0], [1.0, -2.0, 3.5]] {
        assert_eq!(unpack(light.emitted(uv, &pack(p))), [4.0, 3.0, 2.0]);
    }
    let debug = DiffuseLight::new(UVDebug::new());
    assert_eq!(unpack(debug.emitted(uv, &pack([9.0, 9.0, 9.0]))), [0.3, 0.6, 0.0]);
    assert_eq!(unpack(debug.emitted(uv, &pack([9.0, 9.0, 9.0]))), unpack(UVDebug::new().value(uv, &pack([0.0; 3]))));
}

#[test]
fn a_solid_colour_is_the_same_everywhere() {
    let texture = SolidColor::new(pack([0.1, 0.2, 0.3]));
    for (u, v, p) in [(0.0, 0.0, [0.0; 3]), (0.5, 1.0, [1.0, 2.0, 3.0]), (f32::NAN, -1.0, [f32::INFINITY; 3])] {
        let c = texture.value(Point2d { u: s(u), v: s(v) }, &pack(p));
        assert_eq!(unpack(c), [0.1, 0.2, 0.3]);
    }
    let boxed_texture: Box<dyn Texture> = Box::new(SolidColor::new_rgb(s(1.0), s(0.0), s(0.5)));
    assert_eq!(unpack(boxed_texture.value(Point2d { u: s(0.0), v: s(0.0) }, &pack([0.0; 3]))), [1.0, 0.0, 0.5]);
}
