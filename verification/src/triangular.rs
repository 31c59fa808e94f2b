//! Triangles: which crossings of a triangle's plane are hits, what a
//! corner falls back on, and how the corners of a mesh are looked up.

use vstd::prelude::*;
use crate::scalar::Scalar;
use crate::spherical::in_range_spec;
use crate::texture::Point2d;
use crate::vec3::{Point3, Vec3};

verus! {

/// Whether a ray hits a triangle, from the parameter `t` at which it
/// crosses the triangle's plane and the barycentric coordinates `u` and
/// `v` of the place where it does: the parameter lies in `t_min..=t_max`
/// and is not negative, neither coordinate is negative, and their sum is
/// not above one.
pub open spec fn hit_triangle_spec(
    t: Scalar,
    u: Scalar,
    v: Scalar,
    u_plus_v: Scalar,
    t_min: Scalar,
    t_max: Scalar,
) -> bool {
    &&& in_range_spec(t, t_min, t_max)
    &&& (Scalar { bits: 0 }).le_spec(t)
    &&& (Scalar { bits: 0 }).le_spec(u)
    &&& (Scalar { bits: 0 }).le_spec(v)
    &&& u_plus_v.le_spec(Scalar { bits: 0x3f80_0000 })
}

/// Whether a ray hits a triangle.
///
/// `t` is the parameter at which the ray crosses the triangle's plane,
/// `u` and `v` are the barycentric coordinates of the crossing, and
/// `u_plus_v` is their sum. A crossing behind the ray's origin, outside
/// the interval or outside the triangle is no hit; nor is one where any
/// of the numbers is NaN, as a ray in the triangle's plane gives.
pub fn hit_triangle(
    t: Scalar,
    u: Scalar,
    v: Scalar,
    u_plus_v: Scalar,
    t_min: Scalar,
    t_max: Scalar,
) -> (hit: bool)
    ensures
        hit == hit_triangle_spec(t, u, v, u_plus_v, t_min, t_max),
{
    if t.lt(t_min) || t.gt(t_max) {
        return false;
    }
    let zero = Scalar::zero();
    t.ge(zero) && u.ge(zero) && v.ge(zero) && u_plus_v.le(Scalar::one())
}

/// A triangle answers consistently.
///
/// Take an interval whose ends are numbers. Then a hit lies in the
/// interval; it is still a hit when the interval is cut short behind it
/// and none when the interval is cut short before it; and a triangle that
/// is missed is still missed in a shorter interval.
pub proof fn lemma_hit_triangle_consistent(
    t: Scalar,
    u: Scalar,
    v: Scalar,
    u_plus_v: Scalar,
    t_min: Scalar,
    t_max: Scalar,
    shorter: Scalar,
)
    requires
        !t_min.nan(),
        !t_max.nan(),
        !shorter.nan(),
    ensures
        hit_triangle_spec(t, u, v, u_plus_v, t_min, t_max) ==> t_min.le_spec(t) && t.le_spec(
            t_max,
        ),
        hit_triangle_spec(t, u, v, u_plus_v, t_min, t_max) && t.le_spec(shorter)
            ==> hit_triangle_spec(t, u, v, u_plus_v, t_min, shorter),
        shorter.lt_spec(t) ==> !hit_triangle_spec(t, u, v, u_plus_v, t_min, shorter),
        !hit_triangle_spec(t, u, v, u_plus_v, t_min, t_max) && shorter.le_spec(t_max)
            ==> !hit_triangle_spec(t, u, v, u_plus_v, t_min, shorter),
{
}

/// The surface coordinates of a triangle's corners where a mesh gives
/// none: (0, 0), (1, 0) and (0, 1).
pub open spec fn default_uv_spec() -> Seq<Point2d> {
    seq![
        Point2d { u: Scalar { bits: 0 }, v: Scalar { bits: 0 } },
        Point2d { u: Scalar { bits: 0x3f80_0000 }, v: Scalar { bits: 0 } },
        Point2d { u: Scalar { bits: 0 }, v: Scalar { bits: 0x3f80_0000 } },
    ]
}

/// The normals at the three corners of a triangle: each corner's own
/// where it has one, and the triangle's elsewhere.
pub fn vertex_normals(normals: [Option<Vec3>; 3], triangle_normal: Vec3) -> (resolved: [Vec3; 3])
    ensures
        forall|i: int|
            0 <= i < 3 ==> #[trigger] resolved@[i] == match normals@[i] {
                Some(normal) => normal,
                None => triangle_normal,
            },
{
    [
        match normals[0] {
            Some(normal) => normal,
            None => triangle_normal,
        },
        match normals[1] {
            Some(normal) => normal,
            None => triangle_normal,
        },
        match normals[2] {
            Some(normal) => normal,
            None => triangle_normal,
        },
    ]
}

/// The surface coordinates at the three corners of a triangle: each
/// corner's own where it has one, and the default of its place elsewhere.
pub fn vertex_uvs(texture_uv: [Option<Point2d>; 3]) -> (resolved: [Point2d; 3])
    ensures
        forall|i: int|
            0 <= i < 3 ==> #[trigger] resolved@[i] == match texture_uv@[i] {
                Some(uv) => uv,
                None => default_uv_spec()[i],
            },
{
    let zero = Scalar::zero();
    let one = Scalar::one();
    [
        match texture_uv[0] {
            Some(uv) => uv,
            None => Point2d { u: zero, v: zero },
        },
        match texture_uv[1] {
            Some(uv) => uv,
            None => Point2d { u: one, v: zero },
        },
        match texture_uv[2] {
            Some(uv) => uv,
            None => Point2d { u: zero, v: one },
        },
    ]
}

/// A reference to one corner of a face in a mesh: the number of its
/// vertex and, where the mesh has them, of its surface coordinate and of
/// its normal.
#[derive(Clone, Copy, Debug)]
pub struct CornerIndex {
    pub vertex: usize,
    pub texture: Option<usize>,
    pub normal: Option<usize>,
}

/// A shape of a mesh.
#[derive(Clone, Copy, Debug)]
pub enum Primitive {
    Point(CornerIndex),
    Line(CornerIndex, CornerIndex),
    Triangle(CornerIndex, CornerIndex, CornerIndex),
}

/// One corner of a triangle of a mesh, looked up.
#[derive(Clone, Copy, Debug)]
pub struct Corner {
    pub vertex: Point3,
    pub texture_uv: Option<Point2d>,
    pub normal: Option<Vec3>,
}

/// Whether a corner's references point into the mesh's lists.
pub open spec fn corner_in_mesh(
    index: CornerIndex,
    vertices: int,
    normals: int,
    texture_vertices: int,
) -> bool {
    &&& index.vertex < vertices
    &&& match index.texture {
        Some(i) => i < texture_vertices,
        None => true,
    }
    &&& match index.normal {
        Some(i) => i < normals,
        None => true,
    }
}

/// Whether a shape is a triangle whose references point into the mesh's
/// lists.
pub open spec fn triangle_in_mesh(
    shape: Primitive,
    vertices: int,
    normals: int,
    texture_vertices: int,
) -> bool {
    match shape {
        Primitive::Triangle(a, b, c) => {
            &&& corner_in_mesh(a, vertices, normals, texture_vertices)
            &&& corner_in_mesh(b, vertices, normals, texture_vertices)
            &&& corner_in_mesh(c, vertices, normals, texture_vertices)
        },
        _ => false,
    }
}

/// The corner that a reference points to.
pub open spec fn corner_spec(
    index: CornerIndex,
    vertices: Seq<Point3>,
    normals: Seq<Vec3>,
    texture_vertices: Seq<Point2d>,
) -> Corner {
    Corner {
        vertex: vertices[index.vertex as int],
        texture_uv: match index.texture {
            Some(i) => Some(texture_vertices[i as int]),
            None => None,
        },
        normal: match index.normal {
            Some(i) => Some(normals[i as int]),
            None => None,
        },
    }
}

/// The three corners of a triangle of a mesh.
pub open spec fn triangle_spec(
    shape: Primitive,
    vertices: Seq<Point3>,
    normals: Seq<Vec3>,
    texture_vertices: Seq<Point2d>,
) -> Seq<Corner> {
    seq![
        corner_spec(shape->Triangle_0, vertices, normals, texture_vertices),
        corner_spec(shape->Triangle_1, vertices, normals, texture_vertices),
        corner_spec(shape->Triangle_2, vertices, normals, texture_vertices),
    ]
}

fn corner_is_in_mesh(
    index: &CornerIndex,
    vertices: usize,
    normals: usize,
    texture_vertices: usize,
) -> (b: bool)
    ensures
        b == corner_in_mesh(*index, vertices as int, normals as int, texture_vertices as int),
{
    index.vertex < vertices && (match index.texture {
        Some(i) => i < texture_vertices,
        None => true,
    }) && (match index.normal {
        Some(i) => i < normals,
        None => true,
    })
}

/// Whether every shape of a mesh is a triangle whose references point
/// into the mesh's lists: whether `parse_geometry` can turn it into
/// triangles.
pub fn is_triangle_mesh(
    shapes: &Vec<Primitive>,
    vertices: usize,
    normals: usize,
    texture_vertices: usize,
) -> (b: bool)
    ensures
        b == forall|i: int|
            0 <= i < shapes@.len() ==> triangle_in_mesh(
                #[trigger] shapes@[i],
                vertices as int,
                normals as int,
                texture_vertices as int,
            ),
{
    let mut i: usize = 0;
    while i < shapes.len()
        invariant
            i <= shapes.len(),
            forall|k: int|
                0 <= k < i ==> triangle_in_mesh(
                    #[trigger] shapes@[k],
                    vertices as int,
                    normals as int,
                    texture_vertices as int,
                ),
        decreases shapes.len() - i,
    {
        let fits = match &shapes[i] {
            Primitive::Triangle(a, b, c) => {
                corner_is_in_mesh(a, vertices, normals, texture_vertices) && corner_is_in_mesh(
                    b,
                    vertices,
                    normals,
                    texture_vertices,
                ) && corner_is_in_mesh(c, vertices, normals, texture_vertices)
            },
            _ => false,
        };
        if !fits {
            return false;
        }
        i += 1;
    }
    true
}

fn corner(
    index: &CornerIndex,
    vertices: &Vec<Point3>,
    normals: &Vec<Vec3>,
    texture_vertices: &Vec<Point2d>,
) -> (c: Corner)
    requires
        corner_in_mesh(
            *index,
            vertices@.len() as int,
            normals@.len() as int,
            texture_vertices@.len() as int,
        ),
    ensures
        c == corner_spec(*index, vertices@, normals@, texture_vertices@),
{
    Corner {
        vertex: vertices[index.vertex],
        texture_uv: match index.texture {
            Some(i) => Some(texture_vertices[i]),
            None => None,
        },
        normal: match index.normal {
            Some(i) => Some(normals[i]),
            None => None,
        },
    }
}

/// The triangles of a mesh, each as its three corners, in the order of
/// the mesh's shapes. Every shape has to be a triangle whose references
/// point into the mesh's lists.
pub fn parse_geometry(
    shapes: &Vec<Primitive>,
    vertices: &Vec<Point3>,
    normals: &Vec<Vec3>,
    texture_vertices: &Vec<Point2d>,
) -> (triangles: Vec<[Corner; 3]>)
    requires
        forall|i: int|
            0 <= i < shapes@.len() ==> triangle_in_mesh(
                #[trigger] shapes@[i],
                vertices@.len() as int,
                normals@.len() as int,
                texture_vertices@.len() as int,
            ),
    ensures
        triangles@.len() == shapes@.len(),
        forall|i: int|
            0 <= i < shapes@.len() ==> (#[trigger] triangles@[i])@ == triangle_spec(
                shapes@[i],
                vertices@,
                normals@,
                texture_vertices@,
            ),
{
    let mut triangles: Vec<[Corner; 3]> = Vec::new();
    let mut i: usize = 0;
    while i < shapes.len()
        invariant
            i <= shapes.len(),
            triangles@.len() == i,
            forall|k: int|
                0 <= k < shapes@.len() ==> triangle_in_mesh(
                    #[trigger] shapes@[k],
                    vertices@.len() as int,
                    normals@.len() as int,
                    texture_vertices@.len() as int,
                ),
            forall|k: int|
                0 <= k < i ==> (#[trigger] triangles@[k])@ == triangle_spec(
                    shapes@[k],
                    vertices@,
                    normals@,
                    texture_vertices@,
                ),
        decreases shapes.len() - i,
    {
        match &shapes[i] {
            Primitive::Triangle(a, b, c) => {
                let corners = [
                    corner(a, vertices, normals, texture_vertices),
                    corner(b, vertices, normals, texture_vertices),
                    corner(c, vertices, normals, texture_vertices),
                ];
                triangles.push(corners);
            },
            _ => {
                assert(false);
            },
        }
        i += 1;
    }
    triangles
}

} // verus!
