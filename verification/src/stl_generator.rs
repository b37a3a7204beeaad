//! Procedural cube and cone meshes with outward-facing normals, handed
//! directly to the encoder of the caller's choice.

use vstd::prelude::*;

use crate::STLFormat;
use crate::vec3::Vec3;
use crate::vec3::add_v;
use crate::vec3::sub_v;
use crate::vec3::cross_v;
use crate::vec3::normalize_v;
use crate::float_bits::add_bits;
use crate::float_bits::mul_bits;
use crate::float_bits::div_bits;
use crate::float_bits::cos_bits;
use crate::float_bits::sin_bits;
use crate::float_bits::float_of_usize;
use crate::float_bits::float_add;
use crate::float_bits::float_mul;
use crate::float_bits::float_div;
use crate::float_bits::float_cos;
use crate::float_bits::float_sin;
use crate::float_bits::usize_to_float;
use crate::float_bits::ZERO_BITS;
use crate::float_bits::ONE_BITS;
use crate::float_bits::NEG_ONE_BITS;
use crate::float_bits::TWO_BITS;
use crate::float_bits::PI_BITS;
use crate::stl_parser::Triangle;
use crate::stl_parser::Triangles;
use crate::stl_parser::StlParser;
use crate::stl_parser::bin_encode;
use crate::stl_parser::ascii_encode;
use crate::stl_parser::bin_wf;
use crate::stl_parser::bin_triangles;
use crate::stl_parser::ascii_decode;
use crate::stl_parser::mesh_no_nan;
use crate::StlErrorV;

verus! {

/// Namespace for the two mesh generators.
pub struct StlGenerator;

/// One cube corner: origin + (dx·a/2, dy·a/2, dz·a/2), where each sign
/// factor is the bit pattern of 1.0 or -1.0.
pub open spec fn cube_corner(a: u32, o: Vec3, dx: u32, dy: u32, dz: u32) -> Vec3 {
    Vec3 {
        x: add_bits(o.x, div_bits(mul_bits(dx, a), TWO_BITS)),
        y: add_bits(o.y, div_bits(mul_bits(dy, a), TWO_BITS)),
        z: add_bits(o.z, div_bits(mul_bits(dz, a), TWO_BITS)),
    }
}

/// A face triangle: the normal is the normalized cross product of the
/// edges from the first vertex to the second and to the third.
pub open spec fn face(p: Vec3, q: Vec3, r: Vec3) -> Triangle {
    Triangle { normal: normalize_v(cross_v(sub_v(q, p), sub_v(r, p))), vertices: [p, q, r] }
}

/// The twelve cube triangles: two per face, each pair sharing a diagonal,
/// wound so that every normal points away from the cube's centre.
pub open spec fn cube_mesh(a: u32, o: Vec3) -> Seq<Triangle> {
    let v0 = cube_corner(a, o, NEG_ONE_BITS, NEG_ONE_BITS, NEG_ONE_BITS);
    let v1 = cube_corner(a, o, NEG_ONE_BITS, NEG_ONE_BITS, ONE_BITS);
    let v2 = cube_corner(a, o, NEG_ONE_BITS, ONE_BITS, NEG_ONE_BITS);
    let v3 = cube_corner(a, o, NEG_ONE_BITS, ONE_BITS, ONE_BITS);
    let v4 = cube_corner(a, o, ONE_BITS, NEG_ONE_BITS, NEG_ONE_BITS);
    let v5 = cube_corner(a, o, ONE_BITS, NEG_ONE_BITS, ONE_BITS);
    let v6 = cube_corner(a, o, ONE_BITS, ONE_BITS, NEG_ONE_BITS);
    let v7 = cube_corner(a, o, ONE_BITS, ONE_BITS, ONE_BITS);
    seq![
        face(v4, v0, v6),
        face(v2, v6, v0),
        face(v5, v7, v1),
        face(v3, v1, v7),
        face(v7, v6, v3),
        face(v2, v3, v6),
        face(v4, v6, v5),
        face(v7, v5, v6),
        face(v0, v1, v2),
        face(v3, v2, v1),
        face(v4, v5, v0),
        face(v1, v0, v5),
    ]
}

/// The angle of ring sample `i` of `n`: 1·i/n·2·pi, rounded at every step.
pub open spec fn cone_angle(i: usize, n: usize) -> u32 {
    mul_bits(
        mul_bits(div_bits(mul_bits(ONE_BITS, float_of_usize(i)), float_of_usize(n)), TWO_BITS),
        PI_BITS,
    )
}

/// Ring sample `i`: origin + (cos·r, sin·r, 0).
pub open spec fn cone_ring_vertex(i: usize, n: usize, r: u32, o: Vec3) -> Vec3 {
    add_v(
        o,
        Vec3 {
            x: mul_bits(cos_bits(cone_angle(i, n)), r),
            y: mul_bits(sin_bits(cone_angle(i, n)), r),
            z: ZERO_BITS,
        },
    )
}

/// The apex: origin + (0, 0, h).
pub open spec fn cone_apex(o: Vec3, h: u32) -> Vec3 {
    add_v(o, Vec3 { x: ZERO_BITS, y: ZERO_BITS, z: h })
}

/// Wall triangle `i`: one base edge and the apex.
pub open spec fn cone_wall(i: int, n: usize, r: u32, h: u32, o: Vec3) -> Triangle {
    let top = cone_apex(o, h);
    let vi = cone_ring_vertex(i as usize, n, r, o);
    let vj = cone_ring_vertex((if i + 1 == n { 0int } else { i + 1 }) as usize, n, r, o);
    Triangle {
        normal: normalize_v(cross_v(sub_v(vj, vi), sub_v(vi, top))),
        vertices: [vi, vj, top],
    }
}

/// Base triangle `i` of the fan anchored at ring vertex 0.
pub open spec fn cone_base(i: int, n: usize, r: u32, o: Vec3) -> Triangle {
    let v0 = cone_ring_vertex(0, n, r, o);
    let va = cone_ring_vertex((i + 1) as usize, n, r, o);
    let vb = cone_ring_vertex((i + 2) as usize, n, r, o);
    Triangle {
        normal: normalize_v(cross_v(sub_v(vb, v0), sub_v(va, v0))),
        vertices: [v0, va, vb],
    }
}

/// The cone: `n` wall triangles, then `n - 2` base-fan triangles.
pub open spec fn cone_mesh(n: usize, r: u32, h: u32, o: Vec3) -> Seq<Triangle> {
    Seq::new(n as nat, |i: int| cone_wall(i, n, r, h, o)) + Seq::new(
        (n - 2) as nat,
        |i: int| cone_base(i, n, r, o),
    )
}

/// One cube corner.
fn corner(a: u32, o: Vec3, dx: u32, dy: u32, dz: u32) -> (r: Vec3)
    ensures
        r == cube_corner(a, o, dx, dy, dz),
{
    Vec3 {
        x: float_add(o.x, float_div(float_mul(dx, a), TWO_BITS)),
        y: float_add(o.y, float_div(float_mul(dy, a), TWO_BITS)),
        z: float_add(o.z, float_div(float_mul(dz, a), TWO_BITS)),
    }
}

/// One face triangle.
fn make_face(p: Vec3, q: Vec3, r: Vec3) -> (t: Triangle)
    ensures
        t == face(p, q, r),
{
    Triangle { normal: q.sub(p).cross(r.sub(p)).normalize(), vertices: [p, q, r] }
}

impl StlGenerator {
    /// The cube of edge length `a` centred on `origin`: always exactly
    /// twelve triangles, wound outward.
    pub fn generate_cube(a: u32, origin: Vec3) -> (r: Triangles)
        ensures
            r@ == cube_mesh(a, origin),
            r@.len() == 12,
    {
        let v0 = corner(a, origin, NEG_ONE_BITS, NEG_ONE_BITS, NEG_ONE_BITS);
        let v1 = corner(a, origin, NEG_ONE_BITS, NEG_ONE_BITS, ONE_BITS);
        let v2 = corner(a, origin, NEG_ONE_BITS, ONE_BITS, NEG_ONE_BITS);
        let v3 = corner(a, origin, NEG_ONE_BITS, ONE_BITS, ONE_BITS);
        let v4 = corner(a, origin, ONE_BITS, NEG_ONE_BITS, NEG_ONE_BITS);
        let v5 = corner(a, origin, ONE_BITS, NEG_ONE_BITS, ONE_BITS);
        let v6 = corner(a, origin, ONE_BITS, ONE_BITS, NEG_ONE_BITS);
        let v7 = corner(a, origin, ONE_BITS, ONE_BITS, ONE_BITS);
        let mut tris: Triangles = Vec::new();
        tris.push(make_face(v4, v0, v6));
        tris.push(make_face(v2, v6, v0));
        tris.push(make_face(v5, v7, v1));
        tris.push(make_face(v3, v1, v7));
        tris.push(make_face(v7, v6, v3));
        tris.push(make_face(v2, v3, v6));
        tris.push(make_face(v4, v6, v5));
        tris.push(make_face(v7, v5, v6));
        tris.push(make_face(v0, v1, v2));
        tris.push(make_face(v3, v2, v1));
        tris.push(make_face(v4, v5, v0));
        tris.push(make_face(v1, v0, v5));
        proof {
            assert(tris@ =~= cube_mesh(a, origin));
        }
        tris
    }

    /// Generate the cube and encode it in the requested format.
    pub fn generate_cube_stl(a: u32, origin: Vec3, format: STLFormat) -> (r: Vec<u8>)
        ensures
            format == STLFormat::Binary ==> r@ == bin_encode(cube_mesh(a, origin)),
            format == STLFormat::Binary ==> bin_wf(r@) && bin_triangles(r@) == cube_mesh(
                a,
                origin,
            ),
            format == STLFormat::ASCII ==> r@ == ascii_encode(cube_mesh(a, origin)),
            format == STLFormat::ASCII && mesh_no_nan(cube_mesh(a, origin)) ==> ascii_decode(r@)
                == Ok::<Seq<Triangle>, StlErrorV>(cube_mesh(a, origin)),
    {
        let triangles = Self::generate_cube(a, origin);
        match format {
            STLFormat::ASCII => StlParser::write_to_ascii_file(&triangles),
            STLFormat::Binary => StlParser::write_to_binary_file(&triangles),
        }
    }

    /// The cone with `n` base edges, base radius `r` and height `h` above
    /// `origin`: `n` wall triangles and an `n - 2`-triangle base fan.
    pub fn generate_cone(n: usize, r: u32, h: u32, origin: Vec3) -> (res: Triangles)
        requires
            3 <= n <= 0x8000_0000,
        ensures
            res@ == cone_mesh(n, r, h, origin),
            res@.len() == n + (n - 2),
    {
        let top = origin.add(Vec3 { x: ZERO_BITS, y: ZERO_BITS, z: h });
        let mut v: Vec<Vec3> = Vec::new();
        let mut i: usize = 0;
        while i <= n
            invariant
                3 <= n <= 0x8000_0000,
                i <= n + 1,
                v@.len() == i,
                forall|j: int|
                    0 <= j < i ==> v@[j] == cone_ring_vertex(j as usize, n, r, origin),
            decreases n + 1 - i,
        {
            let ang = float_mul(
                float_mul(
                    float_div(float_mul(ONE_BITS, usize_to_float(i)), usize_to_float(n)),
                    TWO_BITS,
                ),
                PI_BITS,
            );
            let c = float_cos(ang);
            let s = float_sin(ang);
            v.push(origin.add(Vec3 { x: float_mul(c, r), y: float_mul(s, r), z: ZERO_BITS }));
            i = i + 1;
        }
        let mut tris: Triangles = Vec::new();
        let mut k: usize = 0;
        while k < n
            invariant
                3 <= n <= 0x8000_0000,
                k <= n,
                top == cone_apex(origin, h),
                v@.len() == n + 1,
                forall|j: int|
                    0 <= j <= n ==> v@[j] == cone_ring_vertex(j as usize, n, r, origin),
                tris@.len() == k,
                forall|j: int| 0 <= j < k ==> tris@[j] == cone_wall(j, n, r, h, origin),
            decreases n - k,
        {
            let nx = if k + 1 == n {
                0
            } else {
                k + 1
            };
            let vk = v[k];
            let vn = v[nx];
            tris.push(
                Triangle {
                    normal: vn.sub(vk).cross(vk.sub(top)).normalize(),
                    vertices: [vk, vn, top],
                },
            );
            k = k + 1;
        }
        let mut b: usize = 0;
        while b < n - 2
            invariant
                3 <= n <= 0x8000_0000,
                b <= n - 2,
                v@.len() == n + 1,
                forall|j: int|
                    0 <= j <= n ==> v@[j] == cone_ring_vertex(j as usize, n, r, origin),
                tris@.len() == n + b,
                forall|j: int| 0 <= j < n ==> tris@[j] == cone_wall(j, n, r, h, origin),
                forall|j: int| n <= j < n + b ==> tris@[j] == cone_base(j - n, n, r, origin),
            decreases n - 2 - b,
        {
            let v0 = v[0];
            let va = v[b + 1];
            let vb = v[b + 2];
            tris.push(
                Triangle {
                    normal: vb.sub(v0).cross(va.sub(v0)).normalize(),
                    vertices: [v0, va, vb],
                },
            );
            b = b + 1;
        }
        proof {
            assert(tris@ =~= cone_mesh(n, r, h, origin));
        }
        tris
    }

    /// Generate the cone and encode it in the requested format. The side
    /// count must be at least 3; its upper bound keeps the triangle count
    /// inside the binary format's 32-bit record counter.
    pub fn generate_cone_stl(n: u32, r: u32, h: u32, origin: Vec3, format: STLFormat) -> (res:
        Vec<u8>)
        requires
            3 <= n <= 0x8000_0000,
        ensures
            format == STLFormat::Binary ==> res@ == bin_encode(
                cone_mesh(n as usize, r, h, origin),
            ),
            format == STLFormat::Binary ==> bin_wf(res@) && bin_triangles(res@) == cone_mesh(
                n as usize,
                r,
                h,
                origin,
            ),
            format == STLFormat::ASCII ==> res@ == ascii_encode(
                cone_mesh(n as usize, r, h, origin),
            ),
            format == STLFormat::ASCII && mesh_no_nan(cone_mesh(n as usize, r, h, origin))
                ==> ascii_decode(res@) == Ok::<Seq<Triangle>, StlErrorV>(
                cone_mesh(n as usize, r, h, origin),
            ),
    {
        let triangles = Self::generate_cone(n as usize, r, h, origin);
        match format {
            STLFormat::ASCII => StlParser::write_to_ascii_file(&triangles),
            STLFormat::Binary => StlParser::write_to_binary_file(&triangles),
        }
    }
}

} // verus!
