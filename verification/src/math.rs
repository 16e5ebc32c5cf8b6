//! Geometry helpers on fixed-point vectors: the 2D transform used to map
//! screen coordinates into a GUI's space, and the constant triangle lists
//! (unit triangle, cube, cone) the renderer turns into meshes. Coordinates
//! are fixed-point values counting units of `1 / FX_ONE`.

use vstd::prelude::*;

use crate::fixed::{fx_mul, fx_mul_i64, FX_LIM, FX_ONE};

verus! {

/// A 2D fixed-point vector.
#[derive(Clone, Copy, PartialEq, Eq, Structural, Debug)]
pub struct Fx2 {
    pub x: i64,
    pub y: i64,
}

/// A 3D fixed-point vector (a mesh vertex).
#[derive(Clone, Copy, PartialEq, Eq, Structural, Debug)]
pub struct Fx3 {
    pub x: i64,
    pub y: i64,
    pub z: i64,
}

/// A 4D fixed-point vector (a matrix column).
#[derive(Clone, Copy, PartialEq, Eq, Structural, Debug)]
pub struct Fx4 {
    pub x: i64,
    pub y: i64,
    pub z: i64,
    pub w: i64,
}

/// A 4x4 fixed-point matrix, stored by columns.
#[derive(Clone, Copy, PartialEq, Eq, Structural, Debug)]
pub struct FxMat4 {
    pub x_axis: Fx4,
    pub y_axis: Fx4,
    pub z_axis: Fx4,
    pub w_axis: Fx4,
}

/// Are all entries of the matrix within the fixed-point working range?
pub open spec fn mat_bounded(m: FxMat4) -> bool {
    &&& -FX_LIM <= m.x_axis.x <= FX_LIM && -FX_LIM <= m.x_axis.y <= FX_LIM
    &&& -FX_LIM <= m.y_axis.x <= FX_LIM && -FX_LIM <= m.y_axis.y <= FX_LIM
    &&& -FX_LIM <= m.w_axis.x <= FX_LIM && -FX_LIM <= m.w_axis.y <= FX_LIM
}

/// Where the matrix sends a 2D point: the point is lifted to homogeneous
/// coordinates `(x, y, 0, 1)`, multiplied, and the first two coordinates
/// kept.
pub open spec fn transform_2d_spec(pos: Fx2, m: FxMat4) -> Fx2 {
    Fx2 {
        x: (fx_mul(m.x_axis.x as int, pos.x as int) + fx_mul(m.y_axis.x as int, pos.y as int)
            + fx_mul(m.w_axis.x as int, FX_ONE as int)) as i64,
        y: (fx_mul(m.x_axis.y as int, pos.x as int) + fx_mul(m.y_axis.y as int, pos.y as int)
            + fx_mul(m.w_axis.y as int, FX_ONE as int)) as i64,
    }
}

/// Apply a 4x4 transform to a 2D position: lift it to homogeneous
/// coordinates with zero depth, multiply, and project back to 2D.
pub fn transform_2d(pos: Fx2, mat: &FxMat4) -> (r: Fx2)
    requires
        -FX_LIM <= pos.x <= FX_LIM,
        -FX_LIM <= pos.y <= FX_LIM,
        mat_bounded(*mat),
    ensures
        r == transform_2d_spec(pos, *mat),
{
    let rx = fx_mul_i64(mat.x_axis.x, pos.x) + fx_mul_i64(mat.y_axis.x, pos.y) + fx_mul_i64(
        mat.w_axis.x,
        FX_ONE,
    );
    let ry = fx_mul_i64(mat.x_axis.y, pos.x) + fx_mul_i64(mat.y_axis.y, pos.y) + fx_mul_i64(
        mat.w_axis.y,
        FX_ONE,
    );
    Fx2 { x: rx, y: ry }
}

/// The three vertices of the unit triangle in the plane `z == 0`.
pub open spec fn unit_triangle_spec() -> Seq<Fx3> {
    seq![
        Fx3 { x: 0, y: 0, z: 0 },
        Fx3 { x: FX_ONE, y: 0, z: 0 },
        Fx3 { x: 0, y: FX_ONE, z: 0 },
    ]
}

/// The unit triangle: `(0,0,0)`, `(1,0,0)`, `(0,1,0)`.
pub fn unit_triangle() -> (r: Vec<Fx3>)
    ensures
        r@ == unit_triangle_spec(),
{
    let mut r: Vec<Fx3> = Vec::new();
    r.push(Fx3 { x: 0, y: 0, z: 0 });
    r.push(Fx3 { x: FX_ONE, y: 0, z: 0 });
    r.push(Fx3 { x: 0, y: FX_ONE, z: 0 });
    proof {
        assert(r@ =~= unit_triangle_spec());
    }
    r
}

/// The 36 vertices of a unit cube as triangles, two per face, listed
/// corner by corner.
pub open spec fn cube_triangles_spec() -> Seq<Fx3> {
    let lbf = Fx3 { x: 0, y: 0, z: 0 };
    let rbf = Fx3 { x: FX_ONE, y: 0, z: 0 };
    let ltf = Fx3 { x: 0, y: FX_ONE, z: 0 };
    let rtf = Fx3 { x: FX_ONE, y: FX_ONE, z: 0 };
    let lbb = Fx3 { x: 0, y: 0, z: FX_ONE };
    let rbb = Fx3 { x: FX_ONE, y: 0, z: FX_ONE };
    let ltb = Fx3 { x: 0, y: FX_ONE, z: FX_ONE };
    let rtb = Fx3 { x: FX_ONE, y: FX_ONE, z: FX_ONE };
    seq![
        lbf, rbf, ltf, ltf, rbf, rtf,
        lbb, lbf, ltb, ltb, lbf, ltf,
        rbf, rbb, rtf, rtf, rbb, rtb,
        rbb, lbb, rtb, rtb, lbb, ltb,
        ltf, rtf, ltb, ltb, rtf, rtb,
        lbb, rbb, lbf, lbf, rbb, rbf,
    ]
}

/// The unit cube as 12 triangles: front, left, right, back, top and bottom
/// face, each as two triangles.
pub fn cube_triangles() -> (r: Vec<Fx3>)
    ensures
        r@ == cube_triangles_spec(),
        r@.len() == 36,
{
    let lbf = Fx3 { x: 0, y: 0, z: 0 };
    let rbf = Fx3 { x: FX_ONE, y: 0, z: 0 };
    let ltf = Fx3 { x: 0, y: FX_ONE, z: 0 };
    let rtf = Fx3 { x: FX_ONE, y: FX_ONE, z: 0 };
    let lbb = Fx3 { x: 0, y: 0, z: FX_ONE };
    let rbb = Fx3 { x: FX_ONE, y: 0, z: FX_ONE };
    let ltb = Fx3 { x: 0, y: FX_ONE, z: FX_ONE };
    let rtb = Fx3 { x: FX_ONE, y: FX_ONE, z: FX_ONE };
    let mut r: Vec<Fx3> = Vec::new();
    // Front face
    r.push(lbf);
    r.push(rbf);
    r.push(ltf);
    r.push(ltf);
    r.push(rbf);
    r.push(rtf);
    // Left face
    r.push(lbb);
    r.push(lbf);
    r.push(ltb);
    r.push(ltb);
    r.push(lbf);
    r.push(ltf);
    // Right face
    r.push(rbf);
    r.push(rbb);
    r.push(rtf);
    r.push(rtf);
    r.push(rbb);
    r.push(rtb);
    // Back face
    r.push(rbb);
    r.push(lbb);
    r.push(rtb);
    r.push(rtb);
    r.push(lbb);
    r.push(ltb);
    // Top face
    r.push(ltf);
    r.push(rtf);
    r.push(ltb);
    r.push(ltb);
    r.push(rtf);
    r.push(rtb);
    // Bottom face
    r.push(lbb);
    r.push(rbb);
    r.push(lbf);
    r.push(lbf);
    r.push(rbb);
    r.push(rbf);
    proof {
        assert(r@ =~= cube_triangles_spec());
    }
    r
}

/// Cosine of `t * 45` degrees in fixed point, for the eight cone segments:
/// the exact values 1, 0 and -1, and `sqrt(2)/2` rounded to the nearest
/// fixed-point value (46341 / 65536).
pub open spec fn cos_fx(t: int) -> int {
    if t == 0 {
        FX_ONE as int
    } else if t == 1 || t == 7 {
        46341
    } else if t == 2 || t == 6 {
        0
    } else if t == 3 || t == 5 {
        -46341
    } else {
        -(FX_ONE as int)
    }
}

/// Sine of `t * 45` degrees in fixed point, for the eight cone segments.
pub open spec fn sin_fx(t: int) -> int {
    if t == 0 || t == 4 {
        0
    } else if t == 1 || t == 3 {
        46341
    } else if t == 2 {
        FX_ONE as int
    } else if t == 5 || t == 7 {
        -46341
    } else {
        -(FX_ONE as int)
    }
}

/// The base-circle point of cone segment boundary `t`: radius 1/4, at angle
/// `t * 45` degrees.
pub open spec fn cone_rim(t: int) -> Fx3 {
    Fx3 {
        x: fx_mul(16384, cos_fx(t)) as i64,
        y: fx_mul(16384, sin_fx(t)) as i64,
        z: 0,
    }
}

/// The six vertices of cone segment `t`: a base triangle fanning from the
/// origin, then the side triangle up to the apex at height 1.
pub open spec fn cone_segment(t: int) -> Seq<Fx3> {
    let p1 = cone_rim(t);
    let p2 = cone_rim(if t == 7 {
        0
    } else {
        t + 1
    });
    let p3 = Fx3 { x: 0, y: 0, z: FX_ONE };
    seq![Fx3 { x: 0, y: 0, z: 0 }, p1, p2, p1, p3, p2]
}

/// A cone of radius 1/4 and height 1 around the z axis, as eight base
/// triangles and eight side triangles: six vertices per segment, 48 in all.
pub fn cone_triangles() -> (r: Vec<Fx3>)
    ensures
        r@.len() == 48,
        forall|t: int| 0 <= t < 8 ==> r@.subrange(6 * t, 6 * t + 6) == #[trigger] cone_segment(t),
{
    let mut r: Vec<Fx3> = Vec::new();
    let mut t: usize = 0;
    while t < 8
        invariant
            0 <= t <= 8,
            r@.len() == 6 * t,
            forall|u: int| 0 <= u < t ==> r@.subrange(6 * u, 6 * u + 6) == #[trigger] cone_segment(u),
        decreases 8 - t,
    {
        let c1 = cone_cos(t);
        let s1 = cone_sin(t);
        let t2 = if t == 7 {
            0
        } else {
            t + 1
        };
        let c2 = cone_cos(t2);
        let s2 = cone_sin(t2);
        let p1 = Fx3 { x: fx_mul_i64(16384, c1), y: fx_mul_i64(16384, s1), z: 0 };
        let p2 = Fx3 { x: fx_mul_i64(16384, c2), y: fx_mul_i64(16384, s2), z: 0 };
        let p3 = Fx3 { x: 0, y: 0, z: FX_ONE };
        let ghost before = r@;
        r.push(Fx3 { x: 0, y: 0, z: 0 });
        r.push(p1);
        r.push(p2);
        r.push(p1);
        r.push(p3);
        r.push(p2);
        t = t + 1;
        proof {
            assert(r@.subrange(6 * (t - 1), 6 * (t - 1) + 6) =~= cone_segment(t - 1));
            assert forall|u: int| 0 <= u < t - 1 implies r@.subrange(6 * u, 6 * u + 6)
                == #[trigger] cone_segment(u) by {
                assert(r@.subrange(6 * u, 6 * u + 6) =~= before.subrange(6 * u, 6 * u + 6));
            }
        }
    }
    r
}

/// Fixed-point cosine of `t * 45` degrees.
fn cone_cos(t: usize) -> (r: i64)
    requires
        t < 8,
    ensures
        r as int == cos_fx(t as int),
        -FX_LIM <= r <= FX_LIM,
{
    if t == 0 {
        FX_ONE
    } else if t == 1 || t == 7 {
        46341
    } else if t == 2 || t == 6 {
        0
    } else if t == 3 || t == 5 {
        -46341
    } else {
        -FX_ONE
    }
}

/// Fixed-point sine of `t * 45` degrees.
fn cone_sin(t: usize) -> (r: i64)
    requires
        t < 8,
    ensures
        r as int == sin_fx(t as int),
        -FX_LIM <= r <= FX_LIM,
{
    if t == 0 || t == 4 {
        0
    } else if t == 1 || t == 3 {
        46341
    } else if t == 2 {
        FX_ONE
    } else if t == 5 || t == 7 {
        -46341
    } else {
        -FX_ONE
    }
}

} // verus!
