use vstd::prelude::*;
use crate::errors::LnasError;
use crate::floatops::{div_bits, f32_div, f32_mul, f32_sub, mul_bits, sub_bits};
use crate::vector::{f32_lt, f32_lt_bits, lemma_abs_mul_bound, lemma_quant_bounds, quant, qx, qy, qz, Vec3f};

verus! {

/// One triangle as an STL file stores it: three corner positions and one
/// stored face normal, all held as bit patterns.
#[derive(Clone, Copy, PartialEq, Eq, Structural, Debug)]
pub struct TriangleSTL {
    pub point0: Vec3f,
    pub point1: Vec3f,
    pub point2: Vec3f,
    pub normal: Vec3f,
}

/// The squared length of the quantized normal.
pub open spec fn quant_norm_sq(n: Vec3f) -> int {
    qx(n) * qx(n) + qy(n) * qy(n) + qz(n) * qz(n)
}

/// A stored normal passes construction when its quantized length is within
/// tolerance of one: the squared quantized length must lie between 99998^2
/// and 100002^2 (the quantization scale is 10^5, and quantizing each
/// component may move the length by up to one quantization step).
pub open spec fn unit_normal(n: Vec3f) -> bool {
    99998 * 99998 <= quant_norm_sq(n) <= 100002 * 100002
}

/// The cross product, over quantized coordinates, of the two edge vectors
/// `point0 - point1` and `point0 - point2`.
pub open spec fn area_cross(t: TriangleSTL) -> (int, int, int) {
    let ux = qx(t.point0) - qx(t.point1);
    let uy = qy(t.point0) - qy(t.point1);
    let uz = qz(t.point0) - qz(t.point1);
    let vx = qx(t.point0) - qx(t.point2);
    let vy = qy(t.point0) - qy(t.point2);
    let vz = qz(t.point0) - qz(t.point2);
    (uy * vz - uz * vy, uz * vx - ux * vz, ux * vy - uy * vx)
}

/// A triangle is kept when its area is at least the degeneracy epsilon of
/// 10^-5. In quantized units the squared cross product length must reach
/// (2 * 10^-5 * 10^10)^2 = 4 * 10^10.
pub open spec fn area_valid(t: TriangleSTL) -> bool {
    let (cx, cy, cz) = area_cross(t);
    cx * cx + cy * cy + cz * cz >= 40_000_000_000
}

proof fn lemma_square_mono(a: int, x: int)
    requires
        0 <= a <= x,
    ensures
        a * a <= x * x,
{
    assert(a * a <= x * x) by (nonlinear_arith)
        requires
            0 <= a <= x,
    ;
}

proof fn lemma_square_nonneg(x: int)
    ensures
        x * x >= 0,
{
    assert(x * x >= 0) by (nonlinear_arith);
}

impl TriangleSTL {
    /// Builds a triangle, rejecting one whose stored normal is not of unit
    /// length within tolerance.
    pub fn new(point0: Vec3f, point1: Vec3f, point2: Vec3f, normal: Vec3f) -> (r: Result<
        TriangleSTL,
        LnasError,
    >)
        ensures
            unit_normal(normal) ==> r == Ok::<TriangleSTL, LnasError>(
                TriangleSTL { point0, point1, point2, normal },
            ),
            !unit_normal(normal) ==> r == Err::<TriangleSTL, LnasError>(LnasError::InvalidNormal),
    {
        proof {
            lemma_quant_bounds(normal.x);
            lemma_quant_bounds(normal.y);
            lemma_quant_bounds(normal.z);
            lemma_abs_mul_bound(qx(normal), qx(normal), 0x8000_0000, 0x8000_0000);
            lemma_abs_mul_bound(qy(normal), qy(normal), 0x8000_0000, 0x8000_0000);
            lemma_abs_mul_bound(qz(normal), qz(normal), 0x8000_0000, 0x8000_0000);
        }
        let nx = quant(normal.x) as i128;
        let ny = quant(normal.y) as i128;
        let nz = quant(normal.z) as i128;
        let s: i128 = nx * nx + ny * ny + nz * nz;
        if 99998 * 99998 <= s && s <= 100002 * 100002 {
            Ok(TriangleSTL { point0, point1, point2, normal })
        } else {
            Err(LnasError::InvalidNormal)
        }
    }

    /// Whether the triangle's area is at least the degeneracy epsilon;
    /// triangles under it are dropped by the decoder.
    pub fn check_area_valid(self) -> (r: bool)
        ensures
            r == area_valid(self),
    {
        proof {
            lemma_quant_bounds(self.point0.x);
            lemma_quant_bounds(self.point0.y);
            lemma_quant_bounds(self.point0.z);
            lemma_quant_bounds(self.point1.x);
            lemma_quant_bounds(self.point1.y);
            lemma_quant_bounds(self.point1.z);
            lemma_quant_bounds(self.point2.x);
            lemma_quant_bounds(self.point2.y);
            lemma_quant_bounds(self.point2.z);
        }
        let ux = (quant(self.point0.x) - quant(self.point1.x)) as i128;
        let uy = (quant(self.point0.y) - quant(self.point1.y)) as i128;
        let uz = (quant(self.point0.z) - quant(self.point1.z)) as i128;
        let vx = (quant(self.point0.x) - quant(self.point2.x)) as i128;
        let vy = (quant(self.point0.y) - quant(self.point2.y)) as i128;
        let vz = (quant(self.point0.z) - quant(self.point2.z)) as i128;
        proof {
            let b: int = 0x1_0000_0000;
            lemma_abs_mul_bound(uy as int, vz as int, b, b);
            lemma_abs_mul_bound(uz as int, vy as int, b, b);
            lemma_abs_mul_bound(uz as int, vx as int, b, b);
            lemma_abs_mul_bound(ux as int, vz as int, b, b);
            lemma_abs_mul_bound(ux as int, vy as int, b, b);
            lemma_abs_mul_bound(uy as int, vx as int, b, b);
        }
        let cx: i128 = uy * vz - uz * vy;
        let cy: i128 = uz * vx - ux * vz;
        let cz: i128 = ux * vy - uy * vx;
        if cx > 200_000 || cx < -200_000 || cy > 200_000 || cy < -200_000 || cz > 200_000 || cz
            < -200_000 {
            proof {
                let (sx, sy, sz) = area_cross(self);
                lemma_square_nonneg(sx);
                lemma_square_nonneg(sy);
                lemma_square_nonneg(sz);
                if sx > 200_000 || sx < -200_000 {
                    lemma_square_mono(200_001, if sx < 0 { -sx } else { sx });
                    assert((-sx) * (-sx) == sx * sx) by (nonlinear_arith);
                } else if sy > 200_000 || sy < -200_000 {
                    lemma_square_mono(200_001, if sy < 0 { -sy } else { sy });
                    assert((-sy) * (-sy) == sy * sy) by (nonlinear_arith);
                } else {
                    lemma_square_mono(200_001, if sz < 0 { -sz } else { sz });
                    assert((-sz) * (-sz) == sz * sz) by (nonlinear_arith);
                }
            }
            true
        } else {
            proof {
                lemma_abs_mul_bound(cx as int, cx as int, 200_000, 200_000);
                lemma_abs_mul_bound(cy as int, cy as int, 200_000, 200_000);
                lemma_abs_mul_bound(cz as int, cz as int, 200_000, 200_000);
            }
            let s: i128 = cx * cx + cy * cy + cz * cz;
            s >= 40_000_000_000
        }
    }
}

/// The axis whose extent the normalization is measured along.
#[derive(Clone, Copy, PartialEq, Eq, Structural, Debug)]
pub enum Axis {
    X,
    Y,
    Z,
}

/// The bit pattern of the chosen component.
pub open spec fn axis_bits(v: Vec3f, a: Axis) -> u32 {
    match a {
        Axis::X => v.x,
        Axis::Y => v.y,
        Axis::Z => v.z,
    }
}

/// The bit pattern of f32::MAX, the neutral start of a running minimum.
pub open spec fn f32_max_bits() -> u32 {
    0x7F7F_FFFF
}

/// The bit pattern of f32::MIN, the neutral start of a running maximum.
pub open spec fn f32_min_bits() -> u32 {
    0xFF7F_FFFF
}

/// One running-minimum step, componentwise.
pub open spec fn min_upd(m: Vec3f, p: Vec3f) -> Vec3f {
    Vec3f {
        x: if f32_lt(p.x, m.x) {
            p.x
        } else {
            m.x
        },
        y: if f32_lt(p.y, m.y) {
            p.y
        } else {
            m.y
        },
        z: if f32_lt(p.z, m.z) {
            p.z
        } else {
            m.z
        },
    }
}

/// One running-maximum step, componentwise.
pub open spec fn max_upd(m: Vec3f, p: Vec3f) -> Vec3f {
    Vec3f {
        x: if f32_lt(m.x, p.x) {
            p.x
        } else {
            m.x
        },
        y: if f32_lt(m.y, p.y) {
            p.y
        } else {
            m.y
        },
        z: if f32_lt(m.z, p.z) {
            p.z
        } else {
            m.z
        },
    }
}

/// The componentwise minimum and maximum over the corners of the first `n`
/// triangles, starting from the neutral sentinels.
pub open spec fn min_max_upto(s: Seq<TriangleSTL>, n: int) -> (Vec3f, Vec3f)
    decreases n,
{
    if n <= 0 {
        (
            Vec3f { x: f32_max_bits(), y: f32_max_bits(), z: f32_max_bits() },
            Vec3f { x: f32_min_bits(), y: f32_min_bits(), z: f32_min_bits() },
        )
    } else {
        let prev = min_max_upto(s, n - 1);
        let t = s[n - 1];
        (
            min_upd(min_upd(min_upd(prev.0, t.point0), t.point1), t.point2),
            max_upd(max_upd(max_upd(prev.1, t.point0), t.point1), t.point2),
        )
    }
}

/// The componentwise extremes over all of the triangles' corners.
pub open spec fn spec_min_max(s: Seq<TriangleSTL>) -> (Vec3f, Vec3f) {
    min_max_upto(s, s.len() as int)
}

fn min_point(m: Vec3f, p: Vec3f) -> (r: Vec3f)
    ensures
        r == min_upd(m, p),
{
    Vec3f {
        x: if f32_lt_bits(p.x, m.x) {
            p.x
        } else {
            m.x
        },
        y: if f32_lt_bits(p.y, m.y) {
            p.y
        } else {
            m.y
        },
        z: if f32_lt_bits(p.z, m.z) {
            p.z
        } else {
            m.z
        },
    }
}

fn max_point(m: Vec3f, p: Vec3f) -> (r: Vec3f)
    ensures
        r == max_upd(m, p),
{
    Vec3f {
        x: if f32_lt_bits(m.x, p.x) {
            p.x
        } else {
            m.x
        },
        y: if f32_lt_bits(m.y, p.y) {
            p.y
        } else {
            m.y
        },
        z: if f32_lt_bits(m.z, p.z) {
            p.z
        } else {
            m.z
        },
    }
}

/// The componentwise minimum and maximum of all triangle corners; with no
/// triangles the sentinels f32::MAX and f32::MIN come back unchanged.
pub fn get_triangles_min_max(triangles: &Vec<TriangleSTL>) -> (r: (Vec3f, Vec3f))
    ensures
        r == spec_min_max(triangles@),
{
    let mut min_vals = Vec3f { x: 0x7F7F_FFFF, y: 0x7F7F_FFFF, z: 0x7F7F_FFFF };
    let mut max_vals = Vec3f { x: 0xFF7F_FFFF, y: 0xFF7F_FFFF, z: 0xFF7F_FFFF };
    let n = triangles.len();
    let mut i: usize = 0;
    while i < n
        invariant
            i <= n == triangles@.len(),
            (min_vals, max_vals) == min_max_upto(triangles@, i as int),
        decreases n - i,
    {
        let t = triangles[i];
        min_vals = min_point(min_vals, t.point0);
        min_vals = min_point(min_vals, t.point1);
        min_vals = min_point(min_vals, t.point2);
        max_vals = max_point(max_vals, t.point0);
        max_vals = max_point(max_vals, t.point1);
        max_vals = max_point(max_vals, t.point2);
        i = i + 1;
    }
    (min_vals, max_vals)
}

/// The affine map of one coordinate triple: subtract the offset, then scale
/// by the factor, componentwise in single precision.
pub open spec fn transform_bits(v: Vec3f, factor: u32, offset: Vec3f) -> Vec3f {
    Vec3f {
        x: mul_bits(sub_bits(v.x, offset.x), factor),
        y: mul_bits(sub_bits(v.y, offset.y), factor),
        z: mul_bits(sub_bits(v.z, offset.z), factor),
    }
}

/// A triangle with every corner transformed and the stored normal kept:
/// uniform scaling and translation leave the facing direction unchanged.
pub open spec fn normalized_triangle(t: TriangleSTL, factor: u32, offset: Vec3f) -> TriangleSTL {
    TriangleSTL {
        point0: transform_bits(t.point0, factor, offset),
        point1: transform_bits(t.point1, factor, offset),
        point2: transform_bits(t.point2, factor, offset),
        normal: t.normal,
    }
}

fn transform_point(v: Vec3f, factor: u32, offset: Vec3f) -> (r: Vec3f)
    ensures
        r == transform_bits(v, factor, offset),
{
    Vec3f {
        x: f32_mul(f32_sub(v.x, offset.x), factor),
        y: f32_mul(f32_sub(v.y, offset.y), factor),
        z: f32_mul(f32_sub(v.z, offset.z), factor),
    }
}

impl TriangleSTL {
    /// Applies the normalization map to the three corners; the stored
    /// normal stays as it was.
    pub fn normalize(&mut self, factor: u32, offset: Vec3f)
        ensures
            *final(self) == normalized_triangle(*old(self), factor, offset),
    {
        self.point0 = transform_point(self.point0, factor, offset);
        self.point1 = transform_point(self.point1, factor, offset);
        self.point2 = transform_point(self.point2, factor, offset);
    }
}

/// The scale factor and offset that make the chosen axis span `size`
/// starting at zero: `size / (max - min)` along that axis, and the minimum
/// corner.
pub open spec fn norm_params(s: Seq<TriangleSTL>, size: u32, direction: Axis) -> (u32, Vec3f) {
    let mm = spec_min_max(s);
    (div_bits(size, sub_bits(axis_bits(mm.1, direction), axis_bits(mm.0, direction))), mm.0)
}

/// Rescales and translates every triangle so that the chosen axis spans
/// `size` starting at zero; the same scalar factor applies to all three
/// axes, preserving shape.
pub fn normalize_triangles(triangles: &Vec<TriangleSTL>, size: u32, direction: Axis) -> (r: Vec<
    TriangleSTL,
>)
    ensures
        r@.len() == triangles@.len(),
        forall|i: int|
            0 <= i < triangles@.len() ==> r@[i] == normalized_triangle(
                triangles@[i],
                norm_params(triangles@, size, direction).0,
                norm_params(triangles@, size, direction).1,
            ),
{
    let (min_vals, max_vals) = get_triangles_min_max(triangles);
    let span: u32 = f32_sub(
        match direction {
            Axis::X => max_vals.x,
            Axis::Y => max_vals.y,
            Axis::Z => max_vals.z,
        },
        match direction {
            Axis::X => min_vals.x,
            Axis::Y => min_vals.y,
            Axis::Z => min_vals.z,
        },
    );
    let mul_factor: u32 = f32_div(size, span);
    let mut out: Vec<TriangleSTL> = Vec::new();
    let n = triangles.len();
    let mut i: usize = 0;
    while i < n
        invariant
            i <= n == triangles@.len(),
            out@.len() == i,
            mul_factor == norm_params(triangles@, size, direction).0,
            min_vals == norm_params(triangles@, size, direction).1,
            forall|j: int|
                0 <= j < i ==> out@[j] == normalized_triangle(
                    triangles@[j],
                    mul_factor,
                    min_vals,
                ),
        decreases n - i,
    {
        let mut t = triangles[i];
        t.normalize(mul_factor, min_vals);
        out.push(t);
        i = i + 1;
    }
    out
}

} // verus!
