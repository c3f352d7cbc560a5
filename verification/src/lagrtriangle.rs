use vstd::prelude::*;
use crate::errors::LnasError;
use crate::triangle::TriangleSTL;
use crate::vector::{lemma_quant_bounds, quant, quant_eq, qx, qy, qz, Vec3f};
use crate::vertice::{contains_quant, table_points, LagrangianVertice, VertexTable};

verus! {

/// One winding-corrected triangle, still carrying its corner positions.
#[derive(Clone, Copy, PartialEq, Eq, Structural, Debug)]
pub struct LagrangianTriangle {
    pub p0: LagrangianVertice,
    pub p1: LagrangianVertice,
    pub p2: LagrangianVertice,
}

/// The orientation determinant over quantized coordinates:
/// `dot(cross(p1 - p0, p2 - p0), n)`. Its sign is the sign of the angle
/// between the winding's outward normal and the stored normal.
pub open spec fn wind_det(p0: Vec3f, p1: Vec3f, p2: Vec3f, n: Vec3f) -> int {
    let ux = qx(p1) - qx(p0);
    let uy = qy(p1) - qy(p0);
    let uz = qz(p1) - qz(p0);
    let vx = qx(p2) - qx(p0);
    let vy = qy(p2) - qy(p0);
    let vz = qz(p2) - qz(p0);
    (uy * vz - uz * vy) * qx(n) + (uz * vx - ux * vz) * qy(n) + (ux * vy - uy * vx) * qz(n)
}

/// Whether the ordering (p0, p1, p2) winds the triangle so that its
/// computed normal points the same way as the stored one.
pub open spec fn wind_pos(p0: Vec3f, p1: Vec3f, p2: Vec3f, n: Vec3f) -> bool {
    wind_det(p0, p1, p2, n) > 0
}

/// Whether the stored normal can be reconciled with one of the two
/// candidate orderings, tried in this fixed priority: (p0, p1, p2) first,
/// then (p0, p2, p1).
pub open spec fn windable(p0: Vec3f, p1: Vec3f, p2: Vec3f, n: Vec3f) -> bool {
    wind_pos(p0, p1, p2, n) || wind_pos(p0, p2, p1, n)
}

/// The first candidate ordering that agrees with the stored normal.
pub open spec fn wound_order(p0: Vec3f, p1: Vec3f, p2: Vec3f, n: Vec3f) -> (Vec3f, Vec3f, Vec3f) {
    if wind_pos(p0, p1, p2, n) {
        (p0, p1, p2)
    } else {
        (p0, p2, p1)
    }
}

/// The winding-corrected triangle of a source triangle.
pub open spec fn wound_triangle(p0: Vec3f, p1: Vec3f, p2: Vec3f, n: Vec3f) -> LagrangianTriangle {
    let o = wound_order(p0, p1, p2, n);
    LagrangianTriangle {
        p0: LagrangianVertice { pos: o.0 },
        p1: LagrangianVertice { pos: o.1 },
        p2: LagrangianVertice { pos: o.2 },
    }
}

/// Winding consistency: every triangle that construction accepts is
/// ordered so that the normal computed from its corrected corner order
/// points the same way as its stored normal.
pub proof fn lemma_winding_consistency(p0: Vec3f, p1: Vec3f, p2: Vec3f, n: Vec3f)
    requires
        windable(p0, p1, p2, n),
    ensures
        wind_pos(
            wound_triangle(p0, p1, p2, n).p0.pos,
            wound_triangle(p0, p1, p2, n).p1.pos,
            wound_triangle(p0, p1, p2, n).p2.pos,
            n,
        ),
{
}

fn wind_det_exec(p0: &Vec3f, p1: &Vec3f, p2: &Vec3f, n: &Vec3f) -> (r: i128)
    ensures
        r == wind_det(*p0, *p1, *p2, *n),
{
    proof {
        lemma_quant_bounds(p0.x);
        lemma_quant_bounds(p0.y);
        lemma_quant_bounds(p0.z);
        lemma_quant_bounds(p1.x);
        lemma_quant_bounds(p1.y);
        lemma_quant_bounds(p1.z);
        lemma_quant_bounds(p2.x);
        lemma_quant_bounds(p2.y);
        lemma_quant_bounds(p2.z);
        lemma_quant_bounds(n.x);
        lemma_quant_bounds(n.y);
        lemma_quant_bounds(n.z);
    }
    let ux = (quant(p1.x) - quant(p0.x)) as i128;
    let uy = (quant(p1.y) - quant(p0.y)) as i128;
    let uz = (quant(p1.z) - quant(p0.z)) as i128;
    let vx = (quant(p2.x) - quant(p0.x)) as i128;
    let vy = (quant(p2.y) - quant(p0.y)) as i128;
    let vz = (quant(p2.z) - quant(p0.z)) as i128;
    proof {
        let b: int = 0x1_0000_0000;
        crate::vector::lemma_abs_mul_bound(uy as int, vz as int, b, b);
        crate::vector::lemma_abs_mul_bound(uz as int, vy as int, b, b);
        crate::vector::lemma_abs_mul_bound(uz as int, vx as int, b, b);
        crate::vector::lemma_abs_mul_bound(ux as int, vz as int, b, b);
        crate::vector::lemma_abs_mul_bound(ux as int, vy as int, b, b);
        crate::vector::lemma_abs_mul_bound(uy as int, vx as int, b, b);
    }
    let cx: i128 = uy * vz - uz * vy;
    let cy: i128 = uz * vx - ux * vz;
    let cz: i128 = ux * vy - uy * vx;
    proof {
        let c: int = 0x2_0000_0000_0000_0000;
        let q: int = 0x8000_0000;
        crate::vector::lemma_abs_mul_bound(cx as int, crate::vector::quant_spec(n.x), c, q);
        crate::vector::lemma_abs_mul_bound(cy as int, crate::vector::quant_spec(n.y), c, q);
        crate::vector::lemma_abs_mul_bound(cz as int, crate::vector::quant_spec(n.z), c, q);
    }
    cx * quant(n.x) as i128 + cy * quant(n.y) as i128 + cz * quant(n.z) as i128
}

/// Picks the first candidate corner ordering whose computed normal agrees
/// with the stored one; `None` when neither does.
pub fn get_normal_order(p0: Vec3f, p1: Vec3f, p2: Vec3f, normal: &Vec3f) -> (r: Option<
    (Vec3f, Vec3f, Vec3f),
>)
    ensures
        windable(p0, p1, p2, *normal) <==> r is Some,
        r is Some ==> r->0 == wound_order(p0, p1, p2, *normal),
{
    let d1 = wind_det_exec(&p0, &p1, &p2, normal);
    if d1 > 0 {
        return Some((p0, p1, p2));
    }
    let d2 = wind_det_exec(&p0, &p2, &p1, normal);
    if d2 > 0 {
        return Some((p0, p2, p1));
    }
    None
}

impl LagrangianTriangle {
    /// Builds a winding-corrected triangle; `None` when the stored normal
    /// agrees with neither ordering.
    pub fn new(p0: LagrangianVertice, p1: LagrangianVertice, p2: LagrangianVertice, normal: &Vec3f)
        -> (r: Option<LagrangianTriangle>)
        ensures
            windable(p0.pos, p1.pos, p2.pos, *normal) <==> r is Some,
            r is Some ==> r->0 == wound_triangle(p0.pos, p1.pos, p2.pos, *normal),
    {
        match get_normal_order(p0.pos, p1.pos, p2.pos, normal) {
            Some((a, b, c)) => Some(
                LagrangianTriangle {
                    p0: LagrangianVertice { pos: a },
                    p1: LagrangianVertice { pos: b },
                    p2: LagrangianVertice { pos: c },
                },
            ),
            None => None,
        }
    }

    /// The three canonical vertex indices of the corners, resolved against
    /// the vertex table in corrected winding order.
    pub fn get_indexes(&self, vertices: &VertexTable) -> (r: Vec<usize>)
        requires
            contains_quant(table_points(*vertices), self.p0.pos),
            contains_quant(table_points(*vertices), self.p1.pos),
            contains_quant(table_points(*vertices), self.p2.pos),
        ensures
            r@.len() == 3,
            forall|k: int|
                0 <= k < 3 ==> 0 <= #[trigger] r@[k] < table_points(*vertices).len(),
            quant_eq(table_points(*vertices)[r@[0] as int], self.p0.pos),
            quant_eq(table_points(*vertices)[r@[1] as int], self.p1.pos),
            quant_eq(table_points(*vertices)[r@[2] as int], self.p2.pos),
    {
        let i0 = match vertices.index_of(self.p0.pos) {
            Some(i) => i,
            None => {
                proof {
                    assert(false);
                }
                0
            },
        };
        let i1 = match vertices.index_of(self.p1.pos) {
            Some(i) => i,
            None => {
                proof {
                    assert(false);
                }
                0
            },
        };
        let i2 = match vertices.index_of(self.p2.pos) {
            Some(i) => i,
            None => {
                proof {
                    assert(false);
                }
                0
            },
        };
        let mut r: Vec<usize> = Vec::new();
        r.push(i0);
        r.push(i1);
        r.push(i2);
        r
    }
}

/// Converts every source triangle into its winding-corrected form, in
/// order; fails on the first triangle whose stored normal cannot be
/// reconciled, naming its position in the list.
pub fn generate_lagrangian_triangles(
    _vertices: &VertexTable,
    triangles: &Vec<TriangleSTL>,
) -> (r: Result<Vec<LagrangianTriangle>, LnasError>)
    ensures
        (r is Ok) <==> (forall|i: int|
            0 <= i < triangles@.len() ==> windable(
                #[trigger] triangles@[i].point0,
                triangles@[i].point1,
                triangles@[i].point2,
                triangles@[i].normal,
            )),
        r is Ok ==> (r->Ok_0@.len() == triangles@.len() && forall|i: int|
            0 <= i < triangles@.len() ==> r->Ok_0@[i] == wound_triangle(
                #[trigger] triangles@[i].point0,
                triangles@[i].point1,
                triangles@[i].point2,
                triangles@[i].normal,
            )),
        r is Err ==> exists|i: int|
            {
                &&& 0 <= i < triangles@.len()
                &&& r == Err::<Vec<LagrangianTriangle>, LnasError>(
                    LnasError::InconsistentNormal(i as usize),
                )
                &&& !windable(
                    #[trigger] triangles@[i].point0,
                    triangles@[i].point1,
                    triangles@[i].point2,
                    triangles@[i].normal,
                )
            },
{
    let mut out: Vec<LagrangianTriangle> = Vec::new();
    let n = triangles.len();
    let mut i: usize = 0;
    while i < n
        invariant
            i <= n == triangles@.len(),
            out@.len() == i,
            forall|j: int|
                0 <= j < i ==> windable(
                    #[trigger] triangles@[j].point0,
                    triangles@[j].point1,
                    triangles@[j].point2,
                    triangles@[j].normal,
                ),
            forall|j: int|
                0 <= j < i ==> out@[j] == wound_triangle(
                    #[trigger] triangles@[j].point0,
                    triangles@[j].point1,
                    triangles@[j].point2,
                    triangles@[j].normal,
                ),
        decreases n - i,
    {
        let t = triangles[i];
        let lagr_p0 = LagrangianVertice::new(t.point0);
        let lagr_p1 = LagrangianVertice::new(t.point1);
        let lagr_p2 = LagrangianVertice::new(t.point2);
        match LagrangianTriangle::new(lagr_p0, lagr_p1, lagr_p2, &t.normal) {
            Some(lagr_tri) => {
                out.push(lagr_tri);
            },
            None => {
                return Err(LnasError::InconsistentNormal(i));
            },
        }
        i = i + 1;
    }
    Ok(out)
}

} // verus!
