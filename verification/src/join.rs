use vstd::prelude::*;
use crate::lagrtriangle::LagrangianTriangle;
use crate::vector::{quant_eq, Vec3f, Vec3u};
use crate::vertice::{contains_quant, table_points, VertexTable};

verus! {

/// Whether an indexed triangle resolves the three corners of a
/// winding-corrected triangle against the canonical vertex set.
pub open spec fn indexes_triangle(points: Seq<Vec3f>, t: LagrangianTriangle, u: Vec3u) -> bool {
    &&& u.x < points.len()
    &&& u.y < points.len()
    &&& u.z < points.len()
    &&& quant_eq(points[u.x as int], t.p0.pos)
    &&& quant_eq(points[u.y as int], t.p1.pos)
    &&& quant_eq(points[u.z as int], t.p2.pos)
}

/// Builds the two flat output arrays: the vertex array in canonical index
/// order, and one index triple per triangle in the triangle list's order.
/// Together with the table's strict sorting, the quantized-equality
/// clauses pin every index to the unique canonical vertex of its corner.
pub fn join_information(
    lagrangian_vertices: &VertexTable,
    lagrangian_triangles: &Vec<LagrangianTriangle>,
) -> (r: (Vec<Vec3f>, Vec<Vec3u>))
    requires
        lagrangian_vertices.verts@.len() <= u32::MAX,
        forall|i: int|
            0 <= i < lagrangian_triangles@.len() ==> {
                &&& contains_quant(
                    table_points(*lagrangian_vertices),
                    (#[trigger] lagrangian_triangles@[i]).p0.pos,
                )
                &&& contains_quant(
                    table_points(*lagrangian_vertices),
                    lagrangian_triangles@[i].p1.pos,
                )
                &&& contains_quant(
                    table_points(*lagrangian_vertices),
                    lagrangian_triangles@[i].p2.pos,
                )
            },
    ensures
        r.0@ == table_points(*lagrangian_vertices),
        r.1@.len() == lagrangian_triangles@.len(),
        forall|i: int|
            0 <= i < lagrangian_triangles@.len() ==> indexes_triangle(
                table_points(*lagrangian_vertices),
                #[trigger] lagrangian_triangles@[i],
                r.1@[i],
            ),
{
    let mut vec_vertices: Vec<Vec3f> = Vec::new();
    let nv = lagrangian_vertices.verts.len();
    let mut i: usize = 0;
    while i < nv
        invariant
            i <= nv == lagrangian_vertices.verts@.len(),
            vec_vertices@.len() == i,
            forall|k: int| 0 <= k < i ==> vec_vertices@[k] == table_points(*lagrangian_vertices)[k],
        decreases nv - i,
    {
        vec_vertices.push(lagrangian_vertices.verts[i].pos);
        i = i + 1;
    }
    assert(vec_vertices@ =~= table_points(*lagrangian_vertices));

    let mut vec_triangles: Vec<Vec3u> = Vec::new();
    let nt = lagrangian_triangles.len();
    let mut j: usize = 0;
    while j < nt
        invariant
            j <= nt == lagrangian_triangles@.len(),
            vec_triangles@.len() == j,
            lagrangian_vertices.verts@.len() <= u32::MAX,
            forall|k: int|
                0 <= k < nt ==> {
                    &&& contains_quant(
                        table_points(*lagrangian_vertices),
                        (#[trigger] lagrangian_triangles@[k]).p0.pos,
                    )
                    &&& contains_quant(
                        table_points(*lagrangian_vertices),
                        lagrangian_triangles@[k].p1.pos,
                    )
                    &&& contains_quant(
                        table_points(*lagrangian_vertices),
                        lagrangian_triangles@[k].p2.pos,
                    )
                },
            forall|k: int|
                0 <= k < j ==> indexes_triangle(
                    table_points(*lagrangian_vertices),
                    #[trigger] lagrangian_triangles@[k],
                    vec_triangles@[k],
                ),
        decreases nt - j,
    {
        let t = lagrangian_triangles[j];
        let idxs = t.get_indexes(lagrangian_vertices);
        let u = Vec3u { x: idxs[0] as u32, y: idxs[1] as u32, z: idxs[2] as u32 };
        vec_triangles.push(u);
        j = j + 1;
    }
    (vec_vertices, vec_triangles)
}

} // verus!
