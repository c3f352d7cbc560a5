use vstd::prelude::*;
use crate::errors::LnasError;
use crate::format::{b64_str, get_lnas_obj_save, indices_bytes, triangles_bytes, version_tag, vertices_bytes};
use crate::join::{indexes_triangle, join_information};
use crate::lagrtriangle::{generate_lagrangian_triangles, windable, wound_triangle, LagrangianTriangle};
use crate::save::{plain_name, render_lnas, surfaces_text};
use crate::surfaces::{get_surfaces, names_distinct, surfaces_post};
use crate::triangle::{norm_params, normalized_triangle, normalize_triangles, Axis, TriangleSTL};
use crate::vector::{Vec3f, Vec3u};
use crate::vertice::{contains_quant, dedup_first, generate_lagrangian_vertices, point_of, soup_points, strictly_sorted, table_points};

verus! {

/// Whether `tris` is `all` with the requested normalization applied.
pub open spec fn norm_applied(
    all: Seq<TriangleSTL>,
    normalization: Option<(u32, Axis)>,
    tris: Seq<TriangleSTL>,
) -> bool {
    match normalization {
        None => tris == all,
        Some((size, direction)) => {
            &&& tris.len() == all.len()
            &&& (forall|i: int|
                0 <= i < all.len() ==> tris[i] == normalized_triangle(
                    #[trigger] all[i],
                    norm_params(all, size, direction).0,
                    norm_params(all, size, direction).1,
                ))
        },
    }
}

/// Whether `verts` is the canonical vertex array of the soup: the distinct
/// quantized positions, first occurrences kept, in strictly ascending
/// quantized order.
pub open spec fn vertices_post(tris: Seq<TriangleSTL>, verts: Seq<Vec3f>) -> bool {
    &&& strictly_sorted(verts)
    &&& verts.to_multiset() == dedup_first(soup_points(tris)).to_multiset()
    &&& (forall|p: Vec3f| contains_quant(verts, p) <==> contains_quant(soup_points(tris), p))
}

/// Whether `out` indexes every triangle of the soup against the canonical
/// vertex array, in source order and corrected winding.
pub open spec fn triangles_post(verts: Seq<Vec3f>, tris: Seq<TriangleSTL>, out: Seq<Vec3u>) -> bool {
    &&& out.len() == tris.len()
    &&& (forall|i: int|
        0 <= i < tris.len() ==> windable(
            (#[trigger] tris[i]).point0,
            tris[i].point1,
            tris[i].point2,
            tris[i].normal,
        ))
    &&& (forall|i: int|
        0 <= i < tris.len() ==> indexes_triangle(
            verts,
            wound_triangle(
                (#[trigger] tris[i]).point0,
                tris[i].point1,
                tris[i].point2,
                tris[i].normal,
            ),
            out[i],
        ))
}

/// Whether `tris` is the triangle list that aggregating and normalizing
/// these inputs produces.
pub open spec fn aggregated(
    files: Seq<(String, Vec<u8>)>,
    normalization: Option<(u32, Axis)>,
    tris: Seq<TriangleSTL>,
) -> bool {
    exists|all: Seq<TriangleSTL>, surfs: Seq<(String, Vec<u32>)>|
        #[trigger] surfaces_post(files, all, surfs) && norm_applied(all, normalization, tris)
}

/// When a mesh build is owed success: distinct names, every input
/// decodes, everything fits 32-bit indexing, and every stored normal of
/// the aggregated, normalized triangles can be reconciled with a winding.
pub open spec fn mesh_buildable(
    files: Seq<(String, Vec<u8>)>,
    normalization: Option<(u32, Axis)>,
) -> bool {
    &&& names_distinct(files)
    &&& (forall|i: int| 0 <= i < files.len() ==> crate::reader::stl_parses((#[trigger] files[i]).1@))
    &&& crate::surfaces::vtotal(crate::surfaces::view_pairs(files)) <= u32::MAX
    &&& (forall|tris: Seq<TriangleSTL>|
        #[trigger] aggregated(files, normalization, tris) ==> {
            &&& dedup_first(soup_points(tris)).len() <= u32::MAX
            &&& (forall|i: int|
                0 <= i < tris.len() ==> windable(
                    (#[trigger] tris[i]).point0,
                    tris[i].point1,
                    tris[i].point2,
                    tris[i].normal,
                ))
        })
}

/// Everything a successful mesh build promises, tying the three returned
/// arrays to the input files through the aggregated triangle list.
pub open spec fn mesh_post(
    files: Seq<(String, Vec<u8>)>,
    normalization: Option<(u32, Axis)>,
    verts: Seq<Vec3f>,
    idx: Seq<Vec3u>,
    surfs: Seq<(String, Vec<u32>)>,
) -> bool {
    exists|all: Seq<TriangleSTL>, tris: Seq<TriangleSTL>|
        {
            &&& #[trigger] surfaces_post(files, all, surfs)
            &&& #[trigger] norm_applied(all, normalization, tris)
            &&& vertices_post(tris, verts)
            &&& triangles_post(verts, tris, idx)
        }
}

/// Builds the indexed mesh of the named STL inputs: the canonical vertex
/// array, one index triple per triangle, and the per-surface triangle
/// index lists.
pub fn build_mesh(files: &Vec<(String, Vec<u8>)>, normalization: Option<(u32, Axis)>) -> (r:
    Result<(Vec<Vec3f>, Vec<Vec3u>, Vec<(String, Vec<u32>)>), LnasError>)
    ensures
        r is Ok ==> mesh_post(
            files@,
            normalization,
            r->Ok_0.0@,
            r->Ok_0.1@,
            r->Ok_0.2@,
        ),
        !names_distinct(files@) ==> r == Err::<
            (Vec<Vec3f>, Vec<Vec3u>, Vec<(String, Vec<u32>)>),
            LnasError,
        >(LnasError::DuplicateSurface),
        r is Err ==> r->Err_0 != LnasError::UnsafeSurfaceName,
        r is Err && r->Err_0 == LnasError::DuplicateSurface ==> !names_distinct(files@),
        (r is Err && (r->Err_0 == LnasError::TruncatedStl || r->Err_0
            == LnasError::InvalidNormal)) ==> exists|i: int|
            0 <= i < files@.len() && !crate::reader::stl_parses((#[trigger] files@[i]).1@),
        (r is Err && r->Err_0 == LnasError::IndexOverflow) ==> (crate::surfaces::vtotal(
            crate::surfaces::view_pairs(files@),
        ) > u32::MAX || exists|tris: Seq<TriangleSTL>|
            #[trigger] aggregated(files@, normalization, tris) && dedup_first(
                soup_points(tris),
            ).len() > u32::MAX),
        (r is Err && r->Err_0 is InconsistentNormal) ==> exists|tris: Seq<TriangleSTL>, i: int|
            {
                &&& aggregated(files@, normalization, tris)
                &&& 0 <= i < tris.len()
                &&& !#[trigger] windable(tris[i].point0, tris[i].point1, tris[i].point2, tris[i].normal)
                &&& r->Err_0 == LnasError::InconsistentNormal(i as usize)
            },
        mesh_buildable(files@, normalization) ==> r is Ok,
{
    let (all_triangles, surfaces) = match get_surfaces(files) {
        Ok(p) => p,
        Err(e) => {
            return Err(e);
        },
    };
    let triangles = match normalization {
        Some((size, direction)) => normalize_triangles(&all_triangles, size, direction),
        None => all_triangles,
    };
    let ghost gall = if normalization is Some {
        all_triangles@
    } else {
        triangles@
    };
    let table = generate_lagrangian_vertices(&triangles);
    if table.len() > u32::MAX as usize {
        proof {
            broadcast use vstd::seq_lib::group_to_multiset_ensures;

            assert(norm_applied(gall, normalization, triangles@));
            assert(aggregated(files@, normalization, triangles@));
            assert(table_points(table).len() == table.verts@.len());
            assert(table_points(table).to_multiset().len() == table_points(table).len());
            assert(dedup_first(soup_points(triangles@)).to_multiset().len() == dedup_first(
                soup_points(triangles@),
            ).len());
            assert(dedup_first(soup_points(triangles@)).len() > u32::MAX);
        }
        return Err(LnasError::IndexOverflow);
    }
    let lagr_triangles = match generate_lagrangian_triangles(&table, &triangles) {
        Ok(v) => v,
        Err(e) => {
            proof {
                assert(norm_applied(gall, normalization, triangles@));
                assert(aggregated(files@, normalization, triangles@));
                let i = choose|i: int|
                    {
                        &&& 0 <= i < triangles@.len()
                        &&& Err::<Vec<LagrangianTriangle>, LnasError>(e)
                            == Err::<Vec<LagrangianTriangle>, LnasError>(
                            LnasError::InconsistentNormal(i as usize),
                        )
                        &&& !windable(
                            #[trigger] triangles@[i].point0,
                            triangles@[i].point1,
                            triangles@[i].point2,
                            triangles@[i].normal,
                        )
                    };
                assert(!windable(
                    triangles@[i].point0,
                    triangles@[i].point1,
                    triangles@[i].point2,
                    triangles@[i].normal,
                ));
            }
            return Err(e);
        },
    };
    proof {
        assert forall|i: int| 0 <= i < lagr_triangles@.len() implies {
            &&& contains_quant(table_points(table), (#[trigger] lagr_triangles@[i]).p0.pos)
            &&& contains_quant(table_points(table), lagr_triangles@[i].p1.pos)
            &&& contains_quant(table_points(table), lagr_triangles@[i].p2.pos)
        } by {
            let t = triangles@[i];
            assert((3 * i) / 3 == i && (3 * i) % 3 == 0) by (nonlinear_arith)
                requires
                    i >= 0,
            ;
            assert((3 * i + 1) / 3 == i && (3 * i + 1) % 3 == 1) by (nonlinear_arith)
                requires
                    i >= 0,
            ;
            assert((3 * i + 2) / 3 == i && (3 * i + 2) % 3 == 2) by (nonlinear_arith)
                requires
                    i >= 0,
            ;
            assert(soup_points(triangles@)[3 * i] == point_of(t, 0));
            assert(soup_points(triangles@)[3 * i + 1] == point_of(t, 1));
            assert(soup_points(triangles@)[3 * i + 2] == point_of(t, 2));
            assert(contains_quant(soup_points(triangles@), t.point0));
            assert(contains_quant(soup_points(triangles@), t.point1));
            assert(contains_quant(soup_points(triangles@), t.point2));
        }
    }
    let (joined_vertices, joined_triangles) = join_information(&table, &lagr_triangles);
    proof {
        assert(norm_applied(gall, normalization, triangles@));
        assert(vertices_post(triangles@, joined_vertices@));
        assert(triangles_post(joined_vertices@, triangles@, joined_triangles@));
        assert(surfaces_post(files@, gall, surfaces@));
        assert(mesh_post(files@, normalization, joined_vertices@, joined_triangles@, surfaces@));
    }
    Ok((joined_vertices, joined_triangles, surfaces))
}

/// The surface entry lines of the rendered document, derived from the raw
/// index lists.
pub open spec fn surface_lines(surfs: Seq<(String, Vec<u32>)>) -> Seq<char>
    decreases surfs.len(),
{
    if surfs.len() == 0 {
        Seq::empty()
    } else {
        surface_lines(surfs.drop_last()) + "  "@ + surfs.last().0@ + ": "@ + b64_str(
            indices_bytes(surfs.last().1@),
        ) + "\n"@
    }
}

/// The full text of the document that a mesh serializes to.
pub open spec fn document_text(
    verts: Seq<Vec3f>,
    idx: Seq<Vec3u>,
    surfs: Seq<(String, Vec<u32>)>,
) -> Seq<char> {
    "version: "@ + version_tag() + "\ngeometry:\n  vertices: "@ + b64_str(vertices_bytes(verts))
        + "\n  triangles: "@ + b64_str(triangles_bytes(idx)) + "\nsurfaces:\n"@ + surface_lines(
        surfs,
    )
}

proof fn lemma_surface_lines_eq(docs: Seq<(String, String)>, surfs: Seq<(String, Vec<u32>)>)
    requires
        docs.len() == surfs.len(),
        forall|j: int|
            0 <= j < surfs.len() ==> (#[trigger] docs[j]).0@ == surfs[j].0@ && docs[j].1@
                == b64_str(indices_bytes(surfs[j].1@)),
    ensures
        surfaces_text(docs) == surface_lines(surfs),
    decreases docs.len(),
{
    if docs.len() > 0 {
        lemma_surface_lines_eq(docs.drop_last(), surfs.drop_last());
    }
}

/// Determinism of the indexing stages: one triangle list admits exactly
/// one canonical vertex array and one indexed triangle array, so two runs
/// over the same aggregated triangles agree on both, and hence on every
/// byte that `document_text` derives from them.
pub proof fn lemma_mesh_deterministic(
    tris: Seq<TriangleSTL>,
    v1: Seq<Vec3f>,
    i1: Seq<Vec3u>,
    v2: Seq<Vec3f>,
    i2: Seq<Vec3u>,
)
    requires
        vertices_post(tris, v1),
        triangles_post(v1, tris, i1),
        vertices_post(tris, v2),
        triangles_post(v2, tris, i2),
    ensures
        v1 == v2,
        i1 == i2,
{
    crate::vertice::lemma_sorted_multiset_unique(v1, v2);
    assert forall|k: int| 0 <= k < i1.len() implies i1[k] == i2[k] by {
        let w = wound_triangle(tris[k].point0, tris[k].point1, tris[k].point2, tris[k].normal);
        assert(indexes_triangle(v1, w, i1[k]));
        assert(indexes_triangle(v2, w, i2[k]));
        crate::vertice::lemma_tolerance_equality(
            v1,
            w.p0.pos,
            w.p0.pos,
            i1[k].x as int,
            i2[k].x as int,
        );
        crate::vertice::lemma_tolerance_equality(
            v1,
            w.p1.pos,
            w.p1.pos,
            i1[k].y as int,
            i2[k].y as int,
        );
        crate::vertice::lemma_tolerance_equality(
            v1,
            w.p2.pos,
            w.p2.pos,
            i1[k].z as int,
            i2[k].z as int,
        );
    }
    assert(i1 =~= i2);
}

proof fn lemma_surface_lines_congruent(s1: Seq<(String, Vec<u32>)>, s2: Seq<(String, Vec<u32>)>)
    requires
        s1.len() == s2.len(),
        forall|j: int|
            0 <= j < s1.len() ==> (#[trigger] s1[j]).0@ == (#[trigger] s2[j]).0@ && s1[j].1@
                == s2[j].1@,
    ensures
        surface_lines(s1) == surface_lines(s2),
    decreases s1.len(),
{
    if s1.len() > 0 {
        lemma_surface_lines_congruent(s1.drop_last(), s2.drop_last());
    }
}

/// Determinism: two conversions of the same inputs, with the same
/// normalization request, produce byte-identical document text.
pub proof fn lemma_conversion_deterministic(
    files: Seq<(String, Vec<u8>)>,
    normalization: Option<(u32, Axis)>,
    v1: Seq<Vec3f>,
    i1: Seq<Vec3u>,
    s1: Seq<(String, Vec<u32>)>,
    v2: Seq<Vec3f>,
    i2: Seq<Vec3u>,
    s2: Seq<(String, Vec<u32>)>,
)
    requires
        names_distinct(files),
        mesh_post(files, normalization, v1, i1, s1),
        mesh_post(files, normalization, v2, i2, s2),
    ensures
        document_text(v1, i1, s1) == document_text(v2, i2, s2),
{
    let (all1, tris1) = choose|all: Seq<TriangleSTL>, tris: Seq<TriangleSTL>|
        {
            &&& #[trigger] surfaces_post(files, all, s1)
            &&& #[trigger] norm_applied(all, normalization, tris)
            &&& vertices_post(tris, v1)
            &&& triangles_post(v1, tris, i1)
        };
    let (all2, tris2) = choose|all: Seq<TriangleSTL>, tris: Seq<TriangleSTL>|
        {
            &&& #[trigger] surfaces_post(files, all, s2)
            &&& #[trigger] norm_applied(all, normalization, tris)
            &&& vertices_post(tris, v2)
            &&& triangles_post(v2, tris, i2)
        };
    crate::surfaces::lemma_surfaces_deterministic(files, all1, s1, all2, s2);
    assert(tris1 == tris2) by {
        match normalization {
            None => {},
            Some((size, direction)) => {
                assert forall|k: int| 0 <= k < tris1.len() implies tris1[k] == tris2[k] by {
                    assert(tris1[k] == normalized_triangle(
                        all1[k],
                        norm_params(all1, size, direction).0,
                        norm_params(all1, size, direction).1,
                    ));
                    assert(tris2[k] == normalized_triangle(
                        all2[k],
                        norm_params(all2, size, direction).0,
                        norm_params(all2, size, direction).1,
                    ));
                }
                assert(tris1 =~= tris2);
            },
        }
    }
    lemma_mesh_deterministic(tris1, v1, i1, v2, i2);
    lemma_surface_lines_congruent(s1, s2);
}

/// Converts the named STL inputs into the final document text: build the
/// mesh, encode the buffers, and render the document.
pub fn generate_lnas(files: &Vec<(String, Vec<u8>)>, normalization: Option<(u32, Axis)>) -> (r:
    Result<String, LnasError>)
    ensures
        r is Ok ==> exists|verts: Seq<Vec3f>, idx: Seq<Vec3u>, surfs: Seq<(String, Vec<u32>)>|
            {
                &&& #[trigger] mesh_post(files@, normalization, verts, idx, surfs)
                &&& r->Ok_0@ == document_text(verts, idx, surfs)
                &&& (forall|j: int| 0 <= j < surfs.len() ==> plain_name((#[trigger] surfs[j]).0@))
            },
        !names_distinct(files@) ==> r == Err::<String, LnasError>(LnasError::DuplicateSurface),
        r is Err && r->Err_0 == LnasError::DuplicateSurface ==> !names_distinct(files@),
        (r is Err && (r->Err_0 == LnasError::TruncatedStl || r->Err_0
            == LnasError::InvalidNormal)) ==> exists|i: int|
            0 <= i < files@.len() && !crate::reader::stl_parses((#[trigger] files@[i]).1@),
        (r is Err && r->Err_0 == LnasError::IndexOverflow) ==> (crate::surfaces::vtotal(
            crate::surfaces::view_pairs(files@),
        ) > u32::MAX || exists|tris: Seq<TriangleSTL>|
            #[trigger] aggregated(files@, normalization, tris) && dedup_first(
                soup_points(tris),
            ).len() > u32::MAX),
        (r is Err && r->Err_0 is InconsistentNormal) ==> exists|tris: Seq<TriangleSTL>, i: int|
            {
                &&& aggregated(files@, normalization, tris)
                &&& 0 <= i < tris.len()
                &&& !#[trigger] windable(tris[i].point0, tris[i].point1, tris[i].point2, tris[i].normal)
                &&& r->Err_0 == LnasError::InconsistentNormal(i as usize)
            },
        (r is Err && r->Err_0 == LnasError::UnsafeSurfaceName) ==> exists|
            verts: Seq<Vec3f>,
            idx: Seq<Vec3u>,
            surfs: Seq<(String, Vec<u32>)>,
        |
            #[trigger] mesh_post(files@, normalization, verts, idx, surfs) && !(forall|j: int|
                0 <= j < surfs.len() ==> plain_name((#[trigger] surfs[j]).0@)),
        (mesh_buildable(files@, normalization) && (forall|
            verts: Seq<Vec3f>,
            idx: Seq<Vec3u>,
            surfs: Seq<(String, Vec<u32>)>,
        |
            #[trigger] mesh_post(files@, normalization, verts, idx, surfs) ==> (forall|j: int|
                0 <= j < surfs.len() ==> plain_name((#[trigger] surfs[j]).0@)))) ==> r is Ok,
{
    let (joined_vertices, joined_triangles, surfaces) = match build_mesh(files, normalization) {
        Ok(t) => t,
        Err(e) => {
            return Err(e);
        },
    };
    let lnas_obj = get_lnas_obj_save(&joined_vertices, &joined_triangles, &surfaces);
    let text = match render_lnas(&lnas_obj) {
        Ok(t) => t,
        Err(e) => {
            proof {
                let j = choose|j: int|
                    0 <= j < lnas_obj.surfaces@.len() && !plain_name(
                        (#[trigger] lnas_obj.surfaces@[j]).0@,
                    );
                assert(lnas_obj.surfaces@[j].0@ == surfaces@[j].0@);
                assert(!plain_name(surfaces@[j].0@));
                assert(!(forall|k: int|
                    0 <= k < surfaces@.len() ==> plain_name((#[trigger] surfaces@[k]).0@))) by {
                    if forall|k: int|
                        0 <= k < surfaces@.len() ==> plain_name((#[trigger] surfaces@[k]).0@) {
                        assert(plain_name(surfaces@[j].0@));
                    }
                }
            }
            return Err(e);
        },
    };
    proof {
        lemma_surface_lines_eq(lnas_obj.surfaces@, surfaces@);
        assert(text@ =~= document_text(joined_vertices@, joined_triangles@, surfaces@));
        assert forall|j: int| 0 <= j < surfaces@.len() implies plain_name(
            (#[trigger] surfaces@[j]).0@,
        ) by {
            assert(lnas_obj.surfaces@[j].0@ == surfaces@[j].0@);
            assert(plain_name(lnas_obj.surfaces@[j].0@));
        }
    }
    Ok(text)
}

} // verus!
