use vstd::prelude::*;
use vstd::slice::slice_subrange;
use crate::errors::LnasError;
use crate::triangle::{area_valid, unit_normal, TriangleSTL};
use crate::vector::Vec3f;

verus! {

/// The 32-bit value stored little-endian at the given byte offset.
pub open spec fn u32_at(s: Seq<u8>, off: int) -> int {
    s[off] + s[off + 1] * 0x100 + s[off + 2] * 0x1_0000 + s[off + 3] * 0x100_0000
}

/// The coordinate triple stored at the given byte offset: three 32-bit bit
/// patterns, little-endian.
pub open spec fn vec3f_at(s: Seq<u8>, off: int) -> Vec3f {
    Vec3f { x: u32_at(s, off) as u32, y: u32_at(s, off + 4) as u32, z: u32_at(s, off + 8) as u32 }
}

/// The 50-byte triangle record stored at the given byte offset: the normal
/// first, then the three corners; the trailing two attribute bytes are
/// ignored.
pub open spec fn tri_at(s: Seq<u8>, off: int) -> TriangleSTL {
    TriangleSTL {
        point0: vec3f_at(s, off + 12),
        point1: vec3f_at(s, off + 24),
        point2: vec3f_at(s, off + 36),
        normal: vec3f_at(s, off),
    }
}

/// The i-th triangle record of a binary STL file: an 80-byte header, a
/// 4-byte count, then 50 bytes per triangle.
pub open spec fn stl_tri(s: Seq<u8>, i: int) -> TriangleSTL {
    tri_at(s, 84 + 50 * i)
}

/// The declared triangle count of a binary STL file.
pub open spec fn stl_count(s: Seq<u8>) -> int {
    u32_at(s, 80)
}

/// Whether the file holds all its declared records.
pub open spec fn stl_len_ok(s: Seq<u8>) -> bool {
    s.len() >= 84 + 50 * stl_count(s)
}

/// Whether every declared record carries a unit-length stored normal.
pub open spec fn stl_normals_ok(s: Seq<u8>) -> bool {
    forall|i: int| 0 <= i < stl_count(s) ==> unit_normal(#[trigger] stl_tri(s, i).normal)
}

/// The first `n` decoded triangles, in file order, with the degenerate ones
/// dropped.
pub open spec fn stl_filtered(s: Seq<u8>, n: int) -> Seq<TriangleSTL>
    decreases n,
{
    if n <= 0 {
        Seq::empty()
    } else if area_valid(stl_tri(s, n - 1)) {
        stl_filtered(s, n - 1).push(stl_tri(s, n - 1))
    } else {
        stl_filtered(s, n - 1)
    }
}

/// The triangle list a well-formed STL file decodes to.
pub open spec fn stl_triangles(s: Seq<u8>) -> Seq<TriangleSTL> {
    stl_filtered(s, stl_count(s))
}

/// Whether the bytes decode at all: long enough for the header, the count
/// and every record, with every stored normal of unit length.
pub open spec fn stl_parses(s: Seq<u8>) -> bool {
    s.len() >= 84 && stl_len_ok(s) && stl_normals_ok(s)
}

/// Reads a 32-bit little-endian value from four bytes.
pub fn bytes_to_u32(b: &[u8]) -> (r: u32)
    requires
        b@.len() == 4,
    ensures
        r == u32_at(b@, 0),
{
    b[0] as u32 + b[1] as u32 * 0x100 + b[2] as u32 * 0x1_0000 + b[3] as u32 * 0x100_0000
}

/// Reads a coordinate triple from twelve bytes.
#[allow(non_snake_case)]
pub fn bytes_to_point3D(b: &[u8]) -> (r: Vec3f)
    requires
        b@.len() == 12,
    ensures
        r == vec3f_at(b@, 0),
{
    let x = bytes_to_u32(slice_subrange(b, 0, 4));
    let y = bytes_to_u32(slice_subrange(b, 4, 8));
    let z = bytes_to_u32(slice_subrange(b, 8, 12));
    Vec3f { x, y, z }
}

/// Decodes one 50-byte triangle record, rejecting a stored normal that is
/// not of unit length within tolerance.
pub fn bytes_to_triangle(b: &[u8]) -> (r: Result<TriangleSTL, LnasError>)
    requires
        b@.len() == 50,
    ensures
        unit_normal(tri_at(b@, 0).normal) ==> r == Ok::<TriangleSTL, LnasError>(tri_at(b@, 0)),
        !unit_normal(tri_at(b@, 0).normal) ==> r == Err::<TriangleSTL, LnasError>(
            LnasError::InvalidNormal,
        ),
{
    let normal = bytes_to_point3D(slice_subrange(b, 0, 12));
    let point0 = bytes_to_point3D(slice_subrange(b, 12, 24));
    let point1 = bytes_to_point3D(slice_subrange(b, 24, 36));
    let point2 = bytes_to_point3D(slice_subrange(b, 36, 48));
    assert(normal == vec3f_at(b@, 0));
    assert(point0 == vec3f_at(b@, 12));
    assert(point1 == vec3f_at(b@, 24));
    assert(point2 == vec3f_at(b@, 36));
    TriangleSTL::new(point0, point1, point2, normal)
}

/// Reads the declared triangle count: the four bytes after the 80-byte
/// header.
pub fn number_of_triangles(stl_content: &Vec<u8>) -> (r: Result<u32, LnasError>)
    ensures
        stl_content@.len() >= 84 ==> r == Ok::<u32, LnasError>(stl_count(stl_content@) as u32),
        stl_content@.len() < 84 ==> r == Err::<u32, LnasError>(LnasError::TruncatedStl),
{
    if stl_content.len() < 84 {
        return Err(LnasError::TruncatedStl);
    }
    let n = bytes_to_u32(slice_subrange(stl_content.as_slice(), 80, 84));
    Ok(n)
}

/// Decodes the declared records in file order, dropping degenerate
/// triangles and counting them.
pub fn triangles_from_stl(stl_content: &Vec<u8>, n_triangles: u32) -> (r: Result<
    (Vec<TriangleSTL>, usize),
    LnasError,
>)
    ensures
        stl_content@.len() < 84 + 50 * n_triangles ==> r == Err::<
            (Vec<TriangleSTL>, usize),
            LnasError,
        >(LnasError::TruncatedStl),
        (stl_content@.len() >= 84 + 50 * n_triangles && (forall|i: int|
            0 <= i < n_triangles ==> unit_normal(#[trigger] stl_tri(stl_content@, i).normal)))
            ==> (r is Ok && r->Ok_0.0@ == stl_filtered(stl_content@, n_triangles as int)
            && r->Ok_0.1 + r->Ok_0.0@.len() == n_triangles),
        (stl_content@.len() >= 84 + 50 * n_triangles && !(forall|i: int|
            0 <= i < n_triangles ==> unit_normal(#[trigger] stl_tri(stl_content@, i).normal)))
            ==> r == Err::<(Vec<TriangleSTL>, usize), LnasError>(LnasError::InvalidNormal),
{
    let len64: u64 = stl_content.len() as u64;
    if len64 < 84 || (len64 - 84) / 50 < n_triangles as u64 {
        return Err(LnasError::TruncatedStl);
    }
    let mut all_triangles: Vec<TriangleSTL> = Vec::new();
    let mut n_invalid_triangles: usize = 0;
    let n = n_triangles as usize;
    let mut i: usize = 0;
    while i < n
        invariant
            i <= n == n_triangles,
            stl_content@.len() >= 84 + 50 * n_triangles,
            stl_content@.len() <= usize::MAX,
            all_triangles@ == stl_filtered(stl_content@, i as int),
            n_invalid_triangles + all_triangles@.len() == i,
            forall|j: int| 0 <= j < i ==> unit_normal(#[trigger] stl_tri(stl_content@, j).normal),
        decreases n - i,
    {
        proof {
            assert(50 * (i as int) + 50 <= 50 * (n_triangles as int));
            assert(84 + 50 * (i as int) + 50 <= stl_content@.len());
        }
        let off: usize = 84 + 50 * i;
        let record = slice_subrange(stl_content.as_slice(), off, off + 50);
        proof {
            assert(record@ =~= stl_content@.subrange(off as int, off as int + 50));
            assert forall|k: int| 0 <= k < 50 implies record@[k] == stl_content@[off + k] by {}
            assert(vec3f_at(record@, 0) == vec3f_at(stl_content@, off as int));
            assert(vec3f_at(record@, 12) == vec3f_at(stl_content@, off + 12));
            assert(vec3f_at(record@, 24) == vec3f_at(stl_content@, off + 24));
            assert(vec3f_at(record@, 36) == vec3f_at(stl_content@, off + 36));
            assert(tri_at(record@, 0) == stl_tri(stl_content@, i as int));
        }
        let triangle = match bytes_to_triangle(record) {
            Ok(t) => t,
            Err(e) => {
                return Err(e);
            },
        };
        if triangle.check_area_valid() {
            all_triangles.push(triangle);
        } else {
            n_invalid_triangles = n_invalid_triangles + 1;
        }
        i = i + 1;
    }
    Ok((all_triangles, n_invalid_triangles))
}

/// Decodes a whole binary STL file into its kept triangles and the count
/// of degenerate triangles that were dropped.
pub fn read_stl(stl_content: &Vec<u8>) -> (r: Result<(Vec<TriangleSTL>, usize), LnasError>)
    ensures
        (stl_content@.len() < 84 || !stl_len_ok(stl_content@)) ==> r == Err::<
            (Vec<TriangleSTL>, usize),
            LnasError,
        >(LnasError::TruncatedStl),
        (stl_content@.len() >= 84 && stl_len_ok(stl_content@) && stl_normals_ok(stl_content@))
            ==> (r is Ok && r->Ok_0.0@ == stl_triangles(stl_content@) && r->Ok_0.1
            + r->Ok_0.0@.len() == stl_count(stl_content@)),
        (stl_content@.len() >= 84 && stl_len_ok(stl_content@) && !stl_normals_ok(stl_content@))
            ==> r == Err::<(Vec<TriangleSTL>, usize), LnasError>(LnasError::InvalidNormal),
{
    let n_triangles = match number_of_triangles(stl_content) {
        Ok(n) => n,
        Err(e) => {
            return Err(e);
        },
    };
    triangles_from_stl(stl_content, n_triangles)
}

} // verus!
