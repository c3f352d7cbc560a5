use vstd::prelude::*;
use base64::Engine;
use vstd::string::StringExecFns;
use crate::vector::{le4, vec3f_le_bytes, vec3u_le_bytes, Vec3f, Vec3u};

verus! {

/// The geometry block of the output document: both buffers base64-encoded.
#[derive(PartialEq, Eq, Debug)]
pub struct GeometryLNAS {
    pub vertices: String,
    pub triangles: String,
}

/// The whole output document: a version tag, the geometry buffers, and one
/// base64-encoded index list per surface, kept in name order.
#[derive(PartialEq, Eq, Debug)]
pub struct LNAS {
    pub version: String,
    pub geometry: GeometryLNAS,
    pub surfaces: Vec<(String, String)>,
}

/// The base64 digit of a 6-bit value, per the standard alphabet
/// `A..Z a..z 0..9 + /`.
pub open spec fn b64_digit(v: int) -> u8 {
    if v < 26 {
        (65 + v) as u8
    } else if v < 52 {
        (97 + (v - 26)) as u8
    } else if v < 62 {
        (48 + (v - 52)) as u8
    } else if v == 62 {
        43
    } else {
        47
    }
}

/// The character of a 6-bit value in the standard alphabet.
pub open spec fn b64_char(v: int) -> char {
    b64_digit(v) as char
}

/// The padding character `=`.
pub open spec fn b64_pad() -> char {
    61u8 as char
}

/// Standard base64 with padding: four characters for every three bytes,
/// the final group padded with `=`.
pub open spec fn b64_str(s: Seq<u8>) -> Seq<char>
    decreases s.len(),
{
    if s.len() == 0 {
        Seq::empty()
    } else if s.len() == 1 {
        let b0 = s[0] as int;
        seq![b64_char(b0 / 4), b64_char((b0 % 4) * 16), b64_pad(), b64_pad()]
    } else if s.len() == 2 {
        let b0 = s[0] as int;
        let b1 = s[1] as int;
        seq![
            b64_char(b0 / 4),
            b64_char((b0 % 4) * 16 + b1 / 16),
            b64_char((b1 % 16) * 4),
            b64_pad(),
        ]
    } else {
        let b0 = s[0] as int;
        let b1 = s[1] as int;
        let b2 = s[2] as int;
        seq![
            b64_char(b0 / 4),
            b64_char((b0 % 4) * 16 + b1 / 16),
            b64_char((b1 % 16) * 4 + b2 / 64),
            b64_char(b2 % 64),
        ] + b64_str(s.skip(3))
    }
}

/// Relies on base64::engine::general_purpose::STANDARD.encode: RFC 4648
/// base64 with the standard alphabet and `=` padding, a function of the
/// input bytes alone.
#[verifier::external_body]
fn base64_encode(bytes: &Vec<u8>) -> (r: String)
    ensures
        r@ == b64_str(bytes@),
{
    base64::engine::general_purpose::STANDARD.encode(bytes.as_slice())
}

/// The 6-bit value of a base64 character of the standard alphabet.
pub open spec fn b64_inv(c: char) -> int {
    let v = c as int;
    if 65 <= v < 91 {
        v - 65
    } else if 97 <= v < 123 {
        v - 97 + 26
    } else if 48 <= v < 58 {
        v - 48 + 52
    } else if v == 43 {
        62
    } else {
        63
    }
}

/// Decodes standard base64 text back into bytes, honouring `=` padding in
/// the final group.
pub open spec fn b64_decode(s: Seq<char>) -> Seq<u8>
    decreases s.len(),
{
    if s.len() < 4 {
        Seq::empty()
    } else {
        let d0 = b64_inv(s[0]);
        let d1 = b64_inv(s[1]);
        if s[2] == b64_pad() && s[3] == b64_pad() {
            seq![(d0 * 4 + d1 / 16) as u8]
        } else if s[3] == b64_pad() {
            let d2 = b64_inv(s[2]);
            seq![(d0 * 4 + d1 / 16) as u8, ((d1 % 16) * 16 + d2 / 4) as u8]
        } else {
            let d2 = b64_inv(s[2]);
            let d3 = b64_inv(s[3]);
            seq![
                (d0 * 4 + d1 / 16) as u8,
                ((d1 % 16) * 16 + d2 / 4) as u8,
                ((d2 % 4) * 64 + d3) as u8,
            ] + b64_decode(s.skip(4))
        }
    }
}

/// A digit character is never the padding character, and decodes back to
/// its value.
proof fn lemma_b64_char_inv(v: int)
    requires
        0 <= v < 64,
    ensures
        b64_char(v) != b64_pad(),
        b64_inv(b64_char(v)) == v,
{
    assert(b64_digit(v) as char as int == b64_digit(v) as int);
    assert(61u8 as char as int == 61);
}

/// Round trip: decoding the encoded text recovers the bytes exactly.
pub proof fn lemma_b64_roundtrip(s: Seq<u8>)
    ensures
        b64_decode(b64_str(s)) == s,
    decreases s.len(),
{
    if s.len() == 0 {
        assert(b64_decode(b64_str(s)) =~= s);
    } else if s.len() == 1 {
        let b0 = s[0] as int;
        lemma_b64_char_inv(b0 / 4);
        lemma_b64_char_inv((b0 % 4) * 16);
        assert(b64_decode(b64_str(s)) =~= s);
    } else if s.len() == 2 {
        let b0 = s[0] as int;
        let b1 = s[1] as int;
        lemma_b64_char_inv(b0 / 4);
        lemma_b64_char_inv((b0 % 4) * 16 + b1 / 16);
        lemma_b64_char_inv((b1 % 16) * 4);
        assert(b64_decode(b64_str(s)) =~= s);
    } else {
        let b0 = s[0] as int;
        let b1 = s[1] as int;
        let b2 = s[2] as int;
        lemma_b64_char_inv(b0 / 4);
        lemma_b64_char_inv((b0 % 4) * 16 + b1 / 16);
        lemma_b64_char_inv((b1 % 16) * 4 + b2 / 64);
        lemma_b64_char_inv(b2 % 64);
        lemma_b64_roundtrip(s.skip(3));
        assert(b64_str(s).skip(4) =~= b64_str(s.skip(3)));
        assert(b64_decode(b64_str(s)) =~= s);
    }
}

/// Decodes a byte buffer back into coordinate triples, twelve bytes each.
pub open spec fn decode_vec3fs(bytes: Seq<u8>) -> Seq<Vec3f>
    decreases bytes.len(),
{
    if bytes.len() < 12 {
        Seq::empty()
    } else {
        decode_vec3fs(bytes.take(bytes.len() - 12)).push(
            crate::reader::vec3f_at(bytes, bytes.len() - 12),
        )
    }
}

/// Decodes a byte buffer back into index triples, twelve bytes each.
pub open spec fn decode_vec3us(bytes: Seq<u8>) -> Seq<Vec3u>
    decreases bytes.len(),
{
    if bytes.len() < 12 {
        Seq::empty()
    } else {
        let off = bytes.len() - 12;
        decode_vec3us(bytes.take(off as int)).push(
            Vec3u {
                x: crate::reader::u32_at(bytes, off as int) as u32,
                y: crate::reader::u32_at(bytes, off + 4) as u32,
                z: crate::reader::u32_at(bytes, off + 8) as u32,
            },
        )
    }
}

proof fn lemma_vertices_bytes_len(vs: Seq<Vec3f>)
    ensures
        vertices_bytes(vs).len() == 12 * vs.len(),
    decreases vs.len(),
{
    if vs.len() > 0 {
        lemma_vertices_bytes_len(vs.drop_last());
    }
}

proof fn lemma_triangles_bytes_len(ts: Seq<Vec3u>)
    ensures
        triangles_bytes(ts).len() == 12 * ts.len(),
    decreases ts.len(),
{
    if ts.len() > 0 {
        lemma_triangles_bytes_len(ts.drop_last());
    }
}

/// Round trip: the vertex buffer decodes back to the vertex array, bit
/// exact, since each coordinate's stored bit pattern is emitted unchanged.
pub proof fn lemma_vertices_roundtrip(vs: Seq<Vec3f>)
    ensures
        decode_vec3fs(vertices_bytes(vs)) == vs,
    decreases vs.len(),
{
    lemma_vertices_bytes_len(vs);
    if vs.len() > 0 {
        lemma_vertices_roundtrip(vs.drop_last());
        lemma_vertices_bytes_len(vs.drop_last());
        let bytes = vertices_bytes(vs);
        let off = bytes.len() - 12;
        assert(bytes.take(off as int) =~= vertices_bytes(vs.drop_last()));
        crate::vector::lemma_le4_roundtrip(vs.last().x);
        crate::vector::lemma_le4_roundtrip(vs.last().y);
        crate::vector::lemma_le4_roundtrip(vs.last().z);
        assert(crate::reader::u32_at(bytes, off as int) == vs.last().x);
        assert(crate::reader::u32_at(bytes, off + 4) == vs.last().y);
        assert(crate::reader::u32_at(bytes, off + 8) == vs.last().z);
        assert(crate::reader::vec3f_at(bytes, off as int) == vs.last());
        assert(decode_vec3fs(vertices_bytes(vs)) =~= vs);
    } else {
        assert(decode_vec3fs(vertices_bytes(vs)) =~= vs);
    }
}

/// Round trip: the triangle buffer decodes back to the index array.
pub proof fn lemma_triangles_roundtrip(ts: Seq<Vec3u>)
    ensures
        decode_vec3us(triangles_bytes(ts)) == ts,
    decreases ts.len(),
{
    lemma_triangles_bytes_len(ts);
    if ts.len() > 0 {
        lemma_triangles_roundtrip(ts.drop_last());
        lemma_triangles_bytes_len(ts.drop_last());
        let bytes = triangles_bytes(ts);
        let off = bytes.len() - 12;
        assert(bytes.take(off as int) =~= triangles_bytes(ts.drop_last()));
        crate::vector::lemma_le4_roundtrip(ts.last().x);
        crate::vector::lemma_le4_roundtrip(ts.last().y);
        crate::vector::lemma_le4_roundtrip(ts.last().z);
        assert(crate::reader::u32_at(bytes, off as int) == ts.last().x);
        assert(crate::reader::u32_at(bytes, off + 4) == ts.last().y);
        assert(crate::reader::u32_at(bytes, off + 8) == ts.last().z);
        assert(decode_vec3us(triangles_bytes(ts)) =~= ts);
    } else {
        assert(decode_vec3us(triangles_bytes(ts)) =~= ts);
    }
}

/// Round trip for one encoded geometry buffer end to end: decoding the
/// base64 text of the vertex buffer and then the bytes recovers the joined
/// vertex array exactly, and likewise for the triangle buffer.
pub proof fn lemma_geometry_roundtrip(vs: Seq<Vec3f>, ts: Seq<Vec3u>)
    ensures
        decode_vec3fs(b64_decode(b64_str(vertices_bytes(vs)))) == vs,
        decode_vec3us(b64_decode(b64_str(triangles_bytes(ts)))) == ts,
{
    lemma_b64_roundtrip(vertices_bytes(vs));
    lemma_b64_roundtrip(triangles_bytes(ts));
    lemma_vertices_roundtrip(vs);
    lemma_triangles_roundtrip(ts);
}

/// The concatenated little-endian encodings of the vertex array.
pub open spec fn vertices_bytes(vs: Seq<Vec3f>) -> Seq<u8>
    decreases vs.len(),
{
    if vs.len() == 0 {
        Seq::empty()
    } else {
        vertices_bytes(vs.drop_last()) + vec3f_le_bytes(vs.last())
    }
}

/// The concatenated little-endian encodings of the triangle index array.
pub open spec fn triangles_bytes(ts: Seq<Vec3u>) -> Seq<u8>
    decreases ts.len(),
{
    if ts.len() == 0 {
        Seq::empty()
    } else {
        triangles_bytes(ts.drop_last()) + vec3u_le_bytes(ts.last())
    }
}

/// The concatenated little-endian encodings of one surface's index list.
pub open spec fn indices_bytes(is: Seq<u32>) -> Seq<u8>
    decreases is.len(),
{
    if is.len() == 0 {
        Seq::empty()
    } else {
        indices_bytes(is.drop_last()) + le4(is.last())
    }
}

fn build_vertices_bytes(vs: &Vec<Vec3f>) -> (r: Vec<u8>)
    ensures
        r@ == vertices_bytes(vs@),
{
    let mut out: Vec<u8> = Vec::new();
    let n = vs.len();
    let mut i: usize = 0;
    while i < n
        invariant
            i <= n == vs@.len(),
            out@ == vertices_bytes(vs@.take(i as int)),
        decreases n - i,
    {
        let mut b = vs[i].to_le_bytes_as_f32();
        out.append(&mut b);
        proof {
            assert(vs@.take(i + 1).drop_last() =~= vs@.take(i as int));
        }
        i = i + 1;
    }
    proof {
        assert(vs@.take(n as int) =~= vs@);
    }
    out
}

fn build_triangles_bytes(ts: &Vec<Vec3u>) -> (r: Vec<u8>)
    ensures
        r@ == triangles_bytes(ts@),
{
    let mut out: Vec<u8> = Vec::new();
    let n = ts.len();
    let mut i: usize = 0;
    while i < n
        invariant
            i <= n == ts@.len(),
            out@ == triangles_bytes(ts@.take(i as int)),
        decreases n - i,
    {
        let mut b = ts[i].to_le_bytes_as_u32();
        out.append(&mut b);
        proof {
            assert(ts@.take(i + 1).drop_last() =~= ts@.take(i as int));
        }
        i = i + 1;
    }
    proof {
        assert(ts@.take(n as int) =~= ts@);
    }
    out
}

fn build_indices_bytes(is: &Vec<u32>) -> (r: Vec<u8>)
    ensures
        r@ == indices_bytes(is@),
{
    let mut out: Vec<u8> = Vec::new();
    let n = is.len();
    let mut i: usize = 0;
    while i < n
        invariant
            i <= n == is@.len(),
            out@ == indices_bytes(is@.take(i as int)),
        decreases n - i,
    {
        crate::vector::push_u32_le(&mut out, is[i]);
        proof {
            assert(is@.take(i + 1).drop_last() =~= is@.take(i as int));
        }
        i = i + 1;
    }
    proof {
        assert(is@.take(n as int) =~= is@);
    }
    out
}

/// The version tag the document carries.
pub open spec fn version_tag() -> Seq<char> {
    "v0.4.0"@
}

/// Bundles the joined arrays and the surface index lists into the output
/// document: both geometry buffers and every index list base64-encoded.
pub fn get_lnas_obj_save(
    joined_vertices: &Vec<Vec3f>,
    joined_triangles: &Vec<Vec3u>,
    surfaces: &Vec<(String, Vec<u32>)>,
) -> (r: LNAS)
    ensures
        r.version@ == version_tag(),
        r.geometry.vertices@ == b64_str(vertices_bytes(joined_vertices@)),
        r.geometry.triangles@ == b64_str(triangles_bytes(joined_triangles@)),
        r.surfaces@.len() == surfaces@.len(),
        forall|j: int|
            0 <= j < surfaces@.len() ==> (#[trigger] r.surfaces@[j]).0@ == surfaces@[j].0@
                && r.surfaces@[j].1@ == b64_str(indices_bytes(surfaces@[j].1@)),
{
    let vertices_b = build_vertices_bytes(joined_vertices);
    let triangles_b = build_triangles_bytes(joined_triangles);
    let vertices_b64 = base64_encode(&vertices_b);
    let triangles_b64 = base64_encode(&triangles_b);
    let mut surfaces_save: Vec<(String, String)> = Vec::new();
    let n = surfaces.len();
    let mut j: usize = 0;
    while j < n
        invariant
            j <= n == surfaces@.len(),
            surfaces_save@.len() == j,
            forall|k: int|
                0 <= k < j ==> (#[trigger] surfaces_save@[k]).0@ == surfaces@[k].0@
                    && surfaces_save@[k].1@ == b64_str(indices_bytes(surfaces@[k].1@)),
        decreases n - j,
    {
        let surface_bytes = build_indices_bytes(&surfaces[j].1);
        let surface_b64 = base64_encode(&surface_bytes);
        let name = surfaces[j].0.clone();
        surfaces_save.push((name, surface_b64));
        j = j + 1;
    }
    let version = String::from_str("v0.4.0");
    LNAS {
        version,
        geometry: GeometryLNAS { vertices: vertices_b64, triangles: triangles_b64 },
        surfaces: surfaces_save,
    }
}

} // verus!
