use stl2lnas::cfg::Args;
use stl2lnas::errors::LnasError;
use stl2lnas::pipeline::{build_mesh, generate_lnas};
use stl2lnas::reader::read_stl;
use stl2lnas::surfaces::get_surfaces;
use stl2lnas::triangle::Axis;
use stl2lnas::vector::{almost_equal, quant, Vec3f, Vec3u};
use stl2lnas::vertice::generate_lagrangian_vertices;

type Tri = ([f32; 3], [f32; 3], [f32; 3], [f32; 3]);

fn stl_from(tris: &[Tri]) -> Vec<u8> {
    let mut out = vec![0u8; 80];
    out.extend_from_slice(&(tris.len() as u32).to_le_bytes());
    for t in tris {
        for v in [t.0, t.1, t.2, t.3] {
            for x in v {
                out.extend_from_slice(&x.to_le_bytes());
            }
        }
        out.extend_from_slice(&[0u8, 0u8]);
    }
    out
}

fn cube_tris() -> Vec<Tri> {
    vec![
        ([0., 0., -1.], [0., 0., 0.], [1., 0., 0.], [1., 1., 0.]),
        ([0., 0., -1.], [0., 0., 0.], [1., 1., 0.], [0., 1., 0.]),
        ([0., 0., 1.], [0., 0., 1.], [1., 0., 1.], [1., 1., 1.]),
        ([0., 0., 1.], [0., 0., 1.], [1., 1., 1.], [0., 1., 1.]),
        ([0., -1., 0.], [0., 0., 0.], [1., 0., 0.], [1., 0., 1.]),
        ([0., -1., 0.], [0., 0., 0.], [1., 0., 1.], [0., 0., 1.]),
        ([0., 1., 0.], [0., 1., 0.], [1., 1., 0.], [1., 1., 1.]),
        ([0., 1., 0.], [0., 1., 0.], [1., 1., 1.], [0., 1., 1.]),
        ([-1., 0., 0.], [0., 0., 0.], [0., 1., 0.], [0., 1., 1.]),
        ([-1., 0., 0.], [0., 0., 0.], [0., 1., 1.], [0., 0., 1.]),
        ([1., 0., 0.], [1., 0., 0.], [1., 1., 0.], [1., 1., 1.]),
        ([1., 0., 0.], [1., 0., 0.], [1., 1., 1.], [1., 0., 1.]),
    ]
}

fn cube_stl() -> Vec<u8> {
    stl_from(&cube_tris())
}

fn plane_stl() -> Vec<u8> {
    let tris: Vec<Tri> = vec![
        ([0., 0., 1.], [0., 0., 0.], [1., 0., 0.], [1., 1., 0.]),
        ([0., 0., 1.], [0., 0., 0.], [1., 1., 0.], [0., 1., 0.]),
    ];
    stl_from(&tris)
}

fn vec3(x: f32, y: f32, z: f32) -> Vec3f {
    Vec3f { x: x.to_bits(), y: y.to_bits(), z: z.to_bits() }
}

/// Scenario: a unit cube yields exactly 8 canonical vertices and 12
/// indexed triangles, every index a valid vertex offset.
#[test]
fn cube_mesh_scenario() {
    let files = vec![("cube".to_string(), cube_stl())];
    let (verts, tris, surfs) = build_mesh(&files, None).unwrap();
    assert_eq!(verts.len(), 8);
    assert_eq!(tris.len(), 12);
    for t in tris.iter() {
        assert!((t.x as usize) < 8);
        assert!((t.y as usize) < 8);
        assert!((t.z as usize) < 8);
    }
    assert_eq!(surfs.len(), 1);
    assert_eq!(surfs[0].1, (0u32..12).collect::<Vec<u32>>());
}

/// Scenario: a cube and a plane as two named surfaces give 14 triangles,
/// the cube's indices 0..12 and the plane's 12..14 ("cube" sorts first).
#[test]
fn two_surfaces_scenario() {
    let files = vec![
        ("plane".to_string(), plane_stl()),
        ("cube".to_string(), cube_stl()),
    ];
    let (triangles, surfaces) = get_surfaces(&files).unwrap();
    assert_eq!(triangles.len(), 14);
    assert_eq!(surfaces[0].0, "cube");
    assert_eq!(surfaces[1].0, "plane");
    assert_eq!(surfaces[0].1, (0u32..12).collect::<Vec<u32>>());
    assert_eq!(surfaces[1].1, (12u32..14).collect::<Vec<u32>>());
}

/// Scenario: normalizing to size 10 along x leaves the x extent exactly
/// spanning 0 to 10 within tolerance.
#[test]
fn normalization_scenario() {
    let files = vec![("cube".to_string(), cube_stl())];
    let (verts, _tris, _surfs) = build_mesh(&files, Some((10f32.to_bits(), Axis::X))).unwrap();
    let xs: Vec<f32> = verts.iter().map(|v| f32::from_bits(v.x)).collect();
    let min_x = xs.iter().cloned().fold(f32::MAX, f32::min);
    let max_x = xs.iter().cloned().fold(f32::MIN, f32::max);
    assert!(min_x.abs() < 1e-5);
    assert!((max_x - 10.0).abs() < 1e-5);
}

/// Normalizing a mesh that does not start at the origin translates it to
/// start at zero before scaling.
#[test]
fn normalization_translates_to_origin() {
    let mut tris = cube_tris();
    for t in tris.iter_mut() {
        t.1[0] += 2.0;
        t.2[0] += 2.0;
        t.3[0] += 2.0;
    }
    let files = vec![("cube".to_string(), stl_from(&tris))];
    let (verts, _t, _s) = build_mesh(&files, Some((10f32.to_bits(), Axis::X))).unwrap();
    let xs: Vec<f32> = verts.iter().map(|v| f32::from_bits(v.x)).collect();
    let min_x = xs.iter().cloned().fold(f32::MAX, f32::min);
    let max_x = xs.iter().cloned().fold(f32::MIN, f32::max);
    assert!(min_x.abs() < 1e-5);
    assert!((max_x - 10.0).abs() < 1e-5);
}

/// Tolerance equality: positions closer than the quantization epsilon
/// share a canonical index; positions farther apart do not.
#[test]
fn tolerance_equality_scenario() {
    assert!(almost_equal(1.0f32.to_bits(), 1.000_000_4f32.to_bits()));
    assert!(!almost_equal(1.0f32.to_bits(), 1.000_1f32.to_bits()));

    let tris: Vec<Tri> = vec![
        ([0., 0., 1.], [0., 0., 0.], [1., 0., 0.], [0., 1., 0.]),
        ([0., 0., 1.], [0.000_000_4, 0., 0.], [1., 0., 0.], [0., 1.000_1, 0.]),
    ];
    let (triangles, _) = read_stl(&stl_from(&tris)).unwrap();
    let table = generate_lagrangian_vertices(&triangles);
    // (0,0,0) and (4e-7,0,0) collapse; (0,1,0) and (0,1.0001,0) stay apart
    assert_eq!(table.len(), 4);
    let i1 = table.index_of(vec3(0., 0., 0.)).unwrap();
    let i2 = table.index_of(vec3(0.000_000_4, 0., 0.)).unwrap();
    assert_eq!(i1, i2);
    let j1 = table.index_of(vec3(0., 1., 0.)).unwrap();
    let j2 = table.index_of(vec3(0., 1.000_1, 0.)).unwrap();
    assert_ne!(j1, j2);
}

/// Dedup idempotence on concrete data: re-canonicalizing the canonical
/// vertex set changes nothing.
#[test]
fn dedup_idempotence_scenario() {
    let (triangles, _) = read_stl(&cube_stl()).unwrap();
    let table = generate_lagrangian_vertices(&triangles);
    // rebuild a soup whose corners are exactly the canonical vertices
    let mut tris2: Vec<Tri> = Vec::new();
    let vs: Vec<[f32; 3]> = table
        .verts
        .iter()
        .map(|v| [
            f32::from_bits(v.pos.x),
            f32::from_bits(v.pos.y),
            f32::from_bits(v.pos.z),
        ])
        .collect();
    // 8 corners: take them three at a time, padding with the first ones
    for c in 0..8 {
        tris2.push(([0., 0., 1.], vs[c], vs[(c + 1) % 8], vs[(c + 3) % 8]));
    }
    let (triangles2, _) = read_stl(&stl_from(&tris2)).unwrap();
    let table2 = generate_lagrangian_vertices(&triangles2);
    assert_eq!(table.verts.len(), table2.verts.len());
    for (a, b) in table.verts.iter().zip(table2.verts.iter()) {
        assert_eq!(a.pos, b.pos);
    }
}

/// Determinism: converting the same inputs twice yields byte-identical
/// documents.
#[test]
fn determinism_scenario() {
    let files = vec![
        ("plane".to_string(), plane_stl()),
        ("cube".to_string(), cube_stl()),
    ];
    let doc1 = generate_lnas(&files, None).unwrap();
    let doc2 = generate_lnas(&files, None).unwrap();
    assert_eq!(doc1, doc2);
    // and independently of the input order of the name-path pairs
    let files_swapped = vec![
        ("cube".to_string(), cube_stl()),
        ("plane".to_string(), plane_stl()),
    ];
    let doc3 = generate_lnas(&files_swapped, None).unwrap();
    assert_eq!(doc1, doc3);
}

/// The rendered document has the documented layout.
#[test]
fn document_layout() {
    let tris: Vec<Tri> = vec![([0., 0., 1.], [0., 0., 0.], [1., 0., 0.], [0., 1., 0.])];
    let files = vec![("tri".to_string(), stl_from(&tris))];
    let text = generate_lnas(&files, None).unwrap();
    let lines: Vec<&str> = text.lines().collect();
    assert_eq!(lines[0], "version: v0.4.0");
    assert_eq!(lines[1], "geometry:");
    assert!(lines[2].starts_with("  vertices: "));
    assert!(lines[3].starts_with("  triangles: "));
    assert_eq!(lines[4], "surfaces:");
    assert_eq!(lines[5], "  tri: AAAAAA==");
}

/// An unreconcilable stored normal aborts the conversion, naming the
/// triangle.
#[test]
fn inconsistent_normal_is_fatal() {
    // normal lies in the triangle's plane: neither ordering agrees
    let tris: Vec<Tri> = vec![([1., 0., 0.], [0., 0., 0.], [1., 0., 0.], [0., 1., 0.])];
    let files = vec![("bad".to_string(), stl_from(&tris))];
    assert_eq!(generate_lnas(&files, None), Err(LnasError::InconsistentNormal(0)));
}

/// A surface name the plain document syntax cannot carry is refused.
#[test]
fn unsafe_surface_name_is_fatal() {
    let tris: Vec<Tri> = vec![([0., 0., 1.], [0., 0., 0.], [1., 0., 0.], [0., 1., 0.])];
    let files = vec![("bad name".to_string(), stl_from(&tris))];
    assert_eq!(generate_lnas(&files, None), Err(LnasError::UnsafeSurfaceName));
}

#[test]
fn quantization_values() {
    assert_eq!(quant(1.0f32.to_bits()), 100_000);
    assert_eq!(quant((-1.0f32).to_bits()), -100_000);
    assert_eq!(quant(0.5f32.to_bits()), 50_000);
    assert_eq!(quant(0.0f32.to_bits()), 0);
    assert_eq!(quant((-0.0f32).to_bits()), 0);
    assert_eq!(quant(1.23456f32.to_bits()), 123_456);
    assert_eq!(quant(f32::INFINITY.to_bits()), 0x7fff_ffff);
    assert_eq!(quant(f32::NEG_INFINITY.to_bits()), -0x8000_0000);
    assert_eq!(quant(f32::NAN.to_bits()), 0);
    assert_eq!(quant(1.0e6f32.to_bits()), 0x7fff_ffff);
}

#[test]
fn le_byte_encodings() {
    let v = Vec3u { x: 1, y: 0x0201, z: 0xFFFF_FFFF };
    assert_eq!(
        v.to_le_bytes_as_u32(),
        vec![1, 0, 0, 0, 1, 2, 0, 0, 0xFF, 0xFF, 0xFF, 0xFF]
    );
    let w = Vec3u { x: 0, y: 1, z: 2 };
    let expected: Vec<u8> = [0f32, 1f32, 2f32]
        .iter()
        .flat_map(|f| f.to_le_bytes())
        .collect();
    assert_eq!(w.to_le_bytes_as_f32(), expected);
    let p = vec3(1.5, -2.5, 0.0);
    let expected_p: Vec<u8> = [1.5f32, -2.5f32, 0.0f32]
        .iter()
        .flat_map(|f| f.to_le_bytes())
        .collect();
    assert_eq!(p.to_le_bytes_as_f32(), expected_p);
}

#[test]
fn all_stls_resolves_names() {
    let args = Args {
        dir: vec!["models".to_string()],
        file: vec!["extra/top.stl".to_string()],
        output: "out.lnas".to_string(),
        overwrite: false,
    };
    let listings = vec![vec![
        "models/cube.stl".to_string(),
        "models/readme.txt".to_string(),
        "models/part.stl".to_string(),
    ]];
    let pairs = args.all_stls(&listings).unwrap();
    assert_eq!(pairs.len(), 3);
    assert_eq!(pairs[0], ("cube".to_string(), "models/cube.stl".to_string()));
    assert_eq!(pairs[1], ("part".to_string(), "models/part.stl".to_string()));
    assert_eq!(pairs[2], ("top".to_string(), "extra/top.stl".to_string()));
}

#[test]
fn all_stls_rejects_bad_file_and_duplicates() {
    let args = Args {
        dir: vec![],
        file: vec!["notes.txt".to_string()],
        output: "out.lnas".to_string(),
        overwrite: false,
    };
    let listings: Vec<Vec<String>> = vec![];
    assert_eq!(args.all_stls(&listings), Err(LnasError::InvalidStlName));

    let args2 = Args {
        dir: vec![],
        file: vec!["a/cube.stl".to_string(), "b/cube.stl".to_string()],
        output: "out.lnas".to_string(),
        overwrite: false,
    };
    assert_eq!(args2.all_stls(&listings), Err(LnasError::DuplicateSurface));
}
