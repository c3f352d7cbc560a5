use base64::Engine;
use stl2lnas::format::{get_lnas_obj_save, GeometryLNAS};
use stl2lnas::join::join_information;
use stl2lnas::lagrtriangle::{generate_lagrangian_triangles, get_normal_order, LagrangianTriangle};
use stl2lnas::reader::read_stl;
use stl2lnas::surfaces::get_surfaces;
use stl2lnas::vector::{Vec3f, Vec3u};
use stl2lnas::vertice::{generate_lagrangian_vertices, LagrangianVertice, VertexTable};

type Tri = ([f32; 3], [f32; 3], [f32; 3], [f32; 3]);

fn stl_from(tris: &[Tri]) -> Vec<u8> {
    let mut out = vec![0u8; 80];
    out.extend_from_slice(&(tris.len() as u32).to_le_bytes());
    for t in tris {
        for v in [t.0, t.1, t.2, t.3] {
            for x in v {
                out.extend_from_slice(&x.to_le_bytes());
            }
        }
        out.extend_from_slice(&[0u8, 0u8]);
    }
    out
}

fn cube_tris() -> Vec<Tri> {
    vec![
        ([0., 0., -1.], [0., 0., 0.], [1., 0., 0.], [1., 1., 0.]),
        ([0., 0., -1.], [0., 0., 0.], [1., 1., 0.], [0., 1., 0.]),
        ([0., 0., 1.], [0., 0., 1.], [1., 0., 1.], [1., 1., 1.]),
        ([0., 0., 1.], [0., 0., 1.], [1., 1., 1.], [0., 1., 1.]),
        ([0., -1., 0.], [0., 0., 0.], [1., 0., 0.], [1., 0., 1.]),
        ([0., -1., 0.], [0., 0., 0.], [1., 0., 1.], [0., 0., 1.]),
        ([0., 1., 0.], [0., 1., 0.], [1., 1., 0.], [1., 1., 1.]),
        ([0., 1., 0.], [0., 1., 0.], [1., 1., 1.], [0., 1., 1.]),
        ([-1., 0., 0.], [0., 0., 0.], [0., 1., 0.], [0., 1., 1.]),
        ([-1., 0., 0.], [0., 0., 0.], [0., 1., 1.], [0., 0., 1.]),
        ([1., 0., 0.], [1., 0., 0.], [1., 1., 0.], [1., 1., 1.]),
        ([1., 0., 0.], [1., 0., 0.], [1., 1., 1.], [1., 0., 1.]),
    ]
}

fn cube_stl() -> Vec<u8> {
    stl_from(&cube_tris())
}

fn terrain_stl() -> Vec<u8> {
    let mut tris: Vec<Tri> = Vec::new();
    for i in 0..3 {
        for j in 0..3 {
            let (x, y) = (i as f32, j as f32);
            tris.push(([0., 0., 1.], [x, y, 0.], [x + 1., y, 0.], [x + 1., y + 1., 0.]));
            tris.push(([0., 0., 1.], [x, y, 0.], [x + 1., y + 1., 0.], [x, y + 1., 0.]));
        }
    }
    stl_from(&tris)
}

fn plane_stl() -> Vec<u8> {
    let tris: Vec<Tri> = vec![
        ([0., 0., 1.], [0., 0., 0.], [1., 0., 0.], [1., 1., 0.]),
        ([0., 0., 1.], [0., 0., 0.], [1., 1., 0.], [0., 1., 0.]),
    ];
    stl_from(&tris)
}

fn vec3(x: f32, y: f32, z: f32) -> Vec3f {
    Vec3f { x: x.to_bits(), y: y.to_bits(), z: z.to_bits() }
}

#[test]
fn check_normal_decision() {
    let p0 = vec3(0., 0., 0.);
    let p1 = vec3(1., 0., 0.);
    let p2 = vec3(0., 1., 0.);
    let normal_pos = vec3(0., 0., 1.);
    let normal_neg = vec3(0., 0., -1.);
    let normal_pos_wrong = vec3(0., 0., 0.5);

    let res = get_normal_order(p0, p1, p2, &normal_pos);
    assert_eq!(res, Some((p0, p1, p2)));

    let res = get_normal_order(p0, p1, p2, &normal_neg);
    assert_eq!(res, Some((p0, p2, p1)));

    // Does not fail, gets normal in direction that dot product is positive
    let res = get_normal_order(p0, p1, p2, &normal_pos_wrong);
    assert_eq!(res, Some((p0, p1, p2)));
}

#[test]
fn check_vertices_stl_cube() {
    let (triangles, _) = read_stl(&cube_stl()).unwrap();
    // Cube has 2 triangles each face
    assert_eq!(triangles.len(), 6 * 2);
    let lagr_vertices = generate_lagrangian_vertices(&triangles);
    // Cube has 8 vertices
    assert_eq!(lagr_vertices.len(), 8);
}

#[test]
fn check_vertices_stl_terrain() {
    let (triangles, _) = read_stl(&terrain_stl()).unwrap();
    let lagr_vertices = generate_lagrangian_vertices(&triangles);
    if triangles.len() * 3 < lagr_vertices.len() {
        panic!("There are more vertices than 3 times triangles");
    }
}

#[test]
fn check_triangles_stl_cube() {
    let (triangles, _) = read_stl(&cube_stl()).unwrap();
    let lagr_vertices = generate_lagrangian_vertices(&triangles);
    let lagr_triangles = generate_lagrangian_triangles(&lagr_vertices, &triangles).unwrap();
    assert_eq!(lagr_triangles.len(), triangles.len());
}

#[test]
fn check_triangles_stl_terrain() {
    let (triangles, _) = read_stl(&terrain_stl()).unwrap();
    let lagr_vertices = generate_lagrangian_vertices(&triangles);
    let lagr_triangles = generate_lagrangian_triangles(&lagr_vertices, &triangles).unwrap();
    assert_eq!(lagr_triangles.len(), triangles.len());
}

fn check_vertices_compatibility(lagr_vertices: &VertexTable, joined_vertices: &Vec<Vec3f>) {
    assert_eq!(lagr_vertices.len(), joined_vertices.len());
    for (i, vert) in joined_vertices.iter().enumerate() {
        let lagr_vert_pos = lagr_vertices.index_of(*vert).unwrap();
        assert_eq!(i, lagr_vert_pos);
    }
}

fn check_triangles_compatibility(
    lagr_triangles: &Vec<LagrangianTriangle>,
    joined_vertices: &Vec<Vec3f>,
    joined_triangles: &Vec<Vec3u>,
) {
    assert_eq!(joined_triangles.len(), lagr_triangles.len());
    for (i, triangle) in joined_triangles.iter().enumerate() {
        let lagr_triangle = lagr_triangles[i];
        for (p, idx) in [
            (lagr_triangle.p0, triangle.x),
            (lagr_triangle.p1, triangle.y),
            (lagr_triangle.p2, triangle.z),
        ] {
            let joined = joined_vertices[idx as usize];
            if !p.pos.almost_equal(&joined) {
                panic!("corner {} of triangle {} resolves to the wrong vertex", idx, i);
            }
        }
    }
}

#[test]
fn join_check_join_info_stl_cube() {
    let (triangles, _) = read_stl(&cube_stl()).unwrap();
    let lagr_vertices = generate_lagrangian_vertices(&triangles);
    let lagr_triangles = generate_lagrangian_triangles(&lagr_vertices, &triangles).unwrap();
    let (joined_vert, joined_tri) = join_information(&lagr_vertices, &lagr_triangles);

    check_vertices_compatibility(&lagr_vertices, &joined_vert);
    check_triangles_compatibility(&lagr_triangles, &joined_vert, &joined_tri);
}

#[test]
fn check_join_infocar_stl_terrain() {
    let (triangles, _) = read_stl(&terrain_stl()).unwrap();
    let lagr_vertices = generate_lagrangian_vertices(&triangles);
    let lagr_triangles = generate_lagrangian_triangles(&lagr_vertices, &triangles).unwrap();
    let (joined_vert, joined_tri) = join_information(&lagr_vertices, &lagr_triangles);

    check_vertices_compatibility(&lagr_vertices, &joined_vert);
    check_triangles_compatibility(&lagr_triangles, &joined_vert, &joined_tri);
}

fn get_vecs_from_geometry(geometry: &GeometryLNAS) -> (Vec<Vec3f>, Vec<Vec3u>) {
    let engine = base64::engine::general_purpose::STANDARD;
    let vertices_bytes = engine.decode(&geometry.vertices).unwrap();
    let triangles_bytes = engine.decode(&geometry.triangles).unwrap();

    let mut vertices: Vec<Vec3f> = Vec::new();
    let mut triangles: Vec<Vec3u> = Vec::new();

    // 3 elements per vector, 4 bytes per element
    for i in 0..vertices_bytes.len() / 12 {
        let idx = i * 12;
        let f = |o: usize| u32::from_le_bytes(vertices_bytes[idx + o..idx + o + 4].try_into().unwrap());
        vertices.push(Vec3f { x: f(0), y: f(4), z: f(8) });
    }
    for i in 0..triangles_bytes.len() / 12 {
        let idx = i * 12;
        let f = |o: usize| u32::from_le_bytes(triangles_bytes[idx + o..idx + o + 4].try_into().unwrap());
        triangles.push(Vec3u { x: f(0), y: f(4), z: f(8) });
    }
    (vertices, triangles)
}

fn check_lnas_geometry(
    geometry: &GeometryLNAS,
    joined_vertices: &Vec<Vec3f>,
    joined_triangles: &Vec<Vec3u>,
) {
    let (gem_vertices, gem_triangles) = get_vecs_from_geometry(geometry);

    assert_eq!(gem_vertices.len(), joined_vertices.len());
    assert_eq!(gem_triangles.len(), joined_triangles.len());

    for (i, vert) in gem_vertices.iter().enumerate() {
        if *vert != joined_vertices[i] {
            panic!("vertex at index {} decodes differently", i);
        }
    }
    for (i, triangle) in gem_triangles.iter().enumerate() {
        if *triangle != joined_triangles[i] {
            panic!("triangle at index {} decodes differently", i);
        }
    }
}

fn convert(files: &Vec<(String, Vec<u8>)>) -> (Vec<Vec3f>, Vec<Vec3u>, stl2lnas::format::LNAS) {
    let (triangles, surfaces) = get_surfaces(files).unwrap();
    let lagr_vertices = generate_lagrangian_vertices(&triangles);
    let lagr_triangles = generate_lagrangian_triangles(&lagr_vertices, &triangles).unwrap();
    let (joined_vertices, joined_triangles) = join_information(&lagr_vertices, &lagr_triangles);
    let lnas_obj = get_lnas_obj_save(&joined_vertices, &joined_triangles, &surfaces);
    (joined_vertices, joined_triangles, lnas_obj)
}

#[test]
fn format_check_join_info_stl_cube() {
    let files = vec![("cube".to_string(), cube_stl())];
    let (joined_vertices, joined_triangles, lnas_obj) = convert(&files);
    check_lnas_geometry(&lnas_obj.geometry, &joined_vertices, &joined_triangles);
}

#[test]
fn format_check_join_info_stl_terrain() {
    let files = vec![("terrain".to_string(), terrain_stl())];
    let (joined_vertices, joined_triangles, lnas_obj) = convert(&files);
    check_lnas_geometry(&lnas_obj.geometry, &joined_vertices, &joined_triangles);
}

#[test]
fn check_save_surfaces_combine() {
    let files = vec![
        ("cube".to_string(), cube_stl()),
        ("plane".to_string(), plane_stl()),
    ];
    let (joined_vertices, joined_triangles, lnas_obj) = convert(&files);
    check_lnas_geometry(&lnas_obj.geometry, &joined_vertices, &joined_triangles);
}

#[test]
fn save_check_join_info_stl_cube() {
    let files = vec![("cube".to_string(), cube_stl())];
    let (_jv, _jt, lnas_obj) = convert(&files);
    let text = stl2lnas::save::render_lnas(&lnas_obj).unwrap();
    assert!(text.starts_with("version: "));
}

#[test]
fn save_check_join_info_stl_terrain() {
    let files = vec![("cube".to_string(), terrain_stl())];
    let (_jv, _jt, lnas_obj) = convert(&files);
    let text = stl2lnas::save::render_lnas(&lnas_obj).unwrap();
    assert!(text.contains("surfaces:"));
}

#[test]
fn check_join_info_stl_terrain_cube() {
    let files = vec![
        ("plane".to_string(), plane_stl()),
        ("cube".to_string(), cube_stl()),
    ];
    let (_jv, _jt, lnas_obj) = convert(&files);
    let text = stl2lnas::save::render_lnas(&lnas_obj).unwrap();
    assert!(text.contains("  cube: "));
    assert!(text.contains("  plane: "));
}

#[test]
fn base64_blob_is_really_encoded() {
    // an all-zero vertex encodes as base64 'A's, not as the raw bytes
    let verts = vec![LagrangianVertice::new(vec3(0., 0., 0.)).pos];
    let tris: Vec<Vec3u> = vec![];
    let surfs: Vec<(String, Vec<u32>)> = vec![];
    let doc = get_lnas_obj_save(&verts, &tris, &surfs);
    assert_eq!(doc.geometry.vertices, "AAAAAAAAAAAAAAAA");
    assert_eq!(doc.geometry.triangles, "");
    // and a known index list round-trips through the standard alphabet
    let surfs2: Vec<(String, Vec<u32>)> = vec![("s".to_string(), vec![0, 1, 2])];
    let doc2 = get_lnas_obj_save(&verts, &tris, &surfs2);
    assert_eq!(doc2.surfaces[0].1, "AAAAAAEAAAACAAAA");
}
